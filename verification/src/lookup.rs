//! References to entities as users type them: a name, or a fingerprint.

use vstd::prelude::*;
use vstd::string::StringExecFns;
use crate::entity::{Entity, EntityView};
use crate::error::LoungeError;
use crate::text::{find, from_chars, lemma_find_unique, str_eq, to_chars, Separator};

verus! {

/// A reference to an entity.
#[derive(Debug, PartialEq, Eq)]
pub enum EntityLookup {
    /// The entity's current name.
    Name(String),
    /// The entity's fingerprint, written `SHA256:<digest>`.
    Sha256(String),
}

/// The mathematical content of an [`EntityLookup`].
pub enum LookupView {
    Name(Seq<char>),
    Sha256(Seq<char>),
}

impl LookupView {
    /// Whether the reference is to `entity`: by name, the entity's current
    /// name is the one given; by fingerprint, the entity's fingerprint is.
    pub open spec fn matches(self, entity: EntityView) -> bool {
        match self {
            LookupView::Name(name) => entity.persona.name == name,
            LookupView::Sha256(digest) => entity.fingerprint == digest,
        }
    }
}

impl View for EntityLookup {
    type V = LookupView;

    open spec fn view(&self) -> LookupView {
        match self {
            EntityLookup::Name(name) => LookupView::Name(name@),
            EntityLookup::Sha256(digest) => LookupView::Sha256(digest@),
        }
    }
}

/// What a text refers to.  `SHA256:<digest>`, with a digest that is not
/// empty and holds no `:`, is a fingerprint; a text without `:` is a name;
/// any other text refers to nothing.
pub open spec fn parse_lookup(s: Seq<char>) -> Option<LookupView> {
    let colon = Separator::Char(':');
    let i = find(s, colon);
    if i >= s.len() {
        Some(LookupView::Name(s))
    } else {
        let digest = s.skip(i + 1);
        if s.take(i) == "SHA256"@ && digest.len() > 0 && find(digest, colon) >= digest.len() {
            Some(LookupView::Sha256(s))
        } else {
            None
        }
    }
}

impl EntityLookup {
    /// Reads a reference to an entity; see [`parse_lookup`].  Fails with
    /// `EntityLookup`, holding the text, exactly when the text refers to
    /// nothing.
    pub fn from_str(s: &str) -> (res: Result<EntityLookup, LoungeError>)
        ensures
            res is Ok <==> parse_lookup(s@) is Some,
            res matches Ok(lookup) ==> parse_lookup(s@) == Some(lookup@),
            res matches Err(e) ==> e matches LoungeError::EntityLookup(text) && text@ == s@,
    {
        let colon = Separator::Char(':');
        let chars = to_chars(s);
        let mut i: usize = 0;
        while i < chars.len() && chars[i] != ':'
            invariant
                i <= chars.len(),
                colon == Separator::Char(':'),
                forall|j: int| 0 <= j < i ==> !colon.matches(#[trigger] chars@[j]),
            decreases chars.len() - i,
        {
            i += 1;
        }
        proof {
            lemma_find_unique(chars@, colon, i as int);
        }
        if i >= chars.len() {
            return Ok(EntityLookup::Name(String::from_str(s)));
        }
        let prefix = from_chars(&chars, 0, i);
        assert(prefix@ == chars@.take(i as int));
        let ghost digest = chars@.skip(i + 1);
        let mut j: usize = i + 1;
        while j < chars.len() && chars[j] != ':'
            invariant
                i < j <= chars.len(),
                colon == Separator::Char(':'),
                digest == chars@.skip(i + 1),
                forall|k: int| 0 <= k < j - i - 1 ==> !colon.matches(#[trigger] digest[k]),
            decreases chars.len() - j,
        {
            j += 1;
        }
        proof {
            lemma_find_unique(digest, colon, j - i - 1);
        }
        if str_eq(prefix.as_str(), "SHA256") && i + 1 < chars.len() && j >= chars.len() {
            Ok(EntityLookup::Sha256(String::from_str(s)))
        } else {
            Err(LoungeError::EntityLookup(String::from_str(s)))
        }
    }

    /// Whether the reference is to `entity`; see [`LookupView::matches`].
    pub fn matches(&self, entity: &Entity) -> (b: bool)
        ensures
            b == self@.matches(entity@),
    {
        match self {
            EntityLookup::Name(name) => str_eq(entity.name().as_str(), name.as_str()),
            EntityLookup::Sha256(digest) => str_eq(
                entity.fingerprint().as_str(),
                digest.as_str(),
            ),
        }
    }
}

} // verus!
