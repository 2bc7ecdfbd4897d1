//! Identities: roles, personas and entities, and how a line of the
//! authorization file names one.

use vstd::prelude::*;
use vstd::string::StringExecFns;
use crate::keys::{decode_openssh, openssh_decoded, sha256_fingerprint, PublicKey, PublicKeyView};
use crate::text::{chain, from_chars, rfind, lemma_rfind_unique, str_eq, to_chars, push_char, Separator};

verus! {

/// The privilege level of an identity.
#[derive(Clone, Copy, Debug, PartialEq, Eq, Structural)]
pub enum Role {
    Admin,
    Normal,
}

impl Role {
    /// The word for the role: `admin` or `normal`.
    pub open spec fn label(self) -> Seq<char> {
        match self {
            Role::Admin => "admin"@,
            Role::Normal => "normal"@,
        }
    }

    /// The word for the role, as text.
    pub fn to_string(&self) -> (text: String)
        ensures
            text@ == self.label(),
    {
        match self {
            Role::Admin => String::from_str("admin"),
            Role::Normal => String::from_str("normal"),
        }
    }
}

/// Whether `c` may occur in a name: an ASCII letter or digit, or one of
/// `@`, `_`, `-`, `.`.
pub open spec fn is_name_char(c: char) -> bool {
    ||| 'a' <= c <= 'z'
    ||| 'A' <= c <= 'Z'
    ||| '0' <= c <= '9'
    ||| c == '@'
    ||| c == '_'
    ||| c == '-'
    ||| c == '.'
}

/// `s` without the characters that may not occur in a name.
pub open spec fn sanitize(s: Seq<char>) -> Seq<char> {
    s.filter(|c: char| is_name_char(c))
}

/// Whether every character of `s` may occur in a name.
pub open spec fn is_sanitized(s: Seq<char>) -> bool {
    forall|i: int| 0 <= i < s.len() ==> is_name_char(#[trigger] s[i])
}

fn name_char(c: char) -> (b: bool)
    ensures
        b == is_name_char(c),
{
    ('a' <= c && c <= 'z') || ('A' <= c && c <= 'Z') || ('0' <= c && c <= '9') || c == '@' || c
        == '_' || c == '-' || c == '.'
}

/// Drops from `s` every character that may not occur in a name.
pub fn sanitize_name(s: &str) -> (name: String)
    ensures
        name@ == sanitize(s@),
        is_sanitized(name@),
{
    let chars = to_chars(s);
    let mut name = String::new();
    let mut i: usize = 0;
    proof {
        reveal(Seq::filter);
        assert(chars@.take(0) =~= Seq::<char>::empty());
    }
    while i < chars.len()
        invariant
            i <= chars.len(),
            chars@ == s@,
            name@ == sanitize(chars@.take(i as int)),
            is_sanitized(name@),
        decreases chars.len() - i,
    {
        let c = chars[i];
        proof {
            reveal(Seq::filter);
            assert(chars@.take(i + 1).drop_last() == chars@.take(i as int));
            assert(chars@.take(i + 1).last() == c);
        }
        if name_char(c) {
            push_char(&mut name, c);
        }
        i += 1;
    }
    assert(chars@.take(chars.len() as int) == chars@);
    name
}

/// The display identity of an entity: a name and a role.
#[derive(Debug, PartialEq, Eq)]
pub struct Persona {
    name: String,
    role: Role,
}

/// The mathematical content of a [`Persona`].
pub struct PersonaView {
    pub name: Seq<char>,
    pub role: Role,
}

impl PersonaView {
    /// `[<name> <role>]`
    pub open spec fn title(self) -> Seq<char> {
        "["@ + self.name + " "@ + self.role.label() + "]"@
    }

    /// The comment that stands for the persona in the authorization file:
    /// the name, followed by `:admin` for an admin.
    pub open spec fn comment(self) -> Seq<char> {
        match self.role {
            Role::Admin => self.name + ":admin"@,
            Role::Normal => self.name,
        }
    }
}

impl View for Persona {
    type V = PersonaView;

    closed spec fn view(&self) -> PersonaView {
        PersonaView { name: self.name@, role: self.role }
    }
}

impl Clone for Persona {
    fn clone(&self) -> (res: Self)
        ensures
            res@ == self@,
    {
        proof {
            use_type_invariant(self);
        }
        Persona { name: self.name.clone(), role: self.role }
    }
}

/// The persona that a key's comment stands for.  The comment is split at
/// its last `:`; what follows must be `admin`.  Without a `:` the whole
/// comment is the name of a normal user.  `None` where another word follows
/// the last `:`.
pub open spec fn parse_comment(comment: Seq<char>) -> Option<PersonaView> {
    let i = rfind(comment, Separator::Char(':'));
    if i < 0 {
        Some(PersonaView { name: sanitize(comment), role: Role::Normal })
    } else if comment.skip(i + 1) == "admin"@ {
        Some(PersonaView { name: sanitize(comment.take(i)), role: Role::Admin })
    } else {
        None
    }
}

impl Persona {
    /// What holds of every persona: its name is sanitized.
    #[verifier::type_invariant]
    pub closed spec fn sanitized(&self) -> bool {
        is_sanitized(self.name@)
    }

    /// A persona whose name is sanitized has a view whose name is.
    pub proof fn lemma_sanitized(&self)
        requires
            self.sanitized(),
        ensures
            is_sanitized(self@.name),
    {
    }

    /// A persona with the sanitized form of `name`.
    pub fn new(name: &str, role: Role) -> (res: Persona)
        ensures
            res@ == (PersonaView { name: sanitize(name@), role }),
            is_sanitized(res@.name),
    {
        Persona { name: sanitize_name(name), role }
    }

    /// Reads a persona from a key's comment; see [`parse_comment`].
    pub fn from_comment(comment: &str) -> (res: Option<Persona>)
        ensures
            res is Some <==> parse_comment(comment@) is Some,
            res matches Some(p) ==> parse_comment(comment@) == Some(p@) && is_sanitized(p@.name),
    {
        let sep = Separator::Char(':');
        let chars = to_chars(comment);
        let mut i: usize = chars.len();
        while i > 0 && chars[i - 1] != ':'
            invariant
                i <= chars.len(),
                sep == Separator::Char(':'),
                forall|j: int| i <= j < chars.len() ==> !sep.matches(#[trigger] chars@[j]),
            decreases i,
        {
            i -= 1;
        }
        proof {
            lemma_rfind_unique(chars@, sep, i - 1);
        }
        if i == 0 {
            Some(Persona::new(comment, Role::Normal))
        } else {
            let suffix = from_chars(&chars, i, chars.len());
            assert(suffix@ == chars@.skip(i as int));
            if str_eq(suffix.as_str(), "admin") {
                let prefix = from_chars(&chars, 0, i - 1);
                assert(prefix@ == chars@.take(i - 1));
                Some(Persona::new(prefix.as_str(), Role::Admin))
            } else {
                None
            }
        }
    }

    /// `[<name> <role>]`
    pub fn title(&self) -> (text: String)
        ensures
            text@ == self@.title(),
    {
        let mut text = chain("[", self.name.as_str());
        text.append(" ");
        text.append(self.role.to_string().as_str());
        text.append("]");
        text
    }

    /// The name, which is sanitized.
    pub fn name(&self) -> (name: String)
        ensures
            name@ == self@.name,
            is_sanitized(name@),
    {
        proof {
            use_type_invariant(self);
        }
        self.name.clone()
    }

    /// The role.
    pub fn role(&self) -> (role: Role)
        ensures
            role == self@.role,
    {
        self.role
    }

    /// The comment that stands for the persona; see [`PersonaView::comment`].
    pub fn comment(&self) -> (text: String)
        ensures
            text@ == self@.comment(),
    {
        match self.role {
            Role::Admin => chain(self.name.as_str(), ":admin"),
            Role::Normal => self.name.clone(),
        }
    }
}

/// Why a line does not name an entity.
#[derive(Debug)]
pub enum EntityError {
    /// The line is no public key in OpenSSH format.
    PublicKeyParsing(russh::keys::ssh_key::Error),
    /// The comment names a role other than `admin`; holds the comment.
    InvalidRole(String),
}

impl EntityError {
    /// The text that describes the error.
    pub open spec fn message_spec(self) -> Seq<char> {
        match self {
            EntityError::PublicKeyParsing(_) => "failed to parse public key"@,
            EntityError::InvalidRole(comment) => "invalid role specified in authorization file at line: "@
                + comment@,
        }
    }

    /// The text that describes the error.
    pub fn message(&self) -> (text: String)
        ensures
            text@ == self.message_spec(),
    {
        match self {
            EntityError::PublicKeyParsing(_) => String::from_str("failed to parse public key"),
            EntityError::InvalidRole(comment) => chain(
                "invalid role specified in authorization file at line: ",
                comment.as_str(),
            ),
        }
    }
}

/// An authorized identity: a persona and the public key that proves it.
/// The key never changes; the persona may.  Of the key the entity keeps the
/// key material and the fingerprint; the comment that came with the key is
/// read once, for the persona.
#[derive(Debug, PartialEq, Eq)]
pub struct Entity {
    persona: Persona,
    key_data: Vec<u8>,
    fingerprint: String,
}

/// The mathematical content of an [`Entity`].
pub struct EntityView {
    pub persona: PersonaView,
    /// Canonical binary key material: the identity of the entity.
    pub key_data: Seq<u8>,
    /// SHA-256 fingerprint of the key in its text form.
    pub fingerprint: Seq<char>,
}

impl EntityView {
    /// The entity's key, with the persona's comment.
    pub open spec fn pubkey(self) -> PublicKeyView {
        PublicKeyView {
            key_data: self.key_data,
            fingerprint: self.fingerprint,
            comment: self.persona.comment(),
        }
    }
}

impl View for Entity {
    type V = EntityView;

    closed spec fn view(&self) -> EntityView {
        EntityView {
            persona: self.persona@,
            key_data: self.key_data@,
            fingerprint: self.fingerprint@,
        }
    }
}

impl Clone for Entity {
    fn clone(&self) -> (res: Self)
        ensures
            res@ == self@,
    {
        proof {
            use_type_invariant(self);
        }
        Entity {
            persona: self.persona.clone(),
            key_data: self.key_data.clone(),
            fingerprint: self.fingerprint.clone(),
        }
    }
}

/// The contents of a sequence of entities.
pub open spec fn entity_views(entities: Seq<Entity>) -> Seq<EntityView> {
    entities.map_values(|e: Entity| e@)
}

/// The entity that a decoded key stands for, if its comment names a
/// persona.
pub open spec fn entity_of_key(key: PublicKeyView) -> Option<EntityView> {
    match parse_comment(key.comment) {
        Some(persona) => Some(
            EntityView { persona, key_data: key.key_data, fingerprint: key.fingerprint },
        ),
        None => None,
    }
}

/// The entity that a line of the authorization file stands for, or `None`
/// where the line is rejected.
pub open spec fn parse_entity(line: Seq<char>) -> Option<EntityView> {
    match openssh_decoded(line) {
        Some((key_data, comment)) => entity_of_key(
            PublicKeyView { key_data, fingerprint: sha256_fingerprint(key_data), comment },
        ),
        None => None,
    }
}

impl Entity {
    /// What holds of every entity: the name of its persona is sanitized.
    #[verifier::type_invariant]
    pub closed spec fn sanitized(&self) -> bool {
        is_sanitized(self.persona.name@)
    }

    /// An entity whose name is sanitized has a view whose name is.
    pub proof fn lemma_sanitized(&self)
        requires
            self.sanitized(),
        ensures
            is_sanitized(self@.persona.name),
    {
    }

    /// The entity that a decoded key stands for.  Fails with `InvalidRole`,
    /// holding the comment, exactly when the comment names no persona.
    pub fn from_key(key: PublicKey) -> (res: Result<Entity, EntityError>)
        ensures
            res is Ok <==> entity_of_key(key@) is Some,
            res matches Ok(entity) ==> entity_of_key(key@) == Some(entity@) && is_sanitized(
                entity@.persona.name,
            ),
            res matches Err(e) ==> e matches EntityError::InvalidRole(comment) && comment@
                == key@.comment,
    {
        match Persona::from_comment(key.comment()) {
            Some(persona) => Ok(
                Entity {
                    persona,
                    key_data: key.key_data().clone(),
                    fingerprint: String::from_str(key.fingerprint()),
                },
            ),
            None => Err(EntityError::InvalidRole(String::from_str(key.comment()))),
        }
    }

    /// Reads an entity from one line of the authorization file: a public
    /// key in OpenSSH format whose comment is `<name>` or `<name>:admin`.
    /// Fails with `PublicKeyParsing` exactly when the key does not decode,
    /// and with `InvalidRole` exactly when it does and its comment names no
    /// persona.
    pub fn from_str(s: &str) -> (res: Result<Entity, EntityError>)
        ensures
            res is Ok <==> parse_entity(s@) is Some,
            res matches Ok(entity) ==> parse_entity(s@) == Some(entity@) && is_sanitized(
                entity@.persona.name,
            ),
            (res is Err && res->Err_0 is PublicKeyParsing) <==> openssh_decoded(s@) is None,
            res matches Err(EntityError::InvalidRole(comment)) ==> openssh_decoded(s@) matches Some(
                (_, c),
            ) && comment@ == c,
    {
        match decode_openssh(s) {
            Ok(key) => Entity::from_key(key),
            Err(e) => Err(EntityError::PublicKeyParsing(e)),
        }
    }

    /// Gives the entity the role `role`.
    pub fn set_role(&mut self, role: Role)
        ensures
            final(self)@ == (EntityView {
                persona: PersonaView { role, ..old(self)@.persona },
                ..old(self)@
            }),
    {
        proof {
            use_type_invariant(&*self);
        }
        self.persona.role = role;
    }

    /// Gives the entity the sanitized form of `name`.
    pub fn set_name(&mut self, name: &str)
        ensures
            final(self)@ == (EntityView {
                persona: PersonaView { name: sanitize(name@), ..old(self)@.persona },
                ..old(self)@
            }),
            is_sanitized(final(self)@.persona.name),
    {
        self.persona.name = sanitize_name(name);
    }

    /// The entity's key, with the persona's comment.
    pub fn to_pubkey(&self) -> (key: PublicKey)
        ensures
            key@ == self@.pubkey(),
    {
        PublicKey::new(self.key_data.clone(), self.fingerprint.clone(), self.persona.comment())
    }

    /// The name of the persona, which is sanitized.
    pub fn name(&self) -> (name: String)
        ensures
            name@ == self@.persona.name,
            is_sanitized(name@),
    {
        proof {
            use_type_invariant(self);
        }
        self.persona.name()
    }

    /// The role of the persona.
    pub fn role(&self) -> (role: Role)
        ensures
            role == self@.persona.role,
    {
        self.persona.role()
    }

    /// The title of the persona: `[<name> <role>]`.
    pub fn title(&self) -> (text: String)
        ensures
            text@ == self@.persona.title(),
    {
        self.persona.title()
    }

    /// The key material: what tells this entity's key from any other.
    pub fn key_data(&self) -> (key_data: Vec<u8>)
        ensures
            key_data@ == self@.key_data,
    {
        self.key_data.clone()
    }

    /// The SHA-256 fingerprint of the key in its text form.
    pub fn fingerprint(&self) -> (text: String)
        ensures
            text@ == self@.fingerprint,
    {
        self.fingerprint.clone()
    }

    /// A copy of the persona as it is now.
    pub fn persona(&self) -> (persona: Persona)
        ensures
            persona@ == self@.persona,
    {
        self.persona.clone()
    }
}

} // verus!
