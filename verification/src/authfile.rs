//! The authorization file: one entity per line, each line a public key in
//! OpenSSH format whose comment names the persona.

use vstd::prelude::*;
use vstd::string::StringExecFns;
use crate::entity::{
    entity_views, is_sanitized, parse_entity, Entity, EntityError, EntityView,
};
use crate::keymap::KeySet;
use crate::keys::{decode_openssh, openssh_decoded, openssh_encoded};
use crate::text::{
    bytes_eq, chain, is_single_line, join, join_text, lines, single_line, split_lines, str_eq,
    views,
};

verus! {

/// `std::io::Error`, the error of a file that could not be read.  Nothing
/// is known of its values.
#[verifier::external_type_specification]
#[verifier::external_body]
pub struct ExIoError(std::io::Error);

/// Why an authorization file could not be loaded.
#[derive(Debug)]
pub enum AuthfileError {
    /// The file could not be read.
    FileNotReadable(std::io::Error),
    /// A line does not name an entity.
    PublicKeyParsing(EntityError),
}

impl AuthfileError {
    /// The text that describes the error.
    pub open spec fn message_spec(self) -> Seq<char> {
        match self {
            AuthfileError::FileNotReadable(_) => "unable to read authorization file"@,
            AuthfileError::PublicKeyParsing(e) => "failed to parse entity: "@ + e.message_spec(),
        }
    }

    /// The text that describes the error.
    pub fn message(&self) -> (text: String)
        ensures
            text@ == self.message_spec(),
    {
        match self {
            AuthfileError::FileNotReadable(_) => String::from_str(
                "unable to read authorization file",
            ),
            AuthfileError::PublicKeyParsing(e) => chain(
                "failed to parse entity: ",
                e.message().as_str(),
            ),
        }
    }
}

/// The key material of the given entities, as a set.
pub open spec fn key_pool_of(entities: Seq<EntityView>) -> Set<Seq<u8>> {
    Set::new(
        |k: Seq<u8>| exists|i: int| 0 <= i < entities.len() && #[trigger] entities[i].key_data == k,
    )
}

/// Index of the first line that names no entity, or the number of lines if
/// every line names one.
pub open spec fn first_rejected(lines: Seq<Seq<char>>) -> int
    decreases lines.len(),
{
    if lines.len() == 0 {
        0
    } else if parse_entity(lines[0]) is None {
        0
    } else {
        1 + first_rejected(lines.drop_first())
    }
}

/// The entities that the lines name, in order, or `None` where a line names
/// none.
pub open spec fn parse_lines(lines: Seq<Seq<char>>) -> Option<Seq<EntityView>> {
    if first_rejected(lines) >= lines.len() {
        Some(Seq::new(lines.len(), |i: int| parse_entity(lines[i])->0))
    } else {
        None
    }
}

/// The entities of an authorization file with the given contents.
pub open spec fn parse_authfile(contents: Seq<char>) -> Option<Seq<EntityView>> {
    parse_lines(lines(contents))
}

/// `first_rejected` is within bounds, every line before it names an
/// entity, and the line at it does not.
pub proof fn lemma_first_rejected(lines: Seq<Seq<char>>)
    ensures
        0 <= first_rejected(lines) <= lines.len(),
        forall|j: int| 0 <= j < first_rejected(lines) ==> parse_entity(#[trigger] lines[j]) is Some,
        first_rejected(lines) < lines.len() ==> parse_entity(lines[first_rejected(lines)]) is None,
    decreases lines.len(),
{
    if lines.len() > 0 && parse_entity(lines[0]) is Some {
        let rest = lines.drop_first();
        lemma_first_rejected(rest);
        assert forall|j: int| 0 <= j < first_rejected(lines) implies parse_entity(
            #[trigger] lines[j],
        ) is Some by {
            if j > 0 {
                assert(lines[j] == rest[j - 1]);
            }
        }
        if first_rejected(lines) < lines.len() {
            assert(lines[first_rejected(lines)] == rest[first_rejected(rest)]);
        }
    }
}

/// If every line before `i` names an entity and line `i` does not (or `i`
/// is the number of lines), then `first_rejected` is `i`.
pub proof fn lemma_first_rejected_unique(lines: Seq<Seq<char>>, i: int)
    requires
        0 <= i <= lines.len(),
        forall|j: int| 0 <= j < i ==> parse_entity(#[trigger] lines[j]) is Some,
        i < lines.len() ==> parse_entity(lines[i]) is None,
    ensures
        first_rejected(lines) == i,
{
    lemma_first_rejected(lines);
    let f = first_rejected(lines);
    if f < i {
        assert(parse_entity(lines[f]) is None);
    } else if f > i {
        assert(parse_entity(lines[i]) is Some);
    }
}

/// A loaded authorization file: the entities in file order, and the set of
/// their key material.
#[derive(Debug)]
pub struct AuthFile {
    entities: Vec<Entity>,
    key_pool: KeySet,
}

/// The mathematical content of an [`AuthFile`].
pub struct AuthFileView {
    pub entities: Seq<EntityView>,
    pub key_pool: Set<Seq<u8>>,
}

impl AuthFileView {
    /// The key pool is the key material of the entities, and every entity
    /// has a sanitized name.
    pub open spec fn wf(self) -> bool {
        &&& self.key_pool == key_pool_of(self.entities)
        &&& forall|i: int|
            0 <= i < self.entities.len() ==> is_sanitized(
                (#[trigger] self.entities[i]).persona.name,
            )
    }
}

impl View for AuthFile {
    type V = AuthFileView;

    closed spec fn view(&self) -> AuthFileView {
        AuthFileView { entities: entity_views(self.entities@), key_pool: self.key_pool.dom() }
    }
}

impl AuthFile {
    /// The key pool holds the key material of the entities and nothing
    /// else, and every entity has a sanitized name.
    pub closed spec fn wf(&self) -> bool {
        &&& self.key_pool.wf()
        &&& self@.wf()
    }

    /// A well-formed file has well-formed contents.
    pub proof fn lemma_wf(&self)
        requires
            self.wf(),
        ensures
            self@.wf(),
    {
    }

    /// The authorization file that holds the given entities, in order.
    pub fn from_entities(entities: Vec<Entity>) -> (file: AuthFile)
        ensures
            file.wf(),
            file@.wf(),
            file@.entities == entity_views(entities@),
    {
        let mut key_pool = KeySet::new();
        let mut i: usize = 0;
        assert(key_pool.dom() =~= key_pool_of(entity_views(entities@).take(0)));
        while i < entities.len()
            invariant
                i <= entities.len(),
                key_pool.wf(),
                key_pool.dom() == key_pool_of(entity_views(entities@).take(i as int)),
                forall|j: int|
                    0 <= j < i ==> is_sanitized((#[trigger] entity_views(entities@)[j]).persona.name),
            decreases entities.len() - i,
        {
            let ghost before = key_pool.dom();
            let entity = &entities[i];
            proof {
                use_type_invariant(entity);
                entity.lemma_sanitized();
            }
            let key_data = entity.key_data();
            key_pool.insert(key_data, ());
            proof {
                let all = entity_views(entities@);
                let k = all[i as int].key_data;
                assert forall|x: Seq<u8>|
                    key_pool_of(all.take(i + 1)).contains(x) <==> #[trigger] before.insert(
                        k,
                    ).contains(x) by {
                    if key_pool_of(all.take(i + 1)).contains(x) {
                        let j = choose|j: int|
                            0 <= j < i + 1 && #[trigger] all.take(i + 1)[j].key_data == x;
                        if j < i {
                            assert(all.take(i as int)[j].key_data == x);
                        }
                    }
                    if before.contains(x) {
                        let j = choose|j: int|
                            0 <= j < i && #[trigger] all.take(i as int)[j].key_data == x;
                        assert(all.take(i + 1)[j].key_data == x);
                    }
                    if x == k {
                        assert(all.take(i + 1)[i as int].key_data == x);
                    }
                }
                assert(key_pool.dom() =~= key_pool_of(all.take(i + 1)));
            }
            i += 1;
        }
        assert(entity_views(entities@).take(entities.len() as int) == entity_views(entities@));
        AuthFile { entities, key_pool }
    }

    /// The entities in file order.
    pub fn entities(&self) -> (entities: &Vec<Entity>)
        ensures
            entity_views(entities@) == self@.entities,
    {
        &self.entities
    }

    /// The set of the entities' key material.
    pub fn key_pool(&self) -> (key_pool: &KeySet)
        ensures
            key_pool.dom() == self@.key_pool,
            self.wf() ==> key_pool.wf(),
    {
        &self.key_pool
    }

    /// Takes the file apart into its entities and its key pool.
    pub fn into_parts(self) -> (parts: (Vec<Entity>, KeySet))
        ensures
            entity_views(parts.0@) == self@.entities,
            parts.1.dom() == self@.key_pool,
            self.wf() ==> parts.1.wf(),
    {
        (self.entities, self.key_pool)
    }
}

/// Loads an authorization file from its contents.  Every line must name an
/// entity; an empty line does not.  The file is rejected at its first line
/// that names none, with that line's error.
pub fn read(contents: &str) -> (res: Result<AuthFile, AuthfileError>)
    ensures
        res is Ok <==> parse_authfile(contents@) is Some,
        res matches Ok(file) ==> {
            &&& file.wf()
            &&& file@.wf()
            &&& Some(file@.entities) == parse_authfile(contents@)
        },
        res matches Err(e) ==> {
            let line = lines(contents@)[first_rejected(lines(contents@))];
            &&& e matches AuthfileError::PublicKeyParsing(inner)
            &&& (inner is PublicKeyParsing <==> openssh_decoded(line) is None)
            &&& (inner matches EntityError::InvalidRole(comment) ==> openssh_decoded(
                line,
            ) matches Some((_, c)) && comment@ == c)
        },
{
    let parts = split_lines(contents);
    let mut entities: Vec<Entity> = Vec::new();
    let mut i: usize = 0;
    while i < parts.len()
        invariant
            i <= parts.len(),
            views(parts@) == lines(contents@),
            entities@.len() == i,
            forall|j: int|
                0 <= j < i ==> parse_entity(#[trigger] views(parts@)[j]) == Some(entities@[j]@),
        decreases parts.len() - i,
    {
        match Entity::from_str(parts[i].as_str()) {
            Ok(entity) => {
                entities.push(entity);
            },
            Err(inner) => {
                proof {
                    lemma_first_rejected_unique(views(parts@), i as int);
                }
                return Err(AuthfileError::PublicKeyParsing(inner));
            },
        }
        i += 1;
    }
    proof {
        lemma_first_rejected_unique(views(parts@), parts.len() as int);
        assert(entity_views(entities@) =~= parse_lines(views(parts@))->0);
    }
    Ok(AuthFile::from_entities(entities))
}

/// Whether `line` reads back as `entity`: it is one line of a file, and it
/// decodes to the entity's key material with the comment of its persona.
pub open spec fn reads_back(line: Seq<char>, entity: EntityView) -> bool {
    is_single_line(line) && openssh_decoded(line) == Some(
        (entity.key_data, entity.persona.comment()),
    )
}

/// The line that stands for an entity in the authorization file: its key
/// in OpenSSH format, with the persona's comment.  `None` where the encoder
/// cannot write the line, or writes one that does not read back as the
/// entity.
pub open spec fn entity_line(entity: EntityView) -> Option<Seq<char>> {
    match openssh_encoded(entity.key_data, entity.persona.comment()) {
        Some(line) => if reads_back(line, entity) {
            Some(line)
        } else {
            None
        },
        None => None,
    }
}

/// Writes the line that stands for `entity`; see [`entity_line`].  The
/// line is decoded again before it is handed out, so that nothing is
/// written that would not be read back.
pub fn write_line(entity: &Entity) -> (res: Option<String>)
    ensures
        res is Some <==> entity_line(entity@) is Some,
        res matches Some(line) ==> Some(line@) == entity_line(entity@),
{
    let key = entity.to_pubkey();
    let line = match key.to_openssh() {
        Some(line) => line,
        None => {
            return None;
        },
    };
    if !single_line(line.as_str()) {
        return None;
    }
    match decode_openssh(line.as_str()) {
        Ok(read) => {
            if bytes_eq(read.key_data(), key.key_data()) && str_eq(read.comment(), key.comment()) {
                Some(line)
            } else {
                None
            }
        },
        Err(_) => None,
    }
}

/// Index of the first entity that has no line, or the number of entities if
/// each has one.
pub open spec fn first_unwritable(entities: Seq<EntityView>) -> int
    decreases entities.len(),
{
    if entities.len() == 0 {
        0
    } else if entity_line(entities[0]) is None {
        0
    } else {
        1 + first_unwritable(entities.drop_first())
    }
}

/// The contents of the authorization file that holds the given entities:
/// one line each, in order, with a newline between neighbours.  `None`
/// where an entity has no line.
pub open spec fn serialized(entities: Seq<EntityView>) -> Option<Seq<char>> {
    if first_unwritable(entities) >= entities.len() {
        Some(join(Seq::new(entities.len(), |i: int| entity_line(entities[i])->0), "\n"@))
    } else {
        None
    }
}

/// Whether `contents` reads as entities with the personas and the key
/// material of `entities`, in the same order.
pub open spec fn reads_back_as(contents: Seq<char>, entities: Seq<EntityView>) -> bool {
    &&& parse_authfile(contents) matches Some(again)
    &&& again.len() == entities.len()
    &&& forall|i: int|
        0 <= i < entities.len() ==> (#[trigger] again[i]).persona == entities[i].persona
            && again[i].key_data == entities[i].key_data
}

/// `first_unwritable` is within bounds, every entity before it has a line,
/// and the entity at it has none.
pub proof fn lemma_first_unwritable(entities: Seq<EntityView>)
    ensures
        0 <= first_unwritable(entities) <= entities.len(),
        forall|j: int|
            0 <= j < first_unwritable(entities) ==> entity_line(#[trigger] entities[j]) is Some,
        first_unwritable(entities) < entities.len() ==> entity_line(
            entities[first_unwritable(entities)],
        ) is None,
    decreases entities.len(),
{
    if entities.len() > 0 && entity_line(entities[0]) is Some {
        let rest = entities.drop_first();
        lemma_first_unwritable(rest);
        assert forall|j: int| 0 <= j < first_unwritable(entities) implies entity_line(
            #[trigger] entities[j],
        ) is Some by {
            if j > 0 {
                assert(entities[j] == rest[j - 1]);
            }
        }
        if first_unwritable(entities) < entities.len() {
            assert(entities[first_unwritable(entities)] == rest[first_unwritable(rest)]);
        }
    }
}

/// Writes the contents of the authorization file that holds the given
/// entities; see [`serialized`].  What is written reads back as the same
/// entities.
pub fn serialize(entities: &Vec<Entity>) -> (res: Option<String>)
    ensures
        res is Some <==> serialized(entity_views(entities@)) is Some,
        res matches Some(text) ==> Some(text@) == serialized(entity_views(entities@))
            && reads_back_as(text@, entity_views(entities@)),
{
    let ghost all = entity_views(entities@);
    let mut written: Vec<String> = Vec::new();
    let mut i: usize = 0;
    while i < entities.len()
        invariant
            i <= entities.len(),
            all == entity_views(entities@),
            written@.len() == i,
            forall|j: int| 0 <= j < i ==> entity_line(#[trigger] all[j]) == Some(written@[j]@),
            forall|j: int| 0 <= j < i ==> is_sanitized((#[trigger] all[j]).persona.name),
        decreases entities.len() - i,
    {
        let entity = &entities[i];
        proof {
            use_type_invariant(entity);
            entity.lemma_sanitized();
        }
        match write_line(entity) {
            Some(line) => {
                written.push(line);
            },
            None => {
                proof {
                    lemma_first_unwritable(all);
                    let f = first_unwritable(all);
                    if f > i {
                        assert(entity_line(all[i as int]) is Some);
                    }
                }
                return None;
            },
        }
        i += 1;
    }
    proof {
        lemma_first_unwritable(all);
        let f = first_unwritable(all);
        if f < all.len() {
            assert(entity_line(all[f]) is Some);
        }
        assert(views(written@) =~= Seq::new(all.len(), |i: int| entity_line(all[i])->0));
        crate::laws::law_written_reads_back(all);
    }
    Some(join_text(&written, "\n"))
}

} // verus!
