//! What holds of the library as a whole.
//!
//! The steps of the server are those of [`ServerView`]; the lemmas in
//! [`crate::invariants`] show that each keeps the state well-formed.  The
//! laws here say what a well-formed state is good for, and how reading and
//! writing names, comments, lookups and authorization files fit together.

use vstd::prelude::*;
use crate::authfile::{
    entity_line,
    reads_back_as,
    key_pool_of,
    lemma_first_rejected,
    lemma_first_rejected_unique,
    lemma_first_unwritable,
    parse_authfile,
    serialized,
    AuthFileView,
};
use crate::command::CommandView;
use crate::entity::{
    is_name_char,
    is_sanitized,
    parse_comment,
    parse_entity,
    sanitize,
    EntityView,
    PersonaView,
    Role,
};
use crate::invariants::{
    lemma_add,
    lemma_auth_publickey,
    lemma_ban,
    lemma_channel_open_session,
    lemma_chat,
    lemma_info,
    lemma_reload,
    lemma_rename,
    lemma_report,
};
use crate::keys::{openssh_decoded, sha256_fingerprint};
use crate::lookup::{parse_lookup, LookupView};
use crate::message::MessageView;
use crate::model::{rejection, visible, ServerView};
use crate::command::{argument_of, parse_command, Parsed};
use crate::text::{
    is_single_line,
    join,
    lemma_find_unique,
    lemma_rfind_unique,
    lines,
    rfind,
    strip_cr,
    Separator,
};

verus! {

/// Sanitizing gives a text made of allowed characters only.
pub proof fn law_sanitize_closed(s: Seq<char>)
    ensures
        is_sanitized(sanitize(s)),
    decreases s.len(),
{
    reveal(Seq::filter);
    if s.len() > 0 {
        law_sanitize_closed(s.drop_last());
    }
}

/// A text made of allowed characters only is its own sanitized form.
pub proof fn law_sanitize_fixes_clean(s: Seq<char>)
    requires
        is_sanitized(s),
    ensures
        sanitize(s) == s,
    decreases s.len(),
{
    reveal(Seq::filter);
    if s.len() > 0 {
        let front = s.drop_last();
        assert forall|i: int| 0 <= i < front.len() implies is_name_char(#[trigger] front[i]) by {
            assert(front[i] == s[i]);
        }
        law_sanitize_fixes_clean(front);
        assert(is_name_char(s[s.len() - 1]));
        assert(front.push(s.last()) =~= s);
    }
}

/// Sanitizing twice is sanitizing once.
pub proof fn law_sanitize_idempotent(s: Seq<char>)
    ensures
        sanitize(sanitize(s)) == sanitize(s),
{
    law_sanitize_closed(s);
    law_sanitize_fixes_clean(sanitize(s));
}

/// A lookup by an entity's name refers to the entity, and so does a lookup
/// by its fingerprint.
pub proof fn law_lookup_finds_entity(entity: EntityView)
    ensures
        LookupView::Name(entity.persona.name).matches(entity),
        LookupView::Sha256(entity.fingerprint).matches(entity),
{
}

/// The name of an entity, once sanitized, reads as a lookup that refers to
/// the entity.
pub proof fn law_name_reads_as_lookup(entity: EntityView)
    requires
        is_sanitized(entity.persona.name),
    ensures
        parse_lookup(entity.persona.name) == Some(LookupView::Name(entity.persona.name)),
        parse_lookup(entity.persona.name)->0.matches(entity),
{
    let name = entity.persona.name;
    let colon = Separator::Char(':');
    assert forall|j: int| 0 <= j < name.len() implies !colon.matches(#[trigger] name[j]) by {
        assert(is_name_char(name[j]));
    }
    lemma_find_unique(name, colon, name.len() as int);
}

/// The comment written for a persona with a sanitized name reads as the
/// same persona.
pub proof fn law_comment_round_trip(persona: PersonaView)
    requires
        is_sanitized(persona.name),
    ensures
        parse_comment(persona.comment()) == Some(persona),
{
    let colon = Separator::Char(':');
    let name = persona.name;
    let comment = persona.comment();
    law_sanitize_fixes_clean(name);
    reveal_strlit(":admin");
    reveal_strlit("admin");
    match persona.role {
        Role::Normal => {
            assert forall|j: int| -1 < j < comment.len() implies !colon.matches(
                #[trigger] comment[j],
            ) by {
                assert(is_name_char(name[j]));
            }
            lemma_rfind_unique(comment, colon, -1);
        },
        Role::Admin => {
            let i = name.len() as int;
            assert(comment.len() == i + 6);
            assert(comment[i] == ':');
            assert forall|j: int| i < j < comment.len() implies !colon.matches(
                #[trigger] comment[j],
            ) by {
                assert(comment[j] == ":admin"@[j - i]);
            }
            lemma_rfind_unique(comment, colon, i);
            assert(comment.skip(i + 1) =~= "admin"@);
            assert(comment.take(i) =~= name);
        },
    }
}

/// Joining from the front: the first piece, a separator, and the rest
/// joined.
pub proof fn lemma_join_front(parts: Seq<Seq<char>>, sep: Seq<char>)
    requires
        parts.len() >= 2,
    ensures
        join(parts, sep) == parts[0] + sep + join(parts.drop_first(), sep),
    decreases parts.len(),
{
    if parts.len() == 2 {
        assert(parts.drop_last() =~= seq![parts[0]]);
        assert(parts.drop_first() =~= seq![parts[1]]);
        assert(join(parts.drop_last(), sep) == parts[0]);
        assert(join(parts.drop_first(), sep) == parts[1]);
    } else {
        let front = parts.drop_last();
        lemma_join_front(front, sep);
        assert(front.drop_first() =~= parts.drop_first().drop_last());
        assert(front[0] == parts[0]);
        assert(parts.drop_first().last() == parts.last());
        assert(join(parts.drop_first(), sep) == join(front.drop_first(), sep) + sep + parts.last());
        assert(join(parts, sep) =~= parts[0] + sep + join(parts.drop_first(), sep));
    }
}

/// Single lines, joined with line feeds, are the lines of the text that
/// the joining gives.
pub proof fn law_lines_of_joined(parts: Seq<Seq<char>>)
    requires
        forall|i: int| 0 <= i < parts.len() ==> is_single_line(#[trigger] parts[i]),
    ensures
        lines(join(parts, "\n"@)) == parts,
    decreases parts.len(),
{
    let sep = Separator::Char('\n');
    reveal_strlit("\n");
    if parts.len() == 0 {
    } else if parts.len() == 1 {
        let only = parts[0];
        assert(is_single_line(only));
        lemma_find_unique(only, sep, only.len() as int);
        assert(parts =~= seq![only]);
    } else {
        let first = parts[0];
        let rest = parts.drop_first();
        let text = join(parts, "\n"@);
        lemma_join_front(parts, "\n"@);
        assert(is_single_line(first));
        assert forall|i: int| 0 <= i < rest.len() implies is_single_line(#[trigger] rest[i]) by {
            assert(rest[i] == parts[i + 1]);
        }
        law_lines_of_joined(rest);
        let tail = join(rest, "\n"@);
        assert(text == first + "\n"@ + tail);
        assert forall|j: int| 0 <= j < first.len() implies !sep.matches(#[trigger] text[j]) by {
            assert(text[j] == first[j]);
        }
        assert(text[first.len() as int] == '\n');
        lemma_find_unique(text, sep, first.len() as int);
        assert(text.take(first.len() as int) =~= first);
        assert(text.skip(first.len() as int + 1) =~= tail);
        assert(first.last() == first[first.len() - 1]);
        assert(strip_cr(first) == first);
        assert(seq![first].add(rest) =~= parts);
    }
}

/// What was written for a sequence of entities with sanitized names reads
/// as entities with the same personas and key material, in the same order,
/// each with the fingerprint of its key material.
pub proof fn law_written_reads_back(entities: Seq<EntityView>)
    requires
        serialized(entities) is Some,
        forall|i: int| 0 <= i < entities.len() ==> is_sanitized((#[trigger] entities[i]).persona.name),
    ensures
        reads_back_as(serialized(entities)->0, entities),
        forall|i: int|
            0 <= i < entities.len() ==> (#[trigger] parse_authfile(
                serialized(entities)->0,
            )->0[i]).fingerprint == sha256_fingerprint(entities[i].key_data),
{
    lemma_first_unwritable(entities);
    let out = Seq::new(entities.len(), |i: int| entity_line(entities[i])->0);
    let written = serialized(entities)->0;
    assert forall|i: int| 0 <= i < out.len() implies is_single_line(#[trigger] out[i]) by {
        assert(entity_line(entities[i]) is Some);
    }
    law_lines_of_joined(out);
    assert(lines(written) == out);
    assert forall|i: int| 0 <= i < out.len() implies {
        &&& parse_entity(#[trigger] out[i]) matches Some(e)
        &&& e.persona == entities[i].persona
        &&& e.key_data == entities[i].key_data
        &&& e.fingerprint == sha256_fingerprint(entities[i].key_data)
    } by {
        assert(entity_line(entities[i]) is Some);
        law_comment_round_trip(entities[i].persona);
    }
    lemma_first_rejected_unique(out, out.len() as int);
}

/// The entity that a line names has a sanitized name, and the fingerprint
/// of its key material.
pub proof fn law_parsed_entity_is_clean(line: Seq<char>)
    requires
        parse_entity(line) is Some,
    ensures
        is_sanitized(parse_entity(line)->0.persona.name),
        parse_entity(line)->0.fingerprint == sha256_fingerprint(parse_entity(line)->0.key_data),
{
    let decoded = openssh_decoded(line)->0;
    let comment = decoded.1;
    let colon = rfind(comment, Separator::Char(':'));
    law_sanitize_closed(
        if colon < 0 {
            comment
        } else {
            comment.take(colon)
        },
    );
}

/// The entities that an authorization file names have sanitized names, and
/// fingerprints that are those of their key material.
pub proof fn law_read_entities_are_clean(contents: Seq<char>, i: int)
    requires
        parse_authfile(contents) matches Some(entities) && 0 <= i < entities.len(),
    ensures
        is_sanitized(parse_authfile(contents)->0[i].persona.name),
        parse_authfile(contents)->0[i].fingerprint == sha256_fingerprint(
            parse_authfile(contents)->0[i].key_data,
        ),
{
    let read = lines(contents);
    lemma_first_rejected(read);
    assert(parse_entity(read[i]) is Some);
    law_parsed_entity_is_clean(read[i]);
}

/// Reading an authorization file, writing what was read and reading that
/// again gives what the first reading gave.
pub proof fn law_authfile_round_trip(contents: Seq<char>)
    requires
        parse_authfile(contents) matches Some(entities) && serialized(entities) is Some,
    ensures
        parse_authfile(serialized(parse_authfile(contents)->0)->0) == parse_authfile(contents),
{
    let entities = parse_authfile(contents)->0;
    assert forall|i: int| 0 <= i < entities.len() implies is_sanitized(
        (#[trigger] entities[i]).persona.name,
    ) && entities[i].fingerprint == sha256_fingerprint(entities[i].key_data) by {
        law_read_entities_are_clean(contents, i);
    }
    law_written_reads_back(entities);
    assert(parse_authfile(serialized(entities)->0)->0 =~= entities);
}

/// A dossier is shown to nobody but the session that asked for it: to any
/// other session the history reads as it would without the dossier.
pub proof fn law_dossier_is_private(
    history: Seq<MessageView>,
    roster: Seq<EntityView>,
    viewer: usize,
    i: int,
)
    requires
        0 <= i < history.len(),
        history[i] matches MessageView::Dossier { requested_by, .. } && requested_by != viewer,
    ensures
        visible(history, roster, viewer) == visible(history.remove(i), roster, viewer),
    decreases history.len(),
{
    let front = history.drop_last();
    if i == history.len() - 1 {
        assert(history.remove(i) =~= front);
    } else {
        law_dossier_is_private(front, roster, viewer, i);
        let without = history.remove(i);
        assert(without.drop_last() =~= front.remove(i));
        assert(without.last() == history.last());
    }
}

/// The key pool never holds a key that the keychain does not hold.
pub proof fn law_key_pool_within_keychain(s: ServerView)
    requires
        s.wf(),
    ensures
        s.key_pool.subset_of(key_pool_of(s.entities())),
{
    assert forall|k: Seq<u8>| s.key_pool.contains(k) implies key_pool_of(s.entities()).contains(
        k,
    ) by {
        let slot = s.key_to_entity[k];
        let i = s.keychain.index_of(slot);
        assert(s.entities()[i].key_data == k);
    }
}

/// A command other than a ban, run in a state whose key pool is the key
/// material of the keychain, ends in such a state.
pub proof fn law_key_pool_is_keychain(s: ServerView, id: usize, command: CommandView)
    requires
        s.wf(),
        s.pool_matches_keychain(),
        command.wf(),
        s.run_command(id, command).roster.len() <= usize::MAX,
        !(command is Ban),
    ensures
        s.run_command(id, command).wf(),
        s.run_command(id, command).pool_matches_keychain(),
{
    match command {
        CommandView::Add(entity) => lemma_add(s, entity),
        CommandView::Rename { from, to } => lemma_rename(s, from, to),
        CommandView::Info(lookup) => lemma_info(s, id, lookup),
        _ => {},
    }
}

/// Where every session that is logged in has a client: every key with
/// sessions is in the pool, and each of its sessions has a client and is
/// logged in with that key.
pub proof fn law_sessions_by_key(s: ServerView, key: Seq<u8>, i: int)
    requires
        s.wf(),
        s.quiescent(),
        s.key_to_conns.contains_key(key),
        0 <= i < s.key_to_conns[key].len(),
    ensures
        s.key_pool.contains(key),
        s.clients.contains_key(s.key_to_conns[key][i]),
        s.conn_to_entity.contains_key(s.key_to_conns[key][i]),
        s.key_of_conn(s.key_to_conns[key][i]) == key,
{
    let id = s.key_to_conns[key][i];
    assert(s.conn_to_entity.contains_key(id));
    assert(s.conn_to_entity.dom().contains(id));
    assert(s.clients.dom().contains(id));
}

/// Every client is logged in, whatever the state.
pub proof fn law_clients_are_logged_in(s: ServerView)
    requires
        s.wf(),
    ensures
        s.clients.dom().subset_of(s.conn_to_entity.dom()),
{
}

/// A login followed by the opening of the session's channel leaves every
/// session that is logged in with a client, if that was so before.
pub proof fn law_login_then_open(s: ServerView, id: usize, key: Seq<u8>)
    requires
        s.wf(),
        s.quiescent(),
    ensures
        s.auth_publickey(id, key).channel_open_session(id).wf(),
        s.accepts(id, key) ==> s.auth_publickey(id, key).channel_open_session(id).quiescent(),
        !s.accepts(id, key) ==> s.auth_publickey(id, key) == s,
{
    let t = s.auth_publickey(id, key);
    lemma_auth_publickey(s, id, key);
    lemma_channel_open_session(t, id);
    if s.accepts(id, key) {
        let fresh = s.forget(id);
        crate::invariants::lemma_forget(s, id);
        assert(fresh.quiescent());
        assert(t.conn_to_entity.dom() =~= t.clients.dom().insert(id));
    }
}

/// A command keeps every session that is logged in with a client, if that
/// was so before.
pub proof fn law_commands_keep_clients(s: ServerView, id: usize, command: CommandView)
    requires
        s.wf(),
        s.quiescent(),
        command.wf(),
        s.run_command(id, command).roster.len() <= usize::MAX,
    ensures
        s.run_command(id, command).wf(),
        s.run_command(id, command).quiescent(),
{
    match command {
        CommandView::Add(entity) => lemma_add(s, entity),
        CommandView::Rename { from, to } => lemma_rename(s, from, to),
        CommandView::Info(lookup) => lemma_info(s, id, lookup),
        CommandView::Ban(lookup) => lemma_ban(s, id, lookup),
        _ => {},
    }
}

/// A line that a client sends keeps the state well-formed, and keeps every
/// session that is logged in with a client, if that was so before.
pub proof fn law_messages_keep_clients(s: ServerView, id: usize, text: Seq<char>)
    requires
        s.wf(),
        s.handle_message(id, text).roster.len() <= usize::MAX,
    ensures
        s.handle_message(id, text).wf(),
        s.quiescent() ==> s.handle_message(id, text).quiescent(),
{
    if s.clients.contains_key(id) && s.conn_to_entity.contains_key(id) {
        let persona = s.roster[s.conn_to_entity[id] as int].persona;
        let parsed = parse_command(text, persona.role == Role::Admin);
        match parsed {
            Parsed::Chat => lemma_chat(s, id, text),
            Parsed::Command(command) => {
                if command matches CommandView::Ban(lookup) && s.bans_self(id, lookup) {
                    lemma_report(s, id, "users cannot ban themselves"@);
                } else {
                    match command {
                        CommandView::Add(entity) => {
                            law_parsed_entity_is_clean(argument_of(text));
                            lemma_add(s, entity);
                        },
                        CommandView::Rename { from, to } => lemma_rename(s, from, to),
                        CommandView::Info(lookup) => lemma_info(s, id, lookup),
                        CommandView::Ban(lookup) => lemma_ban(s, id, lookup),
                        _ => {},
                    }
                }
            },
            refused => lemma_report(s, id, rejection(refused, text, persona.name)),
        }
    }
}

/// After a ban that took effect, the banned key is not in the pool, no
/// client is logged in with it, and the issuer is still a client.
pub proof fn law_ban_evicts(s: ServerView, id: usize, lookup: LookupView)
    requires
        s.wf(),
        s.ban_target(lookup) is Some,
        !s.bans_self(id, lookup),
    ensures
        !s.ban(id, lookup).key_pool.contains(s.ban_target(lookup)->0),
        forall|x: usize| #[trigger]
            s.ban(id, lookup).clients.contains_key(x) ==> s.ban(id, lookup).key_of_conn(x)
                != s.ban_target(lookup)->0,
        s.clients.contains_key(id) ==> s.ban(id, lookup).clients.contains_key(id),
{
    lemma_ban(s, id, lookup);
}

/// After a reload the key pool is the file's, and every client is logged
/// in with a key of the file.
pub proof fn law_reload_keeps_file_keys(s: ServerView, file: AuthFileView)
    requires
        s.wf(),
        file.wf(),
        s.reload(file).roster.len() <= usize::MAX,
    ensures
        s.reload(file).wf(),
        s.reload(file).key_pool == file.key_pool,
        s.reload(file).entities() == file.entities,
        s.reload(file).pool_matches_keychain(),
        forall|id: usize| #[trigger]
            s.reload(file).clients.contains_key(id) ==> file.key_pool.contains(
                s.reload(file).key_of_conn(id),
            ),
{
    lemma_reload(s, file);
}

} // verus!
