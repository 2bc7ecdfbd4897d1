//! What every step of the server keeps true.
//!
//! Each lemma takes a well-formed state and shows that the state after one
//! step of [`ServerView`] is well-formed again, together with what the step
//! is meant to achieve.

use vstd::prelude::*;
use crate::authfile::{key_pool_of, AuthFileView};
use crate::entity::{is_sanitized, EntityView};
use crate::lookup::LookupView;
use crate::message::{Announcement, MessageView};
use crate::model::{last_with_key, lemma_last_with_key, lemma_position, position, ServerView};
use crate::seqs::{lemma_without, without};

verus! {

/// Appending a message that refers to the roster keeps the state
/// well-formed.
pub proof fn lemma_enqueue(s: ServerView, message: MessageView)
    requires
        s.wf(),
        message.wf(s.roster.len()),
    ensures
        s.enqueue(message).wf(),
        s.quiescent() ==> s.enqueue(message).quiescent(),
        s.pool_matches_keychain() ==> s.enqueue(message).pool_matches_keychain(),
{
    let t = s.enqueue(message);
    assert forall|i: int| 0 <= i < t.app.history.len() implies (#[trigger] t.app.history[i]).wf(
        t.roster.len(),
    ) by {
        if s.app.history.len() < s.app.capacity {
            if i < s.app.history.len() {
                assert(t.app.history[i] == s.app.history[i]);
            }
        } else {
            if i < t.app.history.len() - 1 {
                assert(t.app.history[i] == s.app.history[i + 1]);
            }
        }
    }
    assert(t.entities() =~= s.entities());
}

/// Giving out an id keeps the state well-formed, and the id given out is
/// above every id in use.
pub proof fn lemma_new_client(s: ServerView)
    requires
        s.wf(),
    ensures
        s.new_client().wf(),
        forall|id: usize| #[trigger] s.conn_to_entity.contains_key(id) ==> id < s.next_id,
        forall|id: usize| #[trigger] s.clients.contains_key(id) ==> id < s.next_id,
        s.quiescent() ==> s.new_client().quiescent(),
        s.pool_matches_keychain() ==> s.new_client().pool_matches_keychain(),
{
    assert(s.new_client().entities() =~= s.entities());
}

/// Forgetting a session keeps the state well-formed, and the session is in
/// no index afterwards.
pub proof fn lemma_forget(s: ServerView, id: usize)
    requires
        s.wf(),
    ensures
        s.forget(id).wf(),
        !s.forget(id).conn_to_entity.contains_key(id),
        !s.forget(id).clients.contains_key(id),
        forall|k: Seq<u8>, i: int|
            s.forget(id).key_to_conns.contains_key(k) && 0 <= i < s.forget(id).key_to_conns[k].len()
                ==> #[trigger] s.forget(id).key_to_conns[k][i] != id,
        s.quiescent() ==> s.forget(id).quiescent(),
        s.pool_matches_keychain() ==> s.forget(id).pool_matches_keychain(),
{
    let t = s.forget(id);
    assert(t.entities() =~= s.entities());
    if s.conn_to_entity.contains_key(id) {
        let key = s.key_of_conn(id);
        let list = s.key_to_conns[key];
        let rest = without(list, id);
        lemma_without(list, id);
        assert forall|k: Seq<u8>, i: int|
            t.key_to_conns.contains_key(k) && 0 <= i < t.key_to_conns[k].len() implies {
            let x = #[trigger] t.key_to_conns[k][i];
            t.conn_to_entity.contains_key(x) && t.key_of_conn(x) == k && x != id
        } by {
            let x = t.key_to_conns[k][i];
            if k == key {
                assert(rest.contains(x));
                let j = list.index_of(x);
                assert(s.key_to_conns[key][j] == x);
            } else {
                assert(s.key_to_conns[k][i] == x);
            }
        }
        assert forall|x: usize| #[trigger] t.conn_to_entity.contains_key(x) implies {
            &&& t.key_to_conns.contains_key(t.key_of_conn(x))
            &&& t.key_to_conns[t.key_of_conn(x)].contains(x)
        } by {
            assert(s.conn_to_entity.contains_key(x));
            if s.key_of_conn(x) == key {
                assert(rest.contains(x));
                let j = rest.index_of(x);
                assert(rest.len() > 0);
            }
        }
        if s.quiescent() {
            assert(t.clients.dom() =~= t.conn_to_entity.dom());
        }
    } else {
        assert forall|k: Seq<u8>, i: int|
            t.key_to_conns.contains_key(k) && 0 <= i < t.key_to_conns[k].len() implies #[trigger] t.key_to_conns[k][i]
            != id by {
            let x = s.key_to_conns[k][i];
            assert(s.conn_to_entity.contains_key(x));
        }
    }
}

/// A login keeps the state well-formed.  One that is accepted leaves the
/// session logged in with the key it offered.
pub proof fn lemma_auth_publickey(s: ServerView, id: usize, key: Seq<u8>)
    requires
        s.wf(),
    ensures
        s.auth_publickey(id, key).wf(),
        s.accepts(id, key) ==> s.auth_publickey(id, key).logged_in_with(id, set![key]),
        s.pool_matches_keychain() ==> s.auth_publickey(id, key).pool_matches_keychain(),
{
    let t = s.auth_publickey(id, key);
    assert(t.entities() =~= s.entities());
    if s.accepts(id, key) {
        let fresh = s.forget(id);
        lemma_forget(s, id);
        assert(s.key_pool.contains(key));
        let slot = s.key_to_entity[key];
        let listed = if fresh.key_to_conns.contains_key(key) {
            fresh.key_to_conns[key]
        } else {
            Seq::<usize>::empty()
        };
        let list = listed.push(id);
        assert forall|a: int, b: int| 0 <= a < list.len() && 0 <= b < list.len() && a != b implies list[a]
            != list[b] by {
            if a < listed.len() {
                assert(fresh.key_to_conns[key][a] != id);
            }
            if b < listed.len() {
                assert(fresh.key_to_conns[key][b] != id);
            }
        }
        assert forall|k: Seq<u8>, i: int|
            t.key_to_conns.contains_key(k) && 0 <= i < t.key_to_conns[k].len() implies {
            let x = #[trigger] t.key_to_conns[k][i];
            t.conn_to_entity.contains_key(x) && t.key_of_conn(x) == k
        } by {
            let x = t.key_to_conns[k][i];
            if k == key {
                if i < listed.len() {
                    assert(fresh.key_to_conns[k][i] == x);
                }
            } else {
                assert(fresh.key_to_conns[k][i] == x);
            }
        }
        assert forall|x: usize| #[trigger] t.conn_to_entity.contains_key(x) implies {
            &&& t.conn_to_entity[x] < t.roster.len()
            &&& x < t.next_id
            &&& t.key_to_conns.contains_key(t.key_of_conn(x))
            &&& t.key_to_conns[t.key_of_conn(x)].contains(x)
        } by {
            if x == id {
                assert(list[listed.len() as int] == id);
            } else {
                assert(fresh.conn_to_entity.contains_key(x));
                if fresh.key_of_conn(x) == key {
                    let j = listed.index_of(x);
                    assert(list[j] == x);
                }
            }
        }
        assert(t.key_of_conn(id) == key);
    }
}

/// Announcing keeps the state well-formed.
pub proof fn lemma_announce(s: ServerView, id: usize, action: Announcement)
    requires
        s.wf(),
    ensures
        s.announce(id, action).wf(),
        s.quiescent() ==> s.announce(id, action).quiescent(),
        s.pool_matches_keychain() ==> s.announce(id, action).pool_matches_keychain(),
{
    if s.conn_to_entity.contains_key(id) {
        lemma_enqueue(s, MessageView::Announce { action, persona: s.conn_to_entity[id] });
    }
}

/// Opening a channel keeps the state well-formed.  If the session was the
/// only one logged in without a client, every session has one afterwards.
pub proof fn lemma_channel_open_session(s: ServerView, id: usize)
    requires
        s.wf(),
    ensures
        s.channel_open_session(id).wf(),
        s.conn_to_entity.contains_key(id) ==> s.channel_open_session(id).clients.contains_key(id),
        s.conn_to_entity.dom() == s.clients.dom().insert(id) ==> s.channel_open_session(
            id,
        ).quiescent(),
        s.pool_matches_keychain() ==> s.channel_open_session(id).pool_matches_keychain(),
{
    if s.conn_to_entity.contains_key(id) {
        let client = crate::model::ClientView {
            title: s.roster[s.conn_to_entity[id] as int].persona.title(),
            statusline: Seq::empty(),
        };
        let mid = ServerView { clients: s.clients.insert(id, client), ..s };
        assert(mid.entities() =~= s.entities());
        assert(mid.wf());
        lemma_announce(mid, id, Announcement::Joined);
        if s.conn_to_entity.dom() == s.clients.dom().insert(id) {
            assert(mid.clients.dom() =~= mid.conn_to_entity.dom());
        }
    }
}

/// A session's leaving keeps the state well-formed, and the session is in
/// no index afterwards.
pub proof fn lemma_leave(s: ServerView, id: usize)
    requires
        s.wf(),
    ensures
        s.leave(id).wf(),
        !s.leave(id).conn_to_entity.contains_key(id),
        !s.leave(id).clients.contains_key(id),
        s.quiescent() ==> s.leave(id).quiescent(),
        s.pool_matches_keychain() ==> s.leave(id).pool_matches_keychain(),
{
    lemma_announce(s, id, Announcement::Left);
    lemma_forget(s.announce(id, Announcement::Left), id);
}

/// A line of chat keeps the state well-formed.
pub proof fn lemma_chat(s: ServerView, id: usize, text: Seq<char>)
    requires
        s.wf(),
    ensures
        s.chat(id, text).wf(),
        s.quiescent() ==> s.chat(id, text).quiescent(),
        s.pool_matches_keychain() ==> s.chat(id, text).pool_matches_keychain(),
{
    lemma_enqueue(
        s,
        MessageView::Plain(
            crate::model::chat_line(s.roster[s.conn_to_entity[id] as int].persona.name, text),
        ),
    );
}

/// Showing an error keeps the state well-formed.
pub proof fn lemma_report(s: ServerView, id: usize, error: Seq<char>)
    requires
        s.wf(),
    ensures
        s.report(id, error).wf(),
        s.quiescent() ==> s.report(id, error).quiescent(),
        s.pool_matches_keychain() ==> s.report(id, error).pool_matches_keychain(),
{
    let t = s.report(id, error);
    assert(t.entities() =~= s.entities());
    if s.clients.contains_key(id) {
        assert(t.clients.dom() =~= s.clients.dom());
    }
}

/// The keys of a sequence of entities with one more at its end.
pub proof fn lemma_key_pool_push(entities: Seq<EntityView>, entity: EntityView)
    ensures
        key_pool_of(entities.push(entity)) == key_pool_of(entities).insert(entity.key_data),
{
    let more = entities.push(entity);
    assert forall|k: Seq<u8>|
        key_pool_of(more).contains(k) <==> #[trigger] key_pool_of(entities).insert(
            entity.key_data,
        ).contains(k) by {
        if key_pool_of(more).contains(k) {
            let j = choose|j: int| 0 <= j < more.len() && #[trigger] more[j].key_data == k;
            if j < entities.len() {
                assert(entities[j].key_data == k);
            }
        }
        if key_pool_of(entities).contains(k) {
            let j = choose|j: int| 0 <= j < entities.len() && #[trigger] entities[j].key_data == k;
            assert(more[j].key_data == k);
        }
        if k == entity.key_data {
            assert(more[entities.len() as int].key_data == k);
        }
    }
    assert(key_pool_of(more) =~= key_pool_of(entities).insert(entity.key_data));
}

/// Adding an entity keeps the state well-formed, and no session is touched.
pub proof fn lemma_add(s: ServerView, entity: EntityView)
    requires
        s.wf(),
        s.roster.len() < usize::MAX,
        is_sanitized(entity.persona.name),
    ensures
        s.add(entity).wf(),
        s.add(entity).key_pool.contains(entity.key_data),
        s.add(entity).entities() == s.entities().push(entity),
        s.quiescent() ==> s.add(entity).quiescent(),
        s.pool_matches_keychain() ==> s.add(entity).pool_matches_keychain(),
{
    let t = s.add(entity);
    let slot = s.roster.len() as usize;
    assert(t.entities() =~= s.entities().push(entity));
    assert forall|a: int, b: int|
        0 <= a < t.keychain.len() && 0 <= b < t.keychain.len() && a != b implies t.keychain[a]
        != t.keychain[b] by {
        if a < s.keychain.len() {
            assert(s.keychain[a] < s.roster.len());
        }
        if b < s.keychain.len() {
            assert(s.keychain[b] < s.roster.len());
        }
    }
    assert forall|i: int| 0 <= i < t.roster.len() implies is_sanitized(
        (#[trigger] t.roster[i]).persona.name,
    ) by {
        if i < s.roster.len() {
            assert(t.roster[i] == s.roster[i]);
        }
    }
    lemma_key_pool_push(s.entities(), entity);
    assert(t.key_to_entity.dom() =~= t.key_pool);
    assert forall|k: Seq<u8>| #[trigger] t.key_pool.contains(k) implies {
        &&& t.key_to_entity[k] < t.roster.len()
        &&& t.key_of(t.key_to_entity[k]) == k
        &&& t.keychain.contains(t.key_to_entity[k])
    } by {
        if k == entity.key_data {
            assert(t.keychain[s.keychain.len() as int] == slot);
        } else {
            assert(s.key_pool.contains(k));
            let j = s.keychain.index_of(s.key_to_entity[k]);
            assert(t.keychain[j] == s.key_to_entity[k]);
        }
    }
    assert forall|id: usize| #[trigger] t.conn_to_entity.contains_key(id) implies {
        &&& t.key_to_conns.contains_key(t.key_of_conn(id))
        &&& t.key_to_conns[t.key_of_conn(id)].contains(id)
    } by {
        assert(s.conn_to_entity.contains_key(id));
        assert(t.key_of_conn(id) == s.key_of_conn(id));
    }
    assert forall|k: Seq<u8>, i: int|
        t.key_to_conns.contains_key(k) && 0 <= i < t.key_to_conns[k].len() implies {
        let id = #[trigger] t.key_to_conns[k][i];
        t.conn_to_entity.contains_key(id) && t.key_of_conn(id) == k
    } by {
        let id = s.key_to_conns[k][i];
        assert(s.conn_to_entity.contains_key(id));
        assert(t.key_of_conn(id) == s.key_of_conn(id));
    }
}

/// Renaming keeps the state well-formed; it changes no key and no index.
pub proof fn lemma_rename(s: ServerView, from: Seq<char>, to: Seq<char>)
    requires
        s.wf(),
    ensures
        s.rename(from, to).wf(),
        s.rename(from, to).key_pool == s.key_pool,
        s.rename(from, to).clients.dom() == s.clients.dom(),
        s.quiescent() ==> s.rename(from, to).quiescent(),
        s.pool_matches_keychain() ==> s.rename(from, to).pool_matches_keychain(),
{
    let t = s.rename(from, to);
    lemma_position(s.entities(), LookupView::Name(from));
    assert(t.clients.dom() =~= s.clients.dom());
    assert forall|slot: usize| slot < s.roster.len() implies t.key_of(slot) == s.key_of(slot) by {}
    assert forall|k: Seq<u8>| key_pool_of(t.entities()).contains(k) <==> key_pool_of(
        s.entities(),
    ).contains(k) by {
        if key_pool_of(t.entities()).contains(k) {
            let j = choose|j: int|
                0 <= j < t.entities().len() && #[trigger] t.entities()[j].key_data == k;
            assert(s.entities()[j].key_data == k);
        }
        if key_pool_of(s.entities()).contains(k) {
            let j = choose|j: int|
                0 <= j < s.entities().len() && #[trigger] s.entities()[j].key_data == k;
            assert(t.entities()[j].key_data == k);
        }
    }
    assert(key_pool_of(t.entities()) =~= key_pool_of(s.entities()));
    assert forall|k: Seq<u8>, i: int|
        t.key_to_conns.contains_key(k) && 0 <= i < t.key_to_conns[k].len() implies {
        let id = #[trigger] t.key_to_conns[k][i];
        t.conn_to_entity.contains_key(id) && t.key_of_conn(id) == k
    } by {
        let id = s.key_to_conns[k][i];
        assert(s.conn_to_entity.contains_key(id));
    }
    assert forall|id: usize| #[trigger] t.conn_to_entity.contains_key(id) implies {
        &&& t.key_to_conns.contains_key(t.key_of_conn(id))
        &&& t.key_to_conns[t.key_of_conn(id)].contains(id)
    } by {
        assert(s.conn_to_entity.contains_key(id));
    }
    assert forall|k: Seq<u8>| #[trigger] t.key_pool.contains(k) implies {
        &&& t.key_to_entity[k] < t.roster.len()
        &&& t.key_of(t.key_to_entity[k]) == k
        &&& t.keychain.contains(t.key_to_entity[k])
    } by {
        assert(s.key_pool.contains(k));
    }
}

/// A dossier keeps the state well-formed.
pub proof fn lemma_info(s: ServerView, id: usize, lookup: LookupView)
    requires
        s.wf(),
    ensures
        s.info(id, lookup).wf(),
        s.quiescent() ==> s.info(id, lookup).quiescent(),
        s.pool_matches_keychain() ==> s.info(id, lookup).pool_matches_keychain(),
{
    let i = position(s.entities(), lookup);
    if i < s.keychain.len() {
        lemma_enqueue(
            s,
            MessageView::Dossier {
                contents: crate::model::dossier(s.entities()[i]),
                requested_by: id,
            },
        );
    }
}

/// Taking their sessions from a set of keys keeps the state well-formed.
/// Afterwards no session is logged in with one of the keys, and the
/// sessions of the other keys are as before.
pub proof fn lemma_evict(s: ServerView, keys: Set<Seq<u8>>)
    requires
        s.wf(),
    ensures
        s.evict(keys).wf(),
        forall|id: usize| #[trigger]
            s.evict(keys).conn_to_entity.contains_key(id) ==> !keys.contains(
                s.evict(keys).key_of_conn(id),
            ),
        forall|k: Seq<u8>| #[trigger] s.evict(keys).key_to_conns.contains_key(k) ==> !keys.contains(k),
        s.quiescent() ==> s.evict(keys).quiescent(),
        s.pool_matches_keychain() ==> s.evict(keys).pool_matches_keychain(),
{
    let t = s.evict(keys);
    assert(t.entities() =~= s.entities());
    assert forall|k: Seq<u8>, i: int|
        t.key_to_conns.contains_key(k) && 0 <= i < t.key_to_conns[k].len() implies {
        let id = #[trigger] t.key_to_conns[k][i];
        t.conn_to_entity.contains_key(id) && t.key_of_conn(id) == k
    } by {
        let id = s.key_to_conns[k][i];
        assert(s.conn_to_entity.contains_key(id));
    }
    if s.quiescent() {
        assert(t.clients.dom() =~= t.conn_to_entity.dom());
    }
}

/// An empty server is well-formed.
pub proof fn lemma_empty(capacity: nat)
    requires
        capacity > 0,
    ensures
        ServerView::empty(capacity).wf(),
        ServerView::empty(capacity).quiescent(),
        ServerView::empty(capacity).pool_matches_keychain(),
{
    let s = ServerView::empty(capacity);
    assert(s.key_to_entity.dom() =~= s.key_pool);
    assert(key_pool_of(s.entities()) =~= s.key_pool);
    assert(s.clients.dom() =~= s.conn_to_entity.dom());
}

/// A ban keeps the state well-formed.
///
/// After a ban that took effect, the banned key is not in the pool and no
/// session is logged in with it.  A ban of one's own key, or of nobody,
/// changes nothing.
pub proof fn lemma_ban(s: ServerView, id: usize, lookup: LookupView)
    requires
        s.wf(),
    ensures
        s.ban(id, lookup).wf(),
        s.ban_target(lookup) is None || s.bans_self(id, lookup) ==> s.ban(id, lookup) == s,
        s.ban_target(lookup) is Some && !s.bans_self(id, lookup) ==> {
            let key = s.ban_target(lookup)->0;
            &&& !s.ban(id, lookup).key_pool.contains(key)
            &&& !s.ban(id, lookup).key_to_entity.contains_key(key)
            &&& !s.ban(id, lookup).key_to_conns.contains_key(key)
            &&& forall|x: usize| #[trigger]
                s.ban(id, lookup).conn_to_entity.contains_key(x) ==> s.ban(id, lookup).key_of_conn(
                    x,
                ) != key
            &&& forall|x: usize| #[trigger]
                s.ban(id, lookup).clients.contains_key(x) ==> s.ban(id, lookup).key_of_conn(x)
                    != key
            &&& s.clients.contains_key(id) ==> s.ban(id, lookup).clients.contains_key(id)
            &&& s.ban(id, lookup).keychain == s.keychain
        },
        s.quiescent() ==> s.ban(id, lookup).quiescent(),
{
    let t = s.ban(id, lookup);
    match s.ban_target(lookup) {
        Some(key) => {
            if !s.bans_self(id, lookup) {
                let keys = set![key];
                let mid = s.evict(keys);
                lemma_evict(s, keys);
                assert(t.key_to_entity.dom() =~= t.key_pool);
                assert forall|k: Seq<u8>| #[trigger] t.key_pool.contains(k) implies {
                    &&& t.key_to_entity[k] < t.roster.len()
                    &&& t.key_of(t.key_to_entity[k]) == k
                    &&& t.keychain.contains(t.key_to_entity[k])
                } by {
                    assert(s.key_pool.contains(k));
                }
                assert forall|k: Seq<u8>| #[trigger] t.key_to_conns.contains_key(k) implies t.key_pool.contains(
                    k,
                ) by {
                    assert(mid.key_to_conns.contains_key(k));
                    assert(!keys.contains(k));
                }
                assert forall|x: usize| #[trigger] t.conn_to_entity.contains_key(x) implies t.key_of_conn(
                    x,
                ) != key by {
                    assert(mid.conn_to_entity.contains_key(x));
                    assert(!keys.contains(mid.key_of_conn(x)));
                }
            }
        },
        None => {},
    }
}

/// A reload keeps the state well-formed.
///
/// After a reload the key pool is the file's and is the key material of the
/// keychain, the keychain holds the file's entities in the file's order,
/// and every session that is still logged in is so with a key of the file.
pub proof fn lemma_reload(s: ServerView, file: AuthFileView)
    requires
        s.wf(),
        file.wf(),
        s.roster.len() + file.entities.len() <= usize::MAX,
    ensures
        s.reload(file).wf(),
        forall|k: Seq<u8>| #[trigger]
            file.key_pool.contains(k) ==> s.reload(file).roster[s.reload(file).key_to_entity[k] as int]
                == file.entities[last_with_key(file.entities, k)],
        s.reload(file).key_pool == file.key_pool,
        s.reload(file).entities() == file.entities,
        s.reload(file).pool_matches_keychain(),
        s.reload(file).key_to_entity.dom() == file.key_pool,
        forall|id: usize| #[trigger]
            s.reload(file).conn_to_entity.contains_key(id) ==> file.key_pool.contains(
                s.reload(file).key_of_conn(id),
            ),
        forall|id: usize| #[trigger]
            s.reload(file).clients.contains_key(id) ==> file.key_pool.contains(
                s.reload(file).key_of_conn(id),
            ),
        forall|id: usize|
            s.clients.contains_key(id) && file.key_pool.contains(s.key_of_conn(id))
                ==> #[trigger] s.reload(file).clients.contains_key(id),
        s.quiescent() ==> s.reload(file).quiescent(),
{
    let t = s.reload(file);
    let strays = s.strays(file);
    let mid = s.evict(strays);
    let base = s.roster.len();
    lemma_evict(s, strays);
    assert(t.entities() =~= file.entities);
    assert forall|i: int| 0 <= i < t.roster.len() implies is_sanitized(
        (#[trigger] t.roster[i]).persona.name,
    ) by {
        if i < base {
            assert(t.roster[i] == s.roster[i]);
        } else {
            assert(t.roster[i] == file.entities[i - base]);
        }
    }
    assert(t.key_to_entity.dom() =~= t.key_pool);
    assert forall|slot: usize| slot < s.roster.len() implies t.key_of(slot) == s.key_of(slot) by {}
    assert forall|k: Seq<u8>| #[trigger] t.key_pool.contains(k) implies {
        &&& t.key_to_entity[k] < t.roster.len()
        &&& t.key_of(t.key_to_entity[k]) == k
        &&& t.keychain.contains(t.key_to_entity[k])
        &&& t.roster[t.key_to_entity[k] as int] == file.entities[last_with_key(file.entities, k)]
    } by {
        lemma_last_with_key(file.entities, k);
        let j = last_with_key(file.entities, k);
        assert(t.keychain[j] == t.key_to_entity[k]);
        assert(t.roster[base + j] == file.entities[j]);
    }
    assert forall|id: usize| #[trigger] t.conn_to_entity.contains_key(id) implies {
        &&& t.conn_to_entity[id] < t.roster.len()
        &&& t.key_to_conns.contains_key(t.key_of_conn(id))
        &&& t.key_to_conns[t.key_of_conn(id)].contains(id)
        &&& file.key_pool.contains(t.key_of_conn(id))
    } by {
        assert(mid.conn_to_entity.contains_key(id));
        assert(t.key_of_conn(id) == mid.key_of_conn(id));
        let k = mid.key_of_conn(id);
        assert(mid.key_to_conns.contains_key(k));
        assert(s.key_to_conns.contains_key(k));
        assert(s.key_pool.contains(k));
        assert(!strays.contains(k));
    }
    assert forall|k: Seq<u8>, i: int|
        t.key_to_conns.contains_key(k) && 0 <= i < t.key_to_conns[k].len() implies {
        let id = #[trigger] t.key_to_conns[k][i];
        t.conn_to_entity.contains_key(id) && t.key_of_conn(id) == k
    } by {
        let id = mid.key_to_conns[k][i];
        assert(mid.conn_to_entity.contains_key(id));
        assert(t.key_of_conn(id) == mid.key_of_conn(id));
    }
    assert forall|k: Seq<u8>| #[trigger] t.key_to_conns.contains_key(k) implies t.key_pool.contains(
        k,
    ) by {
        assert(mid.key_to_conns.contains_key(k));
        assert(s.key_pool.contains(k));
        assert(!strays.contains(k));
    }
    assert forall|id: usize|
        s.clients.contains_key(id) && file.key_pool.contains(
            s.key_of_conn(id),
        ) implies #[trigger] t.clients.contains_key(id) by {
        assert(!strays.contains(s.key_of_conn(id)));
    }
}

} // verus!
