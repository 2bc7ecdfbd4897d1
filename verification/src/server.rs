//! The server's state and the operations on it.
//!
//! One [`AppServer`] holds everything that the sessions share.  Each
//! operation is one step of the model in [`crate::model`]: it is handed
//! what happened as plain values and answers with what is to be done
//! outside (channels to close, a file to write or to read).

use std::collections::HashMap;
use vstd::prelude::*;
use vstd::std_specs::iter::IteratorSpec;
use vstd::string::StringExecFns;
use crate::authfile::{key_pool_of, reads_back_as, serialize, serialized, AuthFile};
use crate::command::{answers, Command, CommandView};
use crate::entity::{entity_views, Entity};
use crate::error::LoungeError;
use crate::history::{App, MAX_HISTORY};
use crate::invariants::{
    lemma_add,
    lemma_announce,
    lemma_auth_publickey,
    lemma_ban,
    lemma_channel_open_session,
    lemma_chat,
    lemma_evict,
    lemma_forget,
    lemma_info,
    lemma_new_client,
    lemma_reload,
    lemma_rename,
    lemma_report,
};
use crate::keymap::{KeyMap, KeySet};
use crate::lookup::EntityLookup;
use crate::message::{message_views, styled_views, Announcement, Message, Styled};
use crate::model::{
    dossier,
    last_with_key,
    lemma_position_unique,
    position,
    retitled,
    visible,
    ClientView,
    ScreenView,
    ServerView,
};
use crate::ui::{viewport, viewport_of, Viewport};
use crate::roster::Roster;
use crate::seqs::{lemma_without_remove, without};
use crate::text::chain;

verus! {

/// What the server keeps of one client's screen besides the history.
#[derive(Debug, PartialEq, Eq)]
pub struct Client {
    /// The title on the border of the input area.
    pub title: String,
    /// The line below the input area, where errors are shown.
    pub statusline: String,
}

impl View for Client {
    type V = ClientView;

    open spec fn view(&self) -> ClientView {
        ClientView { title: self.title@, statusline: self.statusline@ }
    }
}

/// The sessions of each key, as sequences.
pub open spec fn conns_view(m: Map<Seq<u8>, Vec<usize>>) -> Map<Seq<u8>, Seq<usize>> {
    Map::new(|k: Seq<u8>| m.contains_key(k), |k: Seq<u8>| m[k]@)
}

/// The contents of the clients.
pub open spec fn clients_view(m: Map<usize, Client>) -> Map<usize, ClientView> {
    Map::new(|id: usize| m.contains_key(id), |id: usize| m[id]@)
}

fn map_get<'a, V>(m: &'a HashMap<usize, V>, id: usize) -> (res: Option<&'a V>)
    ensures
        res is Some <==> m@.contains_key(id),
        res matches Some(v) ==> *v == m@[id],
{
    broadcast use vstd::std_specs::hash::group_hash_axioms;

    m.get(&id)
}

fn map_insert<V>(m: &mut HashMap<usize, V>, id: usize, value: V)
    ensures
        final(m)@ == old(m)@.insert(id, value),
{
    broadcast use vstd::std_specs::hash::group_hash_axioms;

    m.insert(id, value);
}

fn map_remove<V>(m: &mut HashMap<usize, V>, id: usize) -> (res: Option<V>)
    ensures
        final(m)@ == old(m)@.remove(id),
        res is Some <==> old(m)@.contains_key(id),
        res matches Some(v) ==> v == old(m)@[id],
{
    broadcast use vstd::std_specs::hash::group_hash_axioms;

    m.remove(&id)
}

/// Takes `id` out of a list that holds no id twice.
fn remove_id(list: &mut Vec<usize>, id: usize)
    requires
        old(list)@.no_duplicates(),
    ensures
        final(list)@ == without(old(list)@, id),
{
    let mut i: usize = 0;
    while i < list.len()
        invariant
            i <= list.len(),
            list@ == old(list)@,
            list@.no_duplicates(),
            forall|j: int| 0 <= j < i ==> list@[j] != id,
        decreases list.len() - i,
    {
        if list[i] == id {
            proof {
                lemma_without_remove(list@, i as int);
            }
            list.remove(i);
            return ;
        }
        i += 1;
    }
    proof {
        crate::seqs::lemma_without_absent(list@, id);
    }
}

/// Gives `title` to the clients whose id is in `ids`.
fn retitle(clients: &mut HashMap<usize, Client>, ids: &Vec<usize>, title: &str)
    ensures
        clients_view(final(clients)@) == retitled(clients_view(old(clients)@), ids@, title@),
{
    let mut j: usize = 0;
    assert(clients_view(clients@) =~= retitled(clients_view(old(clients)@), ids@.take(0), title@));
    while j < ids.len()
        invariant
            j <= ids.len(),
            clients_view(clients@) == retitled(
                clients_view(old(clients)@),
                ids@.take(j as int),
                title@,
            ),
        decreases ids.len() - j,
    {
        let id = ids[j];
        let ghost before = clients_view(clients@);
        let ghost done = ids@.take(j as int);
        let ghost more = ids@.take(j + 1);
        let ghost target = retitled(clients_view(old(clients)@), more, title@);
        proof {
            assert(more =~= done.push(id));
            assert forall|x: usize| more.contains(x) <==> done.contains(x) || x == id by {
                if done.contains(x) {
                    let k = done.index_of(x);
                    assert(more[k] == x);
                }
                if x == id {
                    assert(more[j as int] == x);
                }
                if more.contains(x) {
                    let k = more.index_of(x);
                    if k < j {
                        assert(done[k] == x);
                    }
                }
            }
        }
        let ghost held = clients@;
        proof {
            assert forall|x: usize| before.contains_key(x) && x != id implies before[x]
                == target[x] by {
                assert(more.contains(x) <==> done.contains(x));
            }
        }
        match map_remove(clients, id) {
            Some(client) => {
                let ghost was = client@;
                assert(before[id] == was);
                let shown = Client { title: String::from_str(title), statusline: client.statusline };
                assert(more.contains(id));
                assert(shown@ == target[id]);
                map_insert(clients, id, shown);
                assert forall|x: usize| clients_view(clients@).contains_key(x) implies clients_view(
                    clients@,
                )[x] == target[x] by {
                    if x != id {
                        assert(clients@[x] == held[x]);
                        assert(before.contains_key(x));
                    }
                }
                assert(clients_view(clients@) =~= target);
            },
            None => {
                assert(clients@ =~= held);
                assert forall|x: usize| clients_view(clients@).contains_key(x) implies clients_view(
                    clients@,
                )[x] == target[x] by {
                    assert(before.contains_key(x));
                }
                assert(clients_view(clients@) =~= target);
            },
        }
        j += 1;
    }
    assert(ids@.take(ids.len() as int) == ids@);
}

/// Takes the sessions `ids` out of the index by session and out of the
/// clients, and notes in `closed` those that had a client.
fn evict_ids(
    id_to_user: &mut HashMap<usize, usize>,
    clients: &mut HashMap<usize, Client>,
    ids: &Vec<usize>,
    closed: &mut Vec<usize>,
)
    requires
        old(closed)@.no_duplicates(),
        ids@.no_duplicates(),
        forall|x: usize| old(closed)@.contains(x) ==> !old(clients)@.contains_key(x),
    ensures
        final(id_to_user)@ == old(id_to_user)@.remove_keys(ids@.to_set()),
        final(clients)@ == old(clients)@.remove_keys(ids@.to_set()),
        final(closed)@.no_duplicates(),
        forall|x: usize|
            final(closed)@.contains(x) <==> old(closed)@.contains(x) || (ids@.contains(x) && old(
                clients,
            )@.contains_key(x)),
{
    let mut j: usize = 0;
    assert(id_to_user@ =~= old(id_to_user)@.remove_keys(ids@.take(0).to_set()));
    assert(clients@ =~= old(clients)@.remove_keys(ids@.take(0).to_set()));
    while j < ids.len()
        invariant
            j <= ids.len(),
            ids@.no_duplicates(),
            id_to_user@ == old(id_to_user)@.remove_keys(ids@.take(j as int).to_set()),
            clients@ == old(clients)@.remove_keys(ids@.take(j as int).to_set()),
            closed@.no_duplicates(),
            forall|x: usize|
                closed@.contains(x) <==> old(closed)@.contains(x) || (ids@.take(j as int).contains(
                    x,
                ) && old(clients)@.contains_key(x)),
            forall|x: usize| old(closed)@.contains(x) ==> !old(clients)@.contains_key(x),
        decreases ids.len() - j,
    {
        let id = ids[j];
        let ghost done = ids@.take(j as int);
        let ghost more = ids@.take(j + 1);
        let ghost noted = closed@;
        proof {
            assert(more =~= done.push(id));
            assert forall|x: usize| more.contains(x) <==> done.contains(x) || x == id by {
                if done.contains(x) {
                    let k = done.index_of(x);
                    assert(more[k] == x);
                }
                if x == id {
                    assert(more[j as int] == x);
                }
                if more.contains(x) {
                    let k = more.index_of(x);
                    if k < j {
                        assert(done[k] == x);
                    }
                }
            }
            assert(!done.contains(id)) by {
                if done.contains(id) {
                    let k = done.index_of(id);
                    assert(ids@[k] == ids@[j as int]);
                }
            }
            assert(more.to_set() =~= done.to_set().insert(id));
        }
        map_remove(id_to_user, id);
        let had = map_remove(clients, id);
        if had.is_some() {
            closed.push(id);
            proof {
                assert(!noted.contains(id));
                assert forall|a: int, b: int|
                    0 <= a < closed@.len() && 0 <= b < closed@.len() && a != b implies closed@[a]
                    != closed@[b] by {
                    if a < noted.len() {
                        assert(noted.contains(closed@[a]));
                    }
                    if b < noted.len() {
                        assert(noted.contains(closed@[b]));
                    }
                }
                assert forall|x: usize| closed@.contains(x) <==> noted.contains(x) || x == id by {
                    if noted.contains(x) {
                        let k = noted.index_of(x);
                        assert(closed@[k] == x);
                    }
                    if x == id {
                        assert(closed@[noted.len() as int] == x);
                    }
                    if closed@.contains(x) {
                        let k = closed@.index_of(x);
                        if k < noted.len() {
                            assert(noted[k] == x);
                        }
                    }
                }
            }
        }
        proof {
            assert(id_to_user@ =~= old(id_to_user)@.remove_keys(more.to_set()));
            assert(clients@ =~= old(clients)@.remove_keys(more.to_set()));
        }
        j += 1;
    }
    assert(ids@.take(ids.len() as int) == ids@);
}

/// What a client sees.
#[derive(Debug, PartialEq, Eq)]
pub struct Screen {
    /// The messages, newest first.
    pub history: Vec<Styled>,
    /// The title on the border of the input area.
    pub title: String,
    /// The line below the input area.
    pub statusline: String,
}

impl View for Screen {
    type V = ScreenView;

    open spec fn view(&self) -> ScreenView {
        ScreenView {
            history: styled_views(self.history@),
            title: self.title@,
            statusline: self.statusline@,
        }
    }
}

/// What the bytes that a client sent ask for.
#[derive(Clone, Copy, Debug, PartialEq, Eq, Structural)]
pub enum Input {
    /// Ctrl-C: the session ends.
    Disconnect,
    /// Enter: the line in the input area is sent.
    Submit,
    /// Alt-Enter: a line break goes into the input area.
    Newline,
    /// Keystrokes for the input area.
    Keys,
    /// Nothing.
    Nothing,
}

/// What the bytes `data` ask for, from a session that has or has not a
/// client.  Without a client there is no input area to type into.
pub open spec fn classify(data: Seq<u8>, has_client: bool) -> Input {
    if data == seq![3u8] {
        Input::Disconnect
    } else if data == seq![13u8] {
        Input::Submit
    } else if data.len() == 0 || !has_client {
        Input::Nothing
    } else if data == seq![27u8, 13u8] {
        Input::Newline
    } else {
        Input::Keys
    }
}

/// Index of the first channel that failed to close, or the number of
/// channels if all were closed.  Each entry holds a client's id and whether
/// its channel was closed.
pub open spec fn first_failed(closings: Seq<(usize, bool)>) -> int
    decreases closings.len(),
{
    if closings.len() == 0 {
        0
    } else if !closings[0].1 {
        0
    } else {
        1 + first_failed(closings.drop_first())
    }
}

/// What the closing of channels amounts to: the first channel that failed
/// to close fails the command with `ClientDisconnectFailed` and its
/// client's id.
pub fn close_outcome(closings: &Vec<(usize, bool)>) -> (res: Result<(), LoungeError>)
    ensures
        res is Ok <==> first_failed(closings@) >= closings@.len(),
        res matches Err(e) ==> e matches LoungeError::ClientDisconnectFailed(id) && id
            == closings@[first_failed(closings@)].0,
{
    let mut i: usize = 0;
    assert(closings@.skip(0) == closings@);
    while i < closings.len()
        invariant
            i <= closings.len(),
            first_failed(closings@) == i + first_failed(closings@.skip(i as int)),
        decreases closings.len() - i,
    {
        let ghost rest = closings@.skip(i as int);
        assert(rest[0] == closings@[i as int]);
        assert(rest.drop_first() == closings@.skip(i + 1));
        if !closings[i].1 {
            return Err(LoungeError::ClientDisconnectFailed(closings[i].0));
        }
        i += 1;
    }
    Ok(())
}

/// Whether `screens` holds what every client of `s` sees: one screen for
/// each client, under the client's id, in no particular order.
pub open spec fn renders(screens: Seq<(usize, Screen)>, s: ServerView) -> bool {
    &&& screens.len() == s.clients.dom().len()
    &&& forall|i: int, j: int| 0 <= i < j < screens.len() ==> screens[i].0 != screens[j].0
    &&& forall|i: int|
        0 <= i < screens.len() ==> s.clients.contains_key((#[trigger] screens[i]).0)
            && screens[i].1@ == s.screen(screens[i].0)
    &&& forall|id: usize|
        s.clients.contains_key(id) ==> exists|i: int|
            0 <= i < screens.len() && (#[trigger] screens[i]).0 == id
}

/// Whether `effect` is what `command`, issued by session `id` in state
/// `s`, asks to be done outside.
pub open spec fn effect_of(s: ServerView, id: usize, command: CommandView, effect: Effect) -> bool {
    match command {
        CommandView::Commit => match serialized(s.entities()) {
            Some(text) => effect matches Effect::Commit(t) && t@ == text,
            None => effect is Nothing,
        },
        CommandView::Reload => effect is Reload,
        CommandView::Ban(lookup) => effect matches Effect::Close(ids) && ids@.no_duplicates()
            && ids@.to_set() == (match s.ban_target(lookup) {
            Some(key) => s.evicted(set![key]),
            None => Set::empty(),
        }),
        _ => effect is Nothing,
    }
}

/// The session is dropped after this many seconds without traffic.
pub const INACTIVITY_TIMEOUT_SECS: u64 = 3600;

/// A rejected login is answered after this many seconds.
pub const AUTH_REJECTION_SECS: u64 = 3;

/// The first rejected login of a connection is answered after this many
/// seconds.
pub const AUTH_REJECTION_INITIAL_SECS: u64 = 0;

/// The number of messages that the history holds unless told otherwise.
pub const DEFAULT_HISTORY_SIZE: usize = 128;

/// The port that the server listens on unless told otherwise.
pub const DEFAULT_PORT: u16 = 2222;

/// The interface that the server listens on unless told otherwise.
pub const DEFAULT_HOST: &'static str = "0.0.0.0";

/// The path of the authorization file unless told otherwise.
pub const DEFAULT_AUTHFILE: &'static str = "./Authfile";

/// What an operation asks its caller to do outside the server.
#[derive(Debug, PartialEq, Eq)]
pub enum Effect {
    /// Nothing.
    Nothing,
    /// Close the channels of these clients.
    Close(Vec<usize>),
    /// Write this text to the authorization file.
    Commit(String),
    /// Read the authorization file and hand it to [`AppServer::reload`].
    Reload,
}

/// The state that all sessions share.
#[derive(Debug)]
pub struct AppServer {
    roster: Roster,
    keychain: Vec<usize>,
    key_data_pool: KeySet,
    key_data_to_user: KeyMap<usize>,
    key_data_to_id: KeyMap<Vec<usize>>,
    id_to_user: HashMap<usize, usize>,
    clients: HashMap<usize, Client>,
    app: App,
    id: usize,
}

impl View for AppServer {
    type V = ServerView;

    closed spec fn view(&self) -> ServerView {
        ServerView {
            roster: self.roster@,
            keychain: self.keychain@,
            key_pool: self.key_data_pool.dom(),
            key_to_entity: self.key_data_to_user.map(),
            key_to_conns: conns_view(self.key_data_to_id.map()),
            conn_to_entity: self.id_to_user@,
            clients: clients_view(self.clients@),
            app: self.app@,
            next_id: self.id,
        }
    }
}

impl AppServer {
    /// The three indexes by key are sound.
    pub closed spec fn indexes_wf(&self) -> bool {
        &&& self.key_data_pool.wf()
        &&& self.key_data_to_user.wf()
        &&& self.key_data_to_id.wf()
    }

    /// The server is in a state that its operations can reach.
    pub closed spec fn wf(&self) -> bool {
        self.indexes_wf() && self@.wf()
    }

    /// A server that is well-formed has a well-formed state, whose roster
    /// can be counted in a `usize`.
    pub proof fn lemma_wf(&self)
        requires
            self.wf(),
        ensures
            self@.wf(),
            self@.roster.len() <= usize::MAX,
    {
    }

    /// A server for the entities of `file`, without sessions, with an empty
    /// history for `history_size` messages; `None` where the history size
    /// is zero or above [`MAX_HISTORY`].
    pub fn new(file: AuthFile, history_size: usize) -> (res: Option<AppServer>)
        requires
            file.wf(),
        ensures
            res is Some <==> 0 < history_size <= MAX_HISTORY,
            res matches Some(server) ==> server.wf() && server@ == ServerView::empty(
                history_size as nat,
            ).reload(file@),
            res matches Some(server) ==> server@.entities() == file@.entities && server@.key_pool
                == file@.key_pool && server@.pool_matches_keychain() && server@.quiescent(),
    {
        let app = match App::new(history_size) {
            Some(app) => app,
            None => {
                return None;
            },
        };
        let mut server = AppServer {
            roster: Roster::new(),
            keychain: Vec::new(),
            key_data_pool: KeySet::new(),
            key_data_to_user: KeyMap::new(),
            key_data_to_id: KeyMap::new(),
            id_to_user: HashMap::new(),
            clients: HashMap::new(),
            app,
            id: 0,
        };
        proof {
            crate::invariants::lemma_empty(history_size as nat);
            assert(server@.key_to_conns =~= Map::<Seq<u8>, Seq<usize>>::empty());
            assert(server@.clients =~= Map::<usize, ClientView>::empty());
            assert(server@ == ServerView::empty(history_size as nat));
        }
        let _ = server.reload(file);
        Some(server)
    }

    /// Gives the next connection its id, or `None` where no id is left.
    /// Ids count up from zero and none is given out twice.
    pub fn new_client(&mut self) -> (res: Option<usize>)
        requires
            old(self).wf(),
        ensures
            final(self).wf(),
            final(self)@ == old(self)@.new_client(),
            res is Some <==> old(self)@.next_id < usize::MAX,
            res matches Some(id) ==> id == old(self)@.next_id,
    {
        proof {
            lemma_new_client(self@);
        }
        if self.id < usize::MAX {
            let id = self.id;
            self.id = id + 1;
            Some(id)
        } else {
            None
        }
    }

    /// The next id to be given out.
    pub fn next_id(&self) -> (id: usize)
        ensures
            id == self@.next_id,
    {
        self.id
    }

    /// Decides a login of session `id` with the key `key_data`.  The login
    /// is accepted exactly when the key is authorized and the id has been
    /// given out; the session is then bound to the key's entity.  A login
    /// that is rejected changes nothing.
    pub fn auth_publickey(&mut self, id: usize, key_data: &Vec<u8>) -> (accepted: bool)
        requires
            old(self).wf(),
        ensures
            final(self).wf(),
            accepted == old(self)@.accepts(id, key_data@),
            final(self)@ == old(self)@.auth_publickey(id, key_data@),
    {
        proof {
            lemma_auth_publickey(self@, id, key_data@);
        }
        let slot = match self.key_data_to_user.get(key_data) {
            Some(slot) => *slot,
            None => {
                return false;
            },
        };
        if id >= self.id {
            return false;
        }
        self.forget(id);
        let mut list = match self.key_data_to_id.remove(key_data) {
            Some(list) => list,
            None => Vec::new(),
        };
        list.push(id);
        self.key_data_to_id.insert(key_data.clone(), list);
        map_insert(&mut self.id_to_user, id, slot);
        assert(final(self)@.key_to_conns =~= old(self)@.auth_publickey(id, key_data@).key_to_conns);
        true
    }

    /// Opens the channel of session `id`: the session gets a client with
    /// its entity's title and an empty status line, and its joining is
    /// announced.  Returns whether the channel was opened; it is not for a
    /// session that is not logged in, and nothing changes then.
    pub fn channel_open_session(&mut self, id: usize) -> (opened: bool)
        requires
            old(self).wf(),
        ensures
            final(self).wf(),
            opened == old(self)@.conn_to_entity.contains_key(id),
            final(self)@ == old(self)@.channel_open_session(id),
    {
        proof {
            lemma_channel_open_session(self@, id);
        }
        let slot = match map_get(&self.id_to_user, id) {
            Some(slot) => *slot,
            None => {
                return false;
            },
        };
        let client = Client { title: self.roster.get(slot).title(), statusline: String::new() };
        let ghost shown = client@;
        map_insert(&mut self.clients, id, client);
        assert(self@.clients =~= old(self)@.clients.insert(id, shown));
        self.app.enqueue(Message::Announce { action: Announcement::Joined, persona: slot });
        true
    }

    /// Appends to the history that session `id` joined or left.  Nothing
    /// is announced of a session that is not logged in.
    pub fn announce(&mut self, id: usize, action: Announcement)
        requires
            old(self).wf(),
        ensures
            final(self).wf(),
            final(self)@ == old(self)@.announce(id, action),
    {
        proof {
            lemma_announce(self@, id, action);
        }
        let persona = match map_get(&self.id_to_user, id) {
            Some(slot) => *slot,
            None => {
                return ;
            },
        };
        self.app.enqueue(Message::Announce { action, persona });
    }

    /// Session `id` leaves: its leaving is announced, then it is taken out
    /// of every index.
    pub fn leave(&mut self, id: usize)
        requires
            old(self).wf(),
        ensures
            final(self).wf(),
            final(self)@ == old(self)@.leave(id),
    {
        self.announce(id, Announcement::Left);
        self.forget(id);
    }

    /// Takes session `id` out of every index, without a word in the chat:
    /// for a session whose connection is gone.
    pub fn forget(&mut self, id: usize)
        requires
            old(self).wf(),
        ensures
            final(self).wf(),
            final(self)@ == old(self)@.forget(id),
    {
        proof {
            lemma_forget(self@, id);
        }
        match map_remove(&mut self.id_to_user, id) {
            None => {
                assert(final(self)@ =~= old(self)@.forget(id)) by {
                    assert(self.id_to_user@ =~= old(self).id_to_user@);
                }
            },
            Some(slot) => {
                let key = self.roster.get(slot).key_data();
                proof {
                    self.key_data_to_id.lemma_entries();
                    assert(old(self)@.key_to_conns.contains_key(key@));
                }
                match self.key_data_to_id.remove(&key) {
                    Some(mut list) => {
                        remove_id(&mut list, id);
                        if list.len() > 0 {
                            self.key_data_to_id.insert(key, list);
                        }
                    },
                    None => {},
                }
                map_remove(&mut self.clients, id);
                assert(final(self)@.key_to_conns =~= old(self)@.forget(id).key_to_conns);
                assert(final(self)@.clients =~= old(self)@.forget(id).clients);
            },
        }
    }

    /// The entity that session `id` is logged in as.
    pub fn entity(&self, id: usize) -> (res: Option<Entity>)
        requires
            self.wf(),
        ensures
            res is Some <==> self@.conn_to_entity.contains_key(id),
            res matches Some(entity) ==> entity@ == self@.roster[self@.conn_to_entity[id] as int],
    {
        match map_get(&self.id_to_user, id) {
            Some(slot) => {
                assert(self@.conn_to_entity.contains_key(id));
                Some(self.roster.get(*slot).clone())
            },
            None => None,
        }
    }

    /// Whether session `id` has opened its channel.
    pub fn has_client(&self, id: usize) -> (b: bool)
        ensures
            b == self@.clients.contains_key(id),
    {
        map_get(&self.clients, id).is_some()
    }

    /// The ids of the clients, each once, in no particular order.
    pub fn client_ids(&self) -> (ids: Vec<usize>)
        ensures
            ids@.no_duplicates(),
            ids@.to_set() == self@.clients.dom(),
    {
        broadcast use vstd::std_specs::hash::group_hash_axioms;

        let mut ids: Vec<usize> = Vec::new();
        for id in it: self.clients.keys()
            invariant
                it.seq() == self.clients.keys().remaining(),
                ids@ == it.seq().unref().take(it.index() as int),
        {
            ids.push(*id);
        }
        proof {
            let all = self.clients.keys().remaining();
            assert(ids@ =~= all.unref());
            assert(ids@.to_set() =~= self@.clients.dom());
            assert forall|a: int, b: int| 0 <= a < ids@.len() && 0 <= b < ids@.len() && a
                != b implies ids@[a] != ids@[b] by {
                assert(all[a] != all[b]);
            }
        }
        ids
    }

    /// The keychain: the authorized entities in the order of the
    /// authorization file.
    pub fn entities(&self) -> (entities: Vec<Entity>)
        requires
            self.wf(),
        ensures
            entity_views(entities@) == self@.entities(),
    {
        let mut entities: Vec<Entity> = Vec::new();
        let mut i: usize = 0;
        while i < self.keychain.len()
            invariant
                i <= self.keychain.len(),
                self.wf(),
                entities@.len() == i,
                forall|j: int| 0 <= j < i ==> (#[trigger] entities@[j])@ == self@.entities()[j],
            decreases self.keychain.len() - i,
        {
            assert(self@.keychain[i as int] < self@.roster.len());
            let entity = self.roster.get(self.keychain[i]).clone();
            assert(entity@ == self@.entities()[i as int]);
            entities.push(entity);
            i += 1;
        }
        assert(entity_views(entities@) =~= self@.entities());
        entities
    }

    /// Whether `key_data` may log in.
    pub fn is_authorized(&self, key_data: &Vec<u8>) -> (b: bool)
        requires
            self.wf(),
        ensures
            b == self@.key_pool.contains(key_data@),
    {
        self.key_data_pool.contains_key(key_data)
    }

    /// A copy of the chat history, oldest message first.
    pub fn history(&self) -> (messages: Vec<Message>)
        ensures
            message_views(messages@) == self@.app.history,
    {
        self.app.history()
    }

    /// Takes the bytes `data` that session `id` sent and says what they ask
    /// for; see [`classify`].  Ctrl-C makes the session leave: its leaving
    /// is announced, every client's screen is taken as it then is, the
    /// leaving one's too, and the session is taken out of every index; the
    /// screens are handed back to be drawn.  Any other input changes
    /// nothing here and hands back no screens.
    pub fn data(&mut self, id: usize, data: &[u8]) -> (res: (Input, Vec<(usize, Screen)>))
        requires
            old(self).wf(),
        ensures
            final(self).wf(),
            res.0 == classify(data@, old(self)@.clients.contains_key(id)),
            res.0 is Disconnect ==> final(self)@ == old(self)@.leave(id) && renders(
                res.1@,
                old(self)@.announce(id, Announcement::Left),
            ),
            !(res.0 is Disconnect) ==> final(self)@ == old(self)@ && res.1@.len() == 0,
    {
        let n = data.len();
        if n == 1 && data[0] == 3 {
            assert(data@ =~= seq![3u8]);
            self.announce(id, Announcement::Left);
            let screens = self.render();
            self.forget(id);
            return (Input::Disconnect, screens);
        }
        assert(data@ != seq![3u8]) by {
            if data@ == seq![3u8] {
                assert(seq![3u8].len() == 1);
                assert(seq![3u8][0] == 3u8);
            }
        }
        if n == 1 && data[0] == 13 {
            assert(data@ =~= seq![13u8]);
            return (Input::Submit, Vec::new());
        }
        assert(data@ != seq![13u8]) by {
            if data@ == seq![13u8] {
                assert(seq![13u8].len() == 1);
                assert(seq![13u8][0] == 13u8);
            }
        }
        if n == 0 || !self.has_client(id) {
            return (Input::Nothing, Vec::new());
        }
        if n == 2 && data[0] == 27 && data[1] == 13 {
            assert(data@ =~= seq![27u8, 13u8]);
            return (Input::Newline, Vec::new());
        }
        assert(data@ != seq![27u8, 13u8]) by {
            if data@ == seq![27u8, 13u8] {
                assert(seq![27u8, 13u8].len() == 2);
                assert(seq![27u8, 13u8][0] == 27u8);
                assert(seq![27u8, 13u8][1] == 13u8);
            }
        }
        (Input::Keys, Vec::new())
    }

    /// Takes the line `text` that client `id` sent; see
    /// [`ServerView::handle_message`].  Where the line is a command that
    /// was run, the result says what is left to do outside, as
    /// [`effect_of`] has it; in every other case nothing is.
    pub fn handle_message(&mut self, id: usize, text: &str) -> (effect: Effect)
        requires
            old(self).wf(),
        ensures
            final(self).wf(),
            final(self)@ == old(self)@.handle_message(id, text@),
            match old(self)@.handled_command(id, text@) {
                Some(command) => effect_of(old(self)@, id, command, effect),
                None => effect is Nothing,
            },
    {
        if !self.has_client(id) {
            return Effect::Nothing;
        }
        let entity = match self.entity(id) {
            Some(entity) => entity,
            None => {
                return Effect::Nothing;
            },
        };
        let name = entity.name();
        match Command::parse(text, entity.role(), name.clone()) {
            Err(e) => {
                self.report(id, &e);
                Effect::Nothing
            },
            Ok(None) => {
                self.chat(id, name.as_str(), text);
                Effect::Nothing
            },
            Ok(Some(command)) => match self.run_command(id, command) {
                Ok(effect) => effect,
                Err(e) => {
                    self.report(id, &e);
                    Effect::Nothing
                },
            },
        }
    }

    /// Runs `command` on behalf of session `id`; see
    /// [`ServerView::run_command`] for the state and [`effect_of`] for what
    /// is left to do outside.  Fails with `NoBanSelf`, and changes nothing,
    /// exactly when the command is a ban of the key that session `id` is
    /// logged in with.
    pub fn run_command(&mut self, id: usize, command: Command) -> (res: Result<Effect, LoungeError>)
        requires
            old(self).wf(),
        ensures
            final(self).wf(),
            res is Err <==> (command@ matches CommandView::Ban(lookup) && old(self)@.bans_self(
                id,
                lookup,
            )),
            res matches Err(e) ==> e is NoBanSelf && final(self)@ == old(self)@,
            res matches Ok(effect) ==> final(self)@ == old(self)@.run_command(id, command@)
                && effect_of(old(self)@, id, command@, effect),
            ({
                let before = old(self)@;
                let after = final(self)@;
                &&& command@ matches CommandView::Add(entity) ==> after.entities()
                    == before.entities().push(entity) && (before.pool_matches_keychain()
                    ==> after.pool_matches_keychain())
                &&& before.quiescent() ==> after.quiescent()
            }),
    {
        match command {
            Command::Add(entity) => {
                self.add(entity);
                Ok(Effect::Nothing)
            },
            Command::Rename { from, to } => {
                self.rename(from, to.as_str());
                Ok(Effect::Nothing)
            },
            Command::Commit => match self.commit() {
                Some(text) => Ok(Effect::Commit(text)),
                None => Ok(Effect::Nothing),
            },
            Command::Info(lookup) => {
                self.info(id, &lookup);
                Ok(Effect::Nothing)
            },
            Command::Ban(lookup) => match self.ban(id, &lookup) {
                Ok(closed) => Ok(Effect::Close(closed)),
                Err(e) => {
                    proof {
                        lemma_ban(old(self)@, id, lookup@);
                    }
                    Err(e)
                },
            },
            Command::Reload => Ok(Effect::Reload),
        }
    }

    /// Index in the keychain of the first entity that `lookup` refers to, or
    /// the keychain's length if it refers to none.
    fn find_entity(&self, lookup: &EntityLookup) -> (i: usize)
        requires
            self.wf(),
        ensures
            i == position(self@.entities(), lookup@),
            i <= self@.keychain.len(),
    {
        let mut i: usize = 0;
        while i < self.keychain.len()
            invariant
                i <= self.keychain.len(),
                self.wf(),
                forall|j: int| 0 <= j < i ==> !lookup@.matches(#[trigger] self@.entities()[j]),
            decreases self.keychain.len() - i,
        {
            assert(self@.keychain[i as int] < self@.roster.len());
            if lookup.matches(self.roster.get(self.keychain[i])) {
                proof {
                    lemma_position_unique(self@.entities(), lookup@, i as int);
                }
                return i;
            }
            i += 1;
        }
        proof {
            lemma_position_unique(self@.entities(), lookup@, i as int);
        }
        i
    }

    /// Authorizes `entity`: it goes to the end of the keychain, and its key
    /// may log in as it from now on.  No session is touched.
    pub fn add(&mut self, entity: Entity)
        requires
            old(self).wf(),
        ensures
            final(self).wf(),
            final(self)@ == old(self)@.add(entity@),
            final(self)@.entities() == old(self)@.entities().push(entity@),
            old(self)@.pool_matches_keychain() ==> final(self)@.pool_matches_keychain(),
            old(self)@.quiescent() ==> final(self)@.quiescent(),
    {
        proof {
            use_type_invariant(&entity);
            entity.lemma_sanitized();
        }
        let key = entity.key_data();
        let slot = self.roster.enroll(entity);
        self.keychain.push(slot);
        self.key_data_pool.insert(key.clone(), ());
        self.key_data_to_user.insert(key, slot);
        proof {
            self.roster.lemma_countable();
            assert(final(self)@.key_pool =~= old(self)@.add(entity@).key_pool);
            assert(final(self)@ == old(self)@.add(entity@));
            lemma_add(old(self)@, entity@);
        }
    }

    /// Renames the first entity of the keychain that is named `from`; see
    /// [`ServerView::rename`].
    pub fn rename(&mut self, from: String, to: &str)
        requires
            old(self).wf(),
        ensures
            final(self).wf(),
            final(self)@ == old(self)@.rename(from@, to@),
            old(self)@.quiescent() ==> final(self)@.quiescent(),
            old(self)@.pool_matches_keychain() ==> final(self)@.pool_matches_keychain(),
    {
        proof {
            lemma_rename(self@, from@, to@);
        }
        let lookup = EntityLookup::Name(from);
        let i = self.find_entity(&lookup);
        if i >= self.keychain.len() {
            return ;
        }
        let slot = self.keychain[i];
        self.roster.set_name(slot, to);
        let key = self.roster.get(slot).key_data();
        let title = self.roster.get(slot).title();
        proof {
            self.key_data_to_id.lemma_entries();
        }
        match self.key_data_to_id.get(&key) {
            Some(ids) => {
                retitle(&mut self.clients, ids, title.as_str());
            },
            None => {
                let none: Vec<usize> = Vec::new();
                retitle(&mut self.clients, &none, title.as_str());
            },
        }
    }

    /// Appends the dossier on the first entity of the keychain that
    /// `lookup` refers to, for session `id`; see [`ServerView::info`].
    pub fn info(&mut self, id: usize, lookup: &EntityLookup)
        requires
            old(self).wf(),
        ensures
            final(self).wf(),
            final(self)@ == old(self)@.info(id, lookup@),
            old(self)@.quiescent() ==> final(self)@.quiescent(),
            old(self)@.pool_matches_keychain() ==> final(self)@.pool_matches_keychain(),
    {
        proof {
            lemma_info(self@, id, lookup@);
        }
        let i = self.find_entity(lookup);
        if i >= self.keychain.len() {
            return ;
        }
        let entity = self.roster.get(self.keychain[i]);
        let mut contents = chain("name: ", entity.name().as_str());
        contents.append("\nrole: ");
        contents.append(entity.role().to_string().as_str());
        contents.append("\nfingerprint: ");
        contents.append(entity.fingerprint().as_str());
        self.app.enqueue(Message::Dossier { contents, requested_by: id });
    }

    /// The contents of the authorization file that holds the keychain, or
    /// `None` where an entity of the keychain has no line.
    pub fn commit(&self) -> (res: Option<String>)
        requires
            self.wf(),
        ensures
            res is Some <==> serialized(self@.entities()) is Some,
            res matches Some(text) ==> Some(text@) == serialized(self@.entities())
                && reads_back_as(text@, self@.entities()),
    {
        serialize(&self.entities())
    }

    /// Appends to the history what session `id` said.
    fn chat(&mut self, id: usize, name: &str, text: &str)
        requires
            old(self).wf(),
            old(self)@.conn_to_entity.contains_key(id),
            name@ == old(self)@.roster[old(self)@.conn_to_entity[id] as int].persona.name,
        ensures
            final(self).wf(),
            final(self)@ == old(self)@.chat(id, text@),
    {
        proof {
            lemma_chat(self@, id, text@);
        }
        let mut line = chain("[", name);
        line.append("]: ");
        line.append(text);
        self.app.enqueue(Message::Plain(line));
    }

    /// Shows `error` in the status line of client `id`, if there is such a
    /// client.
    pub fn report(&mut self, id: usize, error: &LoungeError)
        requires
            old(self).wf(),
        ensures
            final(self).wf(),
            final(self)@ == old(self)@.report(id, error.message_spec()),
    {
        proof {
            lemma_report(self@, id, error.message_spec());
        }
        match map_remove(&mut self.clients, id) {
            Some(client) => {
                let shown = Client { title: client.title, statusline: error.message() };
                map_insert(&mut self.clients, id, shown);
                assert(final(self)@.clients =~= old(self)@.report(id, error.message_spec()).clients);
            },
            None => {
                assert(self.clients@ =~= old(self).clients@);
            },
        }
    }

    /// Takes their sessions from `key`, and notes in `closed` the clients
    /// among them.
    fn evict_key(&mut self, key: &Vec<u8>, closed: &mut Vec<usize>)
        requires
            old(self).wf(),
            old(closed)@.no_duplicates(),
            forall|x: usize| old(closed)@.contains(x) ==> !old(self)@.clients.contains_key(x),
        ensures
            final(self).wf(),
            final(self)@ == old(self)@.evict(set![key@]),
            final(closed)@.no_duplicates(),
            forall|x: usize|
                final(closed)@.contains(x) <==> old(closed)@.contains(x) || old(self)@.evicted(
                    set![key@],
                ).contains(x),
            forall|x: usize| final(closed)@.contains(x) ==> !final(self)@.clients.contains_key(x),
            final(self).key_data_pool == old(self).key_data_pool,
    {
        let ghost before = self@;
        let ghost keys = set![key@];
        let ghost noted = closed@;
        proof {
            lemma_evict(before, keys);
            self.key_data_to_id.lemma_entries();
        }
        match self.key_data_to_id.remove(key) {
            Some(ids) => {
                proof {
                    assert(before.key_to_conns.contains_key(key@));
                    assert(ids@ == before.key_to_conns[key@]);
                }
                evict_ids(&mut self.id_to_user, &mut self.clients, &ids, closed);
                proof {
                    assert forall|x: usize|
                        ids@.contains(x) <==> before.logged_in_with(x, keys) by {
                        if ids@.contains(x) {
                            let j = ids@.index_of(x);
                            assert(before.key_to_conns[key@][j] == x);
                        }
                    }
                    assert(self@.key_to_conns =~= before.evict(keys).key_to_conns);
                    assert(self@.conn_to_entity =~= before.evict(keys).conn_to_entity);
                    assert(self@.clients =~= before.evict(keys).clients);
                    assert forall|x: usize|
                        closed@.contains(x) <==> noted.contains(x) || before.evicted(keys).contains(
                            x,
                        ) by {
                        assert(before.clients.contains_key(x) <==> old(self).clients@.contains_key(
                            x,
                        ));
                        if ids@.contains(x) {
                            let j = ids@.index_of(x);
                            assert(before.key_to_conns[key@][j] == x);
                            assert(before.logged_in_with(x, keys));
                        }
                        if before.logged_in_with(x, keys) {
                            assert(before.conn_to_entity.contains_key(x));
                            assert(before.key_to_conns[before.key_of_conn(x)].contains(x));
                            assert(ids@.contains(x));
                        }
                    }
                }
            },
            None => {
                proof {
                    assert(!before.key_to_conns.contains_key(key@));
                    assert forall|x: usize| !before.logged_in_with(x, keys) by {
                        if before.conn_to_entity.contains_key(x) {
                            assert(before.key_to_conns.contains_key(before.key_of_conn(x)));
                        }
                    }
                    assert(self@.key_to_conns =~= before.evict(keys).key_to_conns);
                    assert(self@.conn_to_entity =~= before.evict(keys).conn_to_entity);
                    assert(self@.clients =~= before.evict(keys).clients);
                    assert forall|x: usize|
                        closed@.contains(x) <==> noted.contains(x) || before.evicted(keys).contains(
                            x,
                        ) by {}
                }
            },
        }
    }

    /// Bans the first entity of the keychain that `lookup` refers to, on
    /// behalf of session `id`; see [`ServerView::ban`].  Fails with
    /// `NoBanSelf`, and changes nothing, exactly when the entity has the key
    /// that session `id` is logged in with.  Otherwise returns the clients
    /// whose channels are to be closed: those that were logged in with the
    /// banned key, each once.
    pub fn ban(&mut self, id: usize, lookup: &EntityLookup) -> (res: Result<Vec<usize>, LoungeError>)
        requires
            old(self).wf(),
        ensures
            final(self).wf(),
            final(self)@ == old(self)@.ban(id, lookup@),
            old(self)@.quiescent() ==> final(self)@.quiescent(),
            res is Err <==> old(self)@.bans_self(id, lookup@),
            res matches Err(e) ==> e is NoBanSelf,
            res matches Ok(closed) ==> closed@.no_duplicates() && closed@.to_set() == (match old(
                self,
            )@.ban_target(lookup@) {
                Some(key) => old(self)@.evicted(set![key]),
                None => Set::empty(),
            }),
    {
        proof {
            lemma_ban(self@, id, lookup@);
        }
        let mut closed: Vec<usize> = Vec::new();
        let i = self.find_entity(lookup);
        if i >= self.keychain.len() {
            assert(closed@.to_set() =~= Set::<usize>::empty());
            return Ok(closed);
        }
        let key = self.roster.get(self.keychain[i]).key_data();
        match map_get(&self.id_to_user, id) {
            Some(slot) => {
                assert(self@.conn_to_entity.contains_key(id));
                let own = self.roster.get(*slot).key_data();
                if crate::text::bytes_eq(&own, &key) {
                    return Err(LoungeError::NoBanSelf);
                }
            },
            None => {},
        }
        self.evict_key(&key, &mut closed);
        self.key_data_to_user.remove(&key);
        self.key_data_pool.remove(&key);
        proof {
            assert(closed@.to_set() =~= old(self)@.evicted(set![key@]));
            assert(final(self)@ == old(self)@.ban(id, lookup@));
        }
        Ok(closed)
    }

    /// Puts `file` in place of what was loaded before; see
    /// [`ServerView::reload`].  Returns the clients whose channels are to be
    /// closed: those that were logged in with a key that the file no longer
    /// holds, each once.
    pub fn reload(&mut self, file: AuthFile) -> (closed: Vec<usize>)
        requires
            old(self).wf(),
            file.wf(),
        ensures
            final(self).wf(),
            final(self)@ == old(self)@.reload(file@),
            final(self)@.entities() == file@.entities,
            final(self)@.key_pool == file@.key_pool,
            final(self)@.pool_matches_keychain(),
            ({
                let after = final(self)@;
                forall|k: Seq<u8>| #[trigger]
                    file@.key_pool.contains(k) ==> after.roster[after.key_to_entity[k] as int]
                        == file@.entities[last_with_key(file@.entities, k)]
            }),
            old(self)@.quiescent() ==> final(self)@.quiescent(),
            closed@.no_duplicates(),
            closed@.to_set() == old(self)@.evicted(old(self)@.strays(file@)),
    {
        let ghost before = self@;
        let ghost strays = before.strays(file@);
        proof {
            file.lemma_wf();
        }
        let (entities, key_pool) = file.into_parts();
        let ghost loaded = entity_views(entities@);
        let mut closed: Vec<usize> = Vec::new();
        let n = self.key_data_pool.len();
        let mut i: usize = 0;
        proof {
            self.key_data_pool.lemma_entries();
            lemma_evict(before, Set::empty());
            assert(self@ =~= before.evict(Set::empty())) by {
                assert(self@.key_to_conns =~= before.evict(Set::empty()).key_to_conns);
                assert(self@.conn_to_entity =~= before.evict(Set::empty()).conn_to_entity);
                assert(self@.clients =~= before.evict(Set::empty()).clients);
            }
        }
        let ghost mut gone: Set<Seq<u8>> = Set::empty();
        while i < n
            invariant
                i <= n,
                n == self.key_data_pool.keys().len(),
                self.wf(),
                key_pool.wf(),
                key_pool.dom() == file@.key_pool,
                self.key_data_pool == old(self).key_data_pool,
                self@ == before.evict(gone),
                before.wf(),
                forall|k: Seq<u8>|
                    gone.contains(k) <==> (exists|j: int|
                        0 <= j < i && #[trigger] self.key_data_pool.keys()[j] == k) && !file@.key_pool.contains(k),
                closed@.no_duplicates(),
                forall|x: usize| closed@.contains(x) <==> before.evicted(gone).contains(x),
            decreases n - i,
        {
            let key = self.key_data_pool.key_at(i).clone();
            if !key_pool.contains_key(&key) {
                let ghost mid = self@;
                proof {
                    assert forall|x: usize| closed@.contains(x) implies !mid.clients.contains_key(
                        x,
                    ) by {}
                }
                self.evict_key(&key, &mut closed);
                proof {
                    let more = gone.insert(key@);
                    assert(self@.key_to_conns =~= before.evict(more).key_to_conns);
                    assert(self@.conn_to_entity =~= before.evict(more).conn_to_entity);
                    assert(self@.clients =~= before.evict(more).clients);
                    assert forall|x: usize| closed@.contains(x) <==> before.evicted(more).contains(
                        x,
                    ) by {}
                    assert forall|k: Seq<u8>|
                        more.contains(k) <==> (exists|j: int|
                            0 <= j < i + 1 && #[trigger] self.key_data_pool.keys()[j] == k) && !file@.key_pool.contains(k) by {
                        if k == key@ {
                            assert(self.key_data_pool.keys()[i as int] == k);
                        }
                    }
                    gone = more;
                }
            } else {
                proof {
                    assert forall|k: Seq<u8>|
                        gone.contains(k) <==> (exists|j: int|
                            0 <= j < i + 1 && #[trigger] self.key_data_pool.keys()[j] == k) && !file@.key_pool.contains(k) by {
                    }
                }
            }
            i += 1;
        }
        proof {
            self.key_data_pool.lemma_entries();
            assert(gone =~= strays) by {
                assert forall|k: Seq<u8>| gone.contains(k) <==> strays.contains(k) by {
                    if strays.contains(k) {
                        assert(self.key_data_pool.map().contains_key(k));
                        let j = self.key_data_pool.keys().index_of(k);
                        assert(self.key_data_pool.keys()[j] == k);
                    }
                    if gone.contains(k) {
                        let j = choose|j: int|
                            0 <= j < n && #[trigger] self.key_data_pool.keys()[j] == k;
                        assert(self.key_data_pool.map().contains_key(self.key_data_pool.keys()[j]));
                    }
                }
            }
            assert(closed@.to_set() =~= before.evicted(strays));
        }
        let base = self.roster.len();
        let mut keychain: Vec<usize> = Vec::new();
        let mut key_data_to_user: KeyMap<usize> = KeyMap::new();
        let mut j: usize = 0;
        proof {
            assert(self.roster@ =~= before.roster + loaded.take(0));
            assert(key_data_to_user.map() =~= Map::new(
                |k: Seq<u8>| key_pool_of(loaded.take(0)).contains(k),
                |k: Seq<u8>| (base + last_with_key(loaded.take(0), k)) as usize,
            ));
        }
        while j < entities.len()
            invariant
                j <= entities.len(),
                loaded == entity_views(entities@),
                base == before.roster.len(),
                self.roster@ == before.roster + loaded.take(j as int),
                keychain@ == Seq::new(j as nat, |i: int| (base + i) as usize),
                key_data_to_user.wf(),
                key_data_to_user.map() == Map::new(
                    |k: Seq<u8>| key_pool_of(loaded.take(j as int)).contains(k),
                    |k: Seq<u8>| (base + last_with_key(loaded.take(j as int), k)) as usize,
                ),
                self.key_data_pool == old(self).key_data_pool,
                self.key_data_to_id.wf(),
                self.key_data_pool.wf(),
                self@.key_to_conns == before.evict(strays).key_to_conns,
                self@.conn_to_entity == before.evict(strays).conn_to_entity,
                self@.clients == before.evict(strays).clients,
                self@.app == before.app,
                self@.next_id == before.next_id,
            decreases entities.len() - j,
        {
            let entity = entities[j].clone();
            let key = entity.key_data();
            let slot = self.roster.enroll(entity);
            keychain.push(slot);
            key_data_to_user.insert(key, slot);
            proof {
                let done = loaded.take(j as int);
                let more = loaded.take(j + 1);
                assert(more.drop_last() =~= done);
                assert(more.last() == loaded[j as int]);
                assert(self.roster@ =~= before.roster + more);
                assert(keychain@ =~= Seq::new((j + 1) as nat, |i: int| (base + i) as usize));
                crate::invariants::lemma_key_pool_push(done, loaded[j as int]);
                assert(more =~= done.push(loaded[j as int]));
                assert(key_data_to_user.map() =~= Map::new(
                    |k: Seq<u8>| key_pool_of(more).contains(k),
                    |k: Seq<u8>| (base + last_with_key(more, k)) as usize,
                ));
            }
            j += 1;
        }
        self.keychain = keychain;
        self.key_data_to_user = key_data_to_user;
        self.key_data_pool = key_pool;
        proof {
            self.roster.lemma_countable();
            assert(loaded.take(entities.len() as int) == loaded);
            assert(final(self)@.key_to_entity =~= before.reload(file@).key_to_entity);
            assert(final(self)@ == before.reload(file@));
            lemma_reload(before, file@);
        }
        closed
    }

    /// Answers the request of session `id` for a terminal of `col_width`
    /// columns and `row_height` rows: the viewport that its terminal is to
    /// take, or `None` for a session without a client.
    pub fn pty_request(&self, id: usize, col_width: u32, row_height: u32) -> (res: Option<Viewport>)
        ensures
            res == (if self@.clients.contains_key(id) {
                Some(viewport_of(col_width, row_height))
            } else {
                None
            }),
    {
        if self.has_client(id) {
            Some(viewport(col_width, row_height))
        } else {
            None
        }
    }

    /// Answers the report of session `id` that its window now has
    /// `col_width` columns and `row_height` rows: the viewport that its
    /// terminal is to take, or `None` for a session without a client.
    pub fn window_change_request(&self, id: usize, col_width: u32, row_height: u32) -> (res: Option<
        Viewport,
    >)
        ensures
            res == (if self@.clients.contains_key(id) {
                Some(viewport_of(col_width, row_height))
            } else {
                None
            }),
    {
        if self.has_client(id) {
            Some(viewport(col_width, row_height))
        } else {
            None
        }
    }

    /// What client `id` sees; see [`ServerView::screen`].  `None` for a
    /// session without a client.
    pub fn render_client(&self, id: usize) -> (res: Option<Screen>)
        requires
            self.wf(),
        ensures
            res is Some <==> self@.clients.contains_key(id),
            res matches Some(screen) ==> screen@ == self@.screen(id),
    {
        let client = match map_get(&self.clients, id) {
            Some(client) => client,
            None => {
                return None;
            },
        };
        let history = self.app.history();
        let ghost all = message_views(history@);
        let mut lines: Vec<Styled> = Vec::new();
        let mut i: usize = 0;
        while i < history.len()
            invariant
                i <= history.len(),
                self.wf(),
                all == message_views(history@),
                all == self@.app.history,
                styled_views(lines@) == visible(all.take(i as int), self@.roster, id),
            decreases history.len() - i,
        {
            proof {
                assert(all.take(i + 1).drop_last() == all.take(i as int));
                assert(all.take(i + 1).last() == history@[i as int]@);
                assert(self@.app.history[i as int].wf(self@.roster.len()));
            }
            if history[i].visible_to(id) {
                let line = history[i].text_content(&self.roster);
                proof {
                    assert(styled_views(lines@.push(line)) =~= styled_views(lines@).push(line@));
                }
                lines.push(line);
            }
            i += 1;
        }
        assert(all.take(history.len() as int) == all);
        let mut newest_first: Vec<Styled> = Vec::new();
        let ghost oldest_first = lines@;
        while lines.len() > 0
            invariant
                lines@ == oldest_first.take(lines@.len() as int),
                newest_first@.len() + lines@.len() == oldest_first.len(),
                forall|j: int|
                    0 <= j < newest_first@.len() ==> newest_first@[j] == oldest_first[oldest_first.len()
                        - 1 - j],
            decreases lines.len(),
        {
            let line = lines.pop().unwrap();
            newest_first.push(line);
        }
        assert(styled_views(newest_first@) =~= styled_views(oldest_first).reverse());
        Some(
            Screen {
                history: newest_first,
                title: client.title.clone(),
                statusline: client.statusline.clone(),
            },
        )
    }

    /// What every client sees: one screen for each client, in no
    /// particular order.
    pub fn render(&self) -> (screens: Vec<(usize, Screen)>)
        requires
            self.wf(),
        ensures
            renders(screens@, self@),
    {
        let ids = self.client_ids();
        let mut screens: Vec<(usize, Screen)> = Vec::new();
        let mut i: usize = 0;
        while i < ids.len()
            invariant
                i <= ids.len(),
                self.wf(),
                ids@.no_duplicates(),
                ids@.to_set() == self@.clients.dom(),
                screens@.len() == i,
                forall|j: int|
                    0 <= j < i ==> (#[trigger] screens@[j]).0 == ids@[j] && screens@[j].1@
                        == self@.screen(ids@[j]),
            decreases ids.len() - i,
        {
            let id = ids[i];
            assert(ids@.to_set().contains(ids@[i as int])) by {
                assert(ids@.contains(ids@[i as int]));
            }
            match self.render_client(id) {
                Some(screen) => {
                    screens.push((id, screen));
                },
                None => {},
            }
            i += 1;
        }
        proof {
            ids@.unique_seq_to_set();
            assert forall|id: usize| self@.clients.contains_key(id) implies exists|i: int|
                0 <= i < screens@.len() && (#[trigger] screens@[i]).0 == id by {
                assert(ids@.to_set().contains(id));
                let j = ids@.index_of(id);
                assert(screens@[j].0 == id);
            }
            assert forall|i: int| 0 <= i < screens@.len() implies self@.clients.contains_key(
                (#[trigger] screens@[i]).0,
            ) && screens@[i].1@ == self@.screen(screens@[i].0) by {
                assert(ids@.contains(ids@[i]));
                assert(ids@.to_set().contains(ids@[i]));
            }
        }
        screens
    }
}

} // verus!
