//! The server's state as a mathematical value, the steps that change it,
//! and what holds of every state that the steps can reach.
//!
//! The executable server in [`crate::server`] is specified by this model:
//! each of its operations ends in the state that the step of the same name
//! gives here.

use vstd::prelude::*;
use crate::authfile::{key_pool_of, AuthFileView};
use crate::command::{parse_command, CommandView, Parsed};
use crate::entity::{is_sanitized, sanitize, EntityView, PersonaView, Role};
use crate::text::debug_quoted;
use crate::history::{appended, AppView};
use crate::lookup::LookupView;
use crate::message::{Announcement, MessageView, StyledView};
use crate::seqs::without;

verus! {

/// What the server keeps of one client's screen besides the history.
pub struct ClientView {
    /// The title on the border of the input area.
    pub title: Seq<char>,
    /// The line below the input area, where errors are shown.
    pub statusline: Seq<char>,
}

/// The state of the server.
pub struct ServerView {
    /// Every entity ever taken in; the other fields refer to entities by
    /// their slot here.
    pub roster: Seq<EntityView>,
    /// The live keychain: the slots of the authorized entities, in the
    /// order of the authorization file.
    pub keychain: Seq<usize>,
    /// The key material that may log in.
    pub key_pool: Set<Seq<u8>>,
    /// The entity that each key of the pool logs in as.
    pub key_to_entity: Map<Seq<u8>, usize>,
    /// The sessions that are logged in with each key.
    pub key_to_conns: Map<Seq<u8>, Seq<usize>>,
    /// The entity that each session is logged in as.
    pub conn_to_entity: Map<usize, usize>,
    /// The clients: the sessions that have opened their channel.
    pub clients: Map<usize, ClientView>,
    /// The chat.
    pub app: AppView,
    /// The id that the next connection gets.
    pub next_id: usize,
}

/// Index of the first entity that `lookup` refers to, or the number of
/// entities if it refers to none.
pub open spec fn position(entities: Seq<EntityView>, lookup: LookupView) -> int
    decreases entities.len(),
{
    if entities.len() == 0 {
        0
    } else if lookup.matches(entities[0]) {
        0
    } else {
        1 + position(entities.drop_first(), lookup)
    }
}

/// `position` is within bounds, `lookup` matches nothing before it, and it
/// matches the entity at it.
pub proof fn lemma_position(entities: Seq<EntityView>, lookup: LookupView)
    ensures
        0 <= position(entities, lookup) <= entities.len(),
        forall|j: int|
            0 <= j < position(entities, lookup) ==> !lookup.matches(#[trigger] entities[j]),
        position(entities, lookup) < entities.len() ==> lookup.matches(
            entities[position(entities, lookup)],
        ),
    decreases entities.len(),
{
    if entities.len() > 0 && !lookup.matches(entities[0]) {
        let rest = entities.drop_first();
        lemma_position(rest, lookup);
        assert forall|j: int| 0 <= j < position(entities, lookup) implies !lookup.matches(
            #[trigger] entities[j],
        ) by {
            if j > 0 {
                assert(entities[j] == rest[j - 1]);
            }
        }
        if position(entities, lookup) < entities.len() {
            assert(entities[position(entities, lookup)] == rest[position(rest, lookup)]);
        }
    }
}

/// If `lookup` matches nothing before `i` and matches entity `i` (or `i` is
/// the number of entities), then `position` is `i`.
pub proof fn lemma_position_unique(entities: Seq<EntityView>, lookup: LookupView, i: int)
    requires
        0 <= i <= entities.len(),
        forall|j: int| 0 <= j < i ==> !lookup.matches(#[trigger] entities[j]),
        i < entities.len() ==> lookup.matches(entities[i]),
    ensures
        position(entities, lookup) == i,
{
    lemma_position(entities, lookup);
    let f = position(entities, lookup);
    if f < i {
        assert(lookup.matches(entities[f]));
    } else if f > i {
        assert(!lookup.matches(entities[i]));
    }
}

/// Index of the last entity with key material `key`, or `-1` if there is
/// none.
pub open spec fn last_with_key(entities: Seq<EntityView>, key: Seq<u8>) -> int
    decreases entities.len(),
{
    if entities.len() == 0 {
        -1
    } else if entities.last().key_data == key {
        entities.len() - 1
    } else {
        last_with_key(entities.drop_last(), key)
    }
}

/// `last_with_key` is `-1` exactly when no entity has the key; otherwise it
/// is the index of one that has it.
pub proof fn lemma_last_with_key(entities: Seq<EntityView>, key: Seq<u8>)
    ensures
        -1 <= last_with_key(entities, key) < entities.len(),
        last_with_key(entities, key) >= 0 <==> key_pool_of(entities).contains(key),
        last_with_key(entities, key) >= 0 ==> entities[last_with_key(entities, key)].key_data
            == key,
    decreases entities.len(),
{
    if entities.len() > 0 {
        let front = entities.drop_last();
        lemma_last_with_key(front, key);
        if entities.last().key_data == key {
            assert(entities[entities.len() - 1].key_data == key);
        } else {
            if key_pool_of(front).contains(key) {
                let j = choose|j: int| 0 <= j < front.len() && #[trigger] front[j].key_data == key;
                assert(entities[j].key_data == key);
            }
            if key_pool_of(entities).contains(key) {
                let j = choose|j: int|
                    0 <= j < entities.len() && #[trigger] entities[j].key_data == key;
                assert(front[j].key_data == key);
            }
        }
    }
}

/// What a client sees.
pub struct ScreenView {
    /// The messages, newest first.
    pub history: Seq<StyledView>,
    /// The title on the border of the input area.
    pub title: Seq<char>,
    /// The line below the input area.
    pub statusline: Seq<char>,
}

/// The messages of `history` that session `viewer` gets to see, as they
/// read on screen, oldest first.
pub open spec fn visible(history: Seq<MessageView>, roster: Seq<EntityView>, viewer: usize) -> Seq<
    StyledView,
>
    decreases history.len(),
{
    if history.len() == 0 {
        Seq::empty()
    } else {
        let older = visible(history.drop_last(), roster, viewer);
        if history.last().visible_to(viewer) {
            older.push(history.last().text_content(roster))
        } else {
            older
        }
    }
}

/// The text of the dossier on `entity`: its name, its role and its
/// fingerprint, a line each.
pub open spec fn dossier(entity: EntityView) -> Seq<char> {
    "name: "@ + entity.persona.name + "\nrole: "@ + entity.persona.role.label()
        + "\nfingerprint: "@ + entity.fingerprint
}

/// The line of chat that `name` sends with `text`.
pub open spec fn chat_line(name: Seq<char>, text: Seq<char>) -> Seq<char> {
    "["@ + name + "]: "@ + text
}

/// The clients, with `title` as the title of those whose id is in `ids`.
pub open spec fn retitled(clients: Map<usize, ClientView>, ids: Seq<usize>, title: Seq<char>) -> Map<
    usize,
    ClientView,
> {
    Map::new(
        |id: usize| clients.contains_key(id),
        |id: usize|
            if ids.contains(id) {
                ClientView { title, ..clients[id] }
            } else {
                clients[id]
            },
    )
}

/// The text that is shown to somebody whose line was not accepted as a
/// command.  `text` is the line and `name` the name of who sent it.
pub open spec fn rejection(parsed: Parsed, text: Seq<char>, name: Seq<char>) -> Seq<char> {
    match parsed {
        Parsed::BadLookup(argument) => "failed to parse entity lookup: "@ + argument,
        Parsed::BadEntity(_) => "failed to parse SSH key string to an entity"@,
        Parsed::NotAnAdmin => "user "@ + debug_quoted(name) + " is not an admin"@,
        Parsed::Malformed => "failed to parse command "@ + debug_quoted(text),
        _ => Seq::empty(),
    }
}

impl ServerView {
    /// A server without entities, sessions or messages, with room for
    /// `capacity` messages.
    pub open spec fn empty(capacity: nat) -> ServerView {
        ServerView {
            roster: Seq::empty(),
            keychain: Seq::empty(),
            key_pool: Set::empty(),
            key_to_entity: Map::empty(),
            key_to_conns: Map::empty(),
            conn_to_entity: Map::empty(),
            clients: Map::empty(),
            app: AppView { history: Seq::empty(), capacity },
            next_id: 0,
        }
    }

    /// The key material of the entity in `slot`.
    pub open spec fn key_of(self, slot: usize) -> Seq<u8> {
        self.roster[slot as int].key_data
    }

    /// The entities of the keychain, in order.
    pub open spec fn entities(self) -> Seq<EntityView> {
        Seq::new(self.keychain.len(), |i: int| self.roster[self.keychain[i] as int])
    }

    /// The key material with which session `id` is logged in.
    pub open spec fn key_of_conn(self, id: usize) -> Seq<u8> {
        self.key_of(self.conn_to_entity[id])
    }

    /// Whether session `id` is logged in with a key of `keys`.
    pub open spec fn logged_in_with(self, id: usize, keys: Set<Seq<u8>>) -> bool {
        self.conn_to_entity.contains_key(id) && keys.contains(self.key_of_conn(id))
    }

    /// The keychain refers to slots of the roster, to none of them twice;
    /// the index by key has exactly the keys of the pool, and maps each to
    /// an entity of the keychain that has this key.
    pub open spec fn directory_wf(self) -> bool {
        &&& forall|i: int|
            0 <= i < self.keychain.len() ==> (#[trigger] self.keychain[i]) < self.roster.len()
        &&& self.keychain.no_duplicates()
        &&& self.key_to_entity.dom() == self.key_pool
        &&& forall|k: Seq<u8>| #[trigger]
            self.key_pool.contains(k) ==> {
                &&& self.key_to_entity[k] < self.roster.len()
                &&& self.key_of(self.key_to_entity[k]) == k
                &&& self.keychain.contains(self.key_to_entity[k])
            }
    }

    /// The sessions of a key are listed once each and are logged in with
    /// that key; a key without sessions is not listed; every session that is
    /// logged in is listed under its key and has an id below the next one;
    /// and every client is logged in.
    pub open spec fn sessions_wf(self) -> bool {
        &&& forall|k: Seq<u8>| #[trigger]
            self.key_to_conns.contains_key(k) ==> self.key_to_conns[k].len() > 0
                && self.key_to_conns[k].no_duplicates()
        &&& forall|k: Seq<u8>, i: int|
            self.key_to_conns.contains_key(k) && 0 <= i < self.key_to_conns[k].len() ==> {
                let id = #[trigger] self.key_to_conns[k][i];
                self.conn_to_entity.contains_key(id) && self.key_of_conn(id) == k
            }
        &&& forall|id: usize| #[trigger]
            self.conn_to_entity.contains_key(id) ==> {
                &&& self.conn_to_entity[id] < self.roster.len()
                &&& id < self.next_id
                &&& self.key_to_conns.contains_key(self.key_of_conn(id))
                &&& self.key_to_conns[self.key_of_conn(id)].contains(id)
            }
        &&& forall|id: usize| #[trigger]
            self.clients.contains_key(id) ==> self.conn_to_entity.contains_key(id)
    }

    /// The slots of the roster can be counted in a `usize`, and every
    /// entity in it has a sanitized name.
    pub open spec fn roster_wf(self) -> bool {
        &&& self.roster.len() <= usize::MAX
        &&& forall|slot: int|
            0 <= slot < self.roster.len() ==> is_sanitized(
                (#[trigger] self.roster[slot]).persona.name,
            )
    }

    /// What holds of every state of the server.
    pub open spec fn wf(self) -> bool {
        &&& self.roster_wf()
        &&& self.directory_wf()
        &&& self.sessions_wf()
        &&& forall|k: Seq<u8>| #[trigger]
            self.key_to_conns.contains_key(k) ==> self.key_pool.contains(k)
        &&& self.app.wf()
        &&& forall|i: int|
            0 <= i < self.app.history.len() ==> (#[trigger] self.app.history[i]).wf(
                self.roster.len(),
            )
    }

    /// Every session that is logged in has opened its channel.  Between a
    /// session's login and the opening of its channel this does not hold.
    pub open spec fn quiescent(self) -> bool {
        self.clients.dom() == self.conn_to_entity.dom()
    }

    /// The key pool is the key material of the keychain.  A ban withdraws a
    /// key from the pool and leaves the keychain alone; from then until the
    /// next reload this does not hold.
    pub open spec fn pool_matches_keychain(self) -> bool {
        self.key_pool == key_pool_of(self.entities())
    }

    /// The state after `message` was appended to the history.
    pub open spec fn enqueue(self, message: MessageView) -> ServerView {
        ServerView {
            app: AppView {
                history: appended(self.app.history, self.app.capacity, message),
                ..self.app
            },
            ..self
        }
    }

    /// The state after a connection was given the next id.
    pub open spec fn new_client(self) -> ServerView {
        if self.next_id < usize::MAX {
            ServerView { next_id: (self.next_id + 1) as usize, ..self }
        } else {
            self
        }
    }

    /// The state after session `id` was taken out of every index.
    pub open spec fn forget(self, id: usize) -> ServerView {
        if self.conn_to_entity.contains_key(id) {
            let key = self.key_of_conn(id);
            let rest = without(self.key_to_conns[key], id);
            ServerView {
                key_to_conns: if rest.len() == 0 {
                    self.key_to_conns.remove(key)
                } else {
                    self.key_to_conns.insert(key, rest)
                },
                conn_to_entity: self.conn_to_entity.remove(id),
                clients: self.clients.remove(id),
                ..self
            }
        } else {
            self
        }
    }

    /// Whether a login of session `id` with `key` is accepted: the key is
    /// in the index by key, and the id has been given out.
    pub open spec fn accepts(self, id: usize, key: Seq<u8>) -> bool {
        self.key_to_entity.contains_key(key) && id < self.next_id
    }

    /// The state after session `id` tried to log in with `key`.  A login
    /// that is accepted binds the session to the key's entity, in place of
    /// what it may have been bound to before; one that is rejected changes
    /// nothing.
    pub open spec fn auth_publickey(self, id: usize, key: Seq<u8>) -> ServerView {
        if self.accepts(id, key) {
            let fresh = self.forget(id);
            let listed = if fresh.key_to_conns.contains_key(key) {
                fresh.key_to_conns[key]
            } else {
                Seq::empty()
            };
            ServerView {
                conn_to_entity: fresh.conn_to_entity.insert(id, self.key_to_entity[key]),
                key_to_conns: fresh.key_to_conns.insert(key, listed.push(id)),
                ..fresh
            }
        } else {
            self
        }
    }

    /// The state after `action` of session `id` was announced.  Nothing is
    /// announced of a session that is not logged in.
    pub open spec fn announce(self, id: usize, action: Announcement) -> ServerView {
        if self.conn_to_entity.contains_key(id) {
            self.enqueue(MessageView::Announce { action, persona: self.conn_to_entity[id] })
        } else {
            self
        }
    }

    /// The state after session `id` opened its channel: it has a client
    /// with its entity's title and an empty status line, and its joining is
    /// announced.  A session that is not logged in gets no client.
    pub open spec fn channel_open_session(self, id: usize) -> ServerView {
        if self.conn_to_entity.contains_key(id) {
            let client = ClientView {
                title: self.roster[self.conn_to_entity[id] as int].persona.title(),
                statusline: Seq::empty(),
            };
            (ServerView { clients: self.clients.insert(id, client), ..self }).announce(
                id,
                Announcement::Joined,
            )
        } else {
            self
        }
    }

    /// The state after session `id` left: its leaving is announced, then it
    /// is taken out of every index.
    pub open spec fn leave(self, id: usize) -> ServerView {
        self.announce(id, Announcement::Left).forget(id)
    }

    /// The state after session `id` said `text` in the chat.
    pub open spec fn chat(self, id: usize, text: Seq<char>) -> ServerView {
        self.enqueue(
            MessageView::Plain(
                chat_line(self.roster[self.conn_to_entity[id] as int].persona.name, text),
            ),
        )
    }

    /// The state after `error` was shown to client `id`.
    pub open spec fn report(self, id: usize, error: Seq<char>) -> ServerView {
        if self.clients.contains_key(id) {
            ServerView {
                clients: self.clients.insert(
                    id,
                    ClientView { statusline: error, ..self.clients[id] },
                ),
                ..self
            }
        } else {
            self
        }
    }

    /// The state after `entity` was added: it is in a new slot at the end
    /// of the keychain, and its key is in the pool and logs in as it.
    pub open spec fn add(self, entity: EntityView) -> ServerView {
        let slot = self.roster.len() as usize;
        ServerView {
            roster: self.roster.push(entity),
            keychain: self.keychain.push(slot),
            key_pool: self.key_pool.insert(entity.key_data),
            key_to_entity: self.key_to_entity.insert(entity.key_data, slot),
            ..self
        }
    }

    /// The state after the first entity of the keychain that is named
    /// `from` was given the sanitized form of `to` as its name.  The clients
    /// of the sessions listed under its key get its new title.  Without an
    /// entity of that name nothing changes.
    pub open spec fn rename(self, from: Seq<char>, to: Seq<char>) -> ServerView {
        let i = position(self.entities(), LookupView::Name(from));
        if i < self.keychain.len() {
            let slot = self.keychain[i];
            let before = self.roster[slot as int];
            let after = EntityView {
                persona: PersonaView { name: sanitize(to), ..before.persona },
                ..before
            };
            let key = before.key_data;
            let listed = if self.key_to_conns.contains_key(key) {
                self.key_to_conns[key]
            } else {
                Seq::empty()
            };
            ServerView {
                roster: self.roster.update(slot as int, after),
                clients: retitled(self.clients, listed, after.persona.title()),
                ..self
            }
        } else {
            self
        }
    }

    /// The state after session `id` asked for the first entity of the
    /// keychain that `lookup` refers to: the dossier on it is appended to
    /// the history, for that session.  Without such an entity nothing
    /// changes.
    pub open spec fn info(self, id: usize, lookup: LookupView) -> ServerView {
        let i = position(self.entities(), lookup);
        if i < self.keychain.len() {
            self.enqueue(
                MessageView::Dossier { contents: dossier(self.entities()[i]), requested_by: id },
            )
        } else {
            self
        }
    }

    /// The state after the keys in `keys` lost their sessions: the sessions
    /// that were logged in with one of them are in no index any more.
    pub open spec fn evict(self, keys: Set<Seq<u8>>) -> ServerView {
        ServerView {
            key_to_conns: self.key_to_conns.remove_keys(keys),
            conn_to_entity: Map::new(
                |id: usize| self.conn_to_entity.contains_key(id) && !self.logged_in_with(id, keys),
                |id: usize| self.conn_to_entity[id],
            ),
            clients: Map::new(
                |id: usize| self.clients.contains_key(id) && !self.logged_in_with(id, keys),
                |id: usize| self.clients[id],
            ),
            ..self
        }
    }

    /// The clients whose channels are closed when the keys in `keys` lose
    /// their sessions.
    pub open spec fn evicted(self, keys: Set<Seq<u8>>) -> Set<usize> {
        Set::new(|id: usize| self.clients.contains_key(id) && self.logged_in_with(id, keys))
    }

    /// The key that a ban by `lookup` withdraws, if `lookup` refers to an
    /// entity of the keychain.
    pub open spec fn ban_target(self, lookup: LookupView) -> Option<Seq<u8>> {
        let i = position(self.entities(), lookup);
        if i < self.keychain.len() {
            Some(self.entities()[i].key_data)
        } else {
            None
        }
    }

    /// Whether a ban by `lookup` from session `id` would withdraw the key
    /// that the session itself is logged in with.
    pub open spec fn bans_self(self, id: usize, lookup: LookupView) -> bool {
        self.ban_target(lookup) matches Some(key) && self.logged_in_with(id, set![key])
    }

    /// The state after session `id` banned the first entity of the keychain
    /// that `lookup` refers to: its key is out of the pool and of the index
    /// by key, and has lost its sessions.  The keychain keeps the entity.
    /// Nothing changes where `lookup` refers to no entity, or to one with
    /// the key of session `id` itself.
    pub open spec fn ban(self, id: usize, lookup: LookupView) -> ServerView {
        match self.ban_target(lookup) {
            Some(key) => if self.bans_self(id, lookup) {
                self
            } else {
                ServerView {
                    key_pool: self.key_pool.remove(key),
                    key_to_entity: self.key_to_entity.remove(key),
                    ..self.evict(set![key])
                }
            },
            None => self,
        }
    }

    /// The state after session `id` issued `command`.  Writing the keychain
    /// out and asking for a reload change nothing by themselves.
    pub open spec fn run_command(self, id: usize, command: CommandView) -> ServerView {
        match command {
            CommandView::Add(entity) => self.add(entity),
            CommandView::Rename { from, to } => self.rename(from, to),
            CommandView::Commit => self,
            CommandView::Info(lookup) => self.info(id, lookup),
            CommandView::Ban(lookup) => self.ban(id, lookup),
            CommandView::Reload => self,
        }
    }

    /// The state after client `id` sent the line `text`.  The line is read
    /// with the role and name of the session's entity.  Chat is appended to
    /// the history under that name; a command is run; what is refused, and a
    /// ban of one's own key, is answered in the client's status line.
    /// Without a client `id` nothing changes.
    pub open spec fn handle_message(self, id: usize, text: Seq<char>) -> ServerView {
        if self.clients.contains_key(id) && self.conn_to_entity.contains_key(id) {
            let persona = self.roster[self.conn_to_entity[id] as int].persona;
            match parse_command(text, persona.role == Role::Admin) {
                Parsed::Chat => self.chat(id, text),
                Parsed::Command(command) => if command matches CommandView::Ban(lookup)
                    && self.bans_self(id, lookup) {
                    self.report(id, "users cannot ban themselves"@)
                } else {
                    self.run_command(id, command)
                },
                refused => self.report(id, rejection(refused, text, persona.name)),
            }
        } else {
            self
        }
    }

    /// What client `id` sees: the messages meant for its eyes, newest
    /// first, each as it reads now, and its own title and status line.
    pub open spec fn screen(self, id: usize) -> ScreenView {
        ScreenView {
            history: visible(self.app.history, self.roster, id).reverse(),
            title: self.clients[id].title,
            statusline: self.clients[id].statusline,
        }
    }

    /// The command that is run when client `id` sends the line `text`, if
    /// the line is a command and is not refused.
    pub open spec fn handled_command(self, id: usize, text: Seq<char>) -> Option<CommandView> {
        if self.clients.contains_key(id) && self.conn_to_entity.contains_key(id) {
            let persona = self.roster[self.conn_to_entity[id] as int].persona;
            match parse_command(text, persona.role == Role::Admin) {
                Parsed::Command(command) => if command matches CommandView::Ban(lookup)
                    && self.bans_self(id, lookup) {
                    None
                } else {
                    Some(command)
                },
                _ => None,
            }
        } else {
            None
        }
    }

    /// The keys of the pool that `file` no longer holds.
    pub open spec fn strays(self, file: AuthFileView) -> Set<Seq<u8>> {
        self.key_pool.difference(file.key_pool)
    }

    /// The state after the authorization file was loaded again as `file`:
    /// the keys that the file no longer holds have lost their sessions; the
    /// file's entities are in new slots, which make up the keychain; the
    /// pool is the file's; and each key logs in as the last entity that the
    /// file gives it.
    pub open spec fn reload(self, file: AuthFileView) -> ServerView {
        let base = self.roster.len();
        ServerView {
            roster: self.roster + file.entities,
            keychain: Seq::new(file.entities.len(), |i: int| (base + i) as usize),
            key_pool: file.key_pool,
            key_to_entity: Map::new(
                |k: Seq<u8>| file.key_pool.contains(k),
                |k: Seq<u8>| (base + last_with_key(file.entities, k)) as usize,
            ),
            ..self.evict(self.strays(file))
        }
    }
}

} // verus!
