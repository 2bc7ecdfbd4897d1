use lounge::authfile::read;
use lounge::command::Command;
use lounge::entity::{Entity, Role};
use lounge::error::LoungeError;
use lounge::lookup::EntityLookup;
use lounge::message::{Announcement, Color, Message, Styled};
use lounge::server::{close_outcome, AppServer, Effect, Input};
use lounge::ui::Viewport;

const ALICE: &str = "ssh-ed25519 AAAAC3NzaC1lZDI1NTE5AAAAICvYBsl/DgCvGh/DMo+nY6kmlyPI24+sT5OvcdsYbW6Q";
const BOB: &str = "ssh-ed25519 AAAAC3NzaC1lZDI1NTE5AAAAIIG2N9j80sbaY1nmljEToRcN55XktyW4TR4LTP2exYzp";
const CAROL: &str = "ssh-ed25519 AAAAC3NzaC1lZDI1NTE5AAAAIEwm2QdMJ9ie3lknDArBS3HgcbFSOVGfdUdLLzumNIH1";
const DAVE: &str = "ssh-ed25519 AAAAC3NzaC1lZDI1NTE5AAAAIGHqCAP4hTUjt3fUFKzjEwzU0/kt4s1/+GlcM315wu7u";
const ALICE_FINGERPRINT: &str = "SHA256:F9PpGsngzsZUNdILKaPPnVMowTBXWl43kYojRg2Y8lg";

fn key(line: &str) -> Vec<u8> {
    Entity::from_str(line).ok().unwrap().key_data()
}

fn server(contents: &str) -> AppServer {
    AppServer::new(read(contents).ok().unwrap(), 128).unwrap()
}

/// Alice is an admin, Bob is not.
fn lounge() -> AppServer {
    server(&format!("{} alice:admin\n{} bob\n", ALICE, BOB))
}

fn login(server: &mut AppServer, line: &str) -> usize {
    let id = server.new_client().unwrap();
    assert!(server.auth_publickey(id, &key(line)));
    assert!(server.channel_open_session(id));
    id
}

fn texts(server: &AppServer, id: usize) -> Vec<String> {
    server.render_client(id).unwrap().history.into_iter().map(|t| t.content).collect()
}

fn statusline(server: &AppServer, id: usize) -> String {
    server.render_client(id).unwrap().statusline
}

fn title(server: &AppServer, id: usize) -> String {
    server.render_client(id).unwrap().title
}

fn names(server: &AppServer) -> Vec<String> {
    server.entities().iter().map(|e| e.name()).collect()
}

#[test]
fn a_history_size_of_zero_is_refused() {
    assert!(AppServer::new(read("").ok().unwrap(), 0).is_none());
    assert!(AppServer::new(read("").ok().unwrap(), 1).is_some());
}

#[test]
fn a_new_server_holds_the_file() {
    let server = lounge();
    assert_eq!(names(&server), vec!["alice", "bob"]);
    assert!(server.is_authorized(&key(ALICE)));
    assert!(server.is_authorized(&key(BOB)));
    assert!(!server.is_authorized(&key(CAROL)));
    assert_eq!(server.next_id(), 0);
    assert_eq!(server.history(), Vec::<Message>::new());
    assert_eq!(server.client_ids(), Vec::<usize>::new());
    assert_eq!(server.render().len(), 0);
}

#[test]
fn ids_count_up() {
    let mut server = lounge();
    assert_eq!(server.new_client(), Some(0));
    assert_eq!(server.new_client(), Some(1));
    assert_eq!(server.new_client(), Some(2));
    assert_eq!(server.next_id(), 3);
}

#[test]
fn happy_login() {
    let mut server = server(&format!("{} alice\n", ALICE));
    let id = server.new_client().unwrap();
    assert!(server.auth_publickey(id, &key(ALICE)));
    assert!(!server.has_client(id));
    assert_eq!(server.entity(id).unwrap().name(), "alice");
    assert_eq!(server.history(), Vec::<Message>::new());
    assert!(server.channel_open_session(id));
    assert!(server.has_client(id));
    assert_eq!(
        server.history(),
        vec![Message::Announce { action: Announcement::Joined, persona: 0 }]
    );
    let screen = server.render_client(id).unwrap();
    assert_eq!(
        screen.history,
        vec![Styled {
            content: "alice has joined the chat with normal privileges".to_string(),
            color: Color::Green
        }]
    );
    assert_eq!(screen.title, "[alice normal]");
    assert_eq!(screen.statusline, "");
}

#[test]
fn an_unknown_key_is_rejected() {
    let mut server = lounge();
    let id = server.new_client().unwrap();
    assert!(!server.auth_publickey(id, &key(CAROL)));
    assert!(server.entity(id).is_none());
    assert!(!server.has_client(id));
    assert_eq!(server.history(), Vec::<Message>::new());
    assert!(!server.channel_open_session(id));
    assert!(!server.has_client(id));
    assert_eq!(server.history(), Vec::<Message>::new());
    assert_eq!(server.client_ids(), Vec::<usize>::new());
}

#[test]
fn an_id_that_was_not_given_out_is_rejected() {
    let mut server = lounge();
    assert!(!server.auth_publickey(0, &key(ALICE)));
    assert!(!server.auth_publickey(17, &key(ALICE)));
    assert!(server.entity(0).is_none());
}

#[test]
fn one_key_may_have_several_sessions() {
    let mut server = lounge();
    let first = login(&mut server, BOB);
    let second = login(&mut server, BOB);
    assert_ne!(first, second);
    assert_eq!(server.entity(first).unwrap().name(), "bob");
    assert_eq!(server.entity(second).unwrap().name(), "bob");
    let mut ids = server.client_ids();
    ids.sort();
    assert_eq!(ids, vec![first, second]);
    assert_eq!(server.data(first, &[3]).0, Input::Disconnect);
    assert_eq!(server.client_ids(), vec![second]);
    assert_eq!(server.entity(second).unwrap().name(), "bob");
    assert!(server.entity(first).is_none());
}

#[test]
fn a_second_login_binds_the_session_anew() {
    let mut server = lounge();
    let id = login(&mut server, BOB);
    assert!(server.auth_publickey(id, &key(ALICE)));
    assert_eq!(server.entity(id).unwrap().name(), "alice");
    assert!(!server.has_client(id));
    assert!(!server.auth_publickey(id, &key(CAROL)));
    assert_eq!(server.entity(id).unwrap().name(), "alice");
}

#[test]
fn chat_goes_to_everybody() {
    let mut server = lounge();
    let alice = login(&mut server, ALICE);
    let bob = login(&mut server, BOB);
    assert_eq!(server.handle_message(bob, "hello there"), Effect::Nothing);
    assert_eq!(server.handle_message(alice, "hi\nbob"), Effect::Nothing);
    let expected = vec![
        "[alice]: hi\nbob",
        "[bob]: hello there",
        "bob has joined the chat with normal privileges",
        "alice has joined the chat with admin privileges",
    ];
    assert_eq!(texts(&server, alice), expected);
    assert_eq!(texts(&server, bob), expected);
    let screen = server.render_client(bob).unwrap();
    assert_eq!(screen.history[0].color, Color::Default);
    assert_eq!(screen.history[2].color, Color::Green);
}

#[test]
fn an_empty_line_is_chat() {
    let mut server = lounge();
    let bob = login(&mut server, BOB);
    assert_eq!(server.handle_message(bob, ""), Effect::Nothing);
    assert_eq!(texts(&server, bob)[0], "[bob]: ");
}

#[test]
fn a_line_from_nobody_changes_nothing() {
    let mut server = lounge();
    let id = server.new_client().unwrap();
    assert_eq!(server.handle_message(id, "hello"), Effect::Nothing);
    assert!(server.auth_publickey(id, &key(ALICE)));
    assert_eq!(server.handle_message(id, "/commit"), Effect::Nothing);
    assert_eq!(server.history(), Vec::<Message>::new());
}

#[test]
fn render_shows_every_client_its_screen() {
    let mut server = lounge();
    let alice = login(&mut server, ALICE);
    let bob = login(&mut server, BOB);
    let mut screens = server.render();
    screens.sort_by_key(|(id, _)| *id);
    assert_eq!(screens.len(), 2);
    assert_eq!(screens[0].0, alice);
    assert_eq!(screens[1].0, bob);
    assert_eq!(screens[0].1, server.render_client(alice).unwrap());
    assert_eq!(screens[1].1, server.render_client(bob).unwrap());
    assert_eq!(screens[0].1.title, "[alice admin]");
    assert_eq!(screens[1].1.title, "[bob normal]");
    assert!(server.render_client(99).is_none());
}

#[test]
fn leaving_is_announced() {
    let mut server = lounge();
    let alice = login(&mut server, ALICE);
    let bob = login(&mut server, BOB);
    assert_eq!(server.data(bob, &[3]).0, Input::Disconnect);
    assert!(!server.has_client(bob));
    assert!(server.entity(bob).is_none());
    assert!(server.has_client(alice));
    assert_eq!(texts(&server, alice)[0], "bob with normal privileges has left the chat");
    assert_eq!(
        server.history().last(),
        Some(&Message::Announce { action: Announcement::Left, persona: 1 })
    );
    assert!(server.is_authorized(&key(BOB)));
    let again = login(&mut server, BOB);
    assert!(again > bob);
}

#[test]
fn input_is_told_apart() {
    let mut server = lounge();
    let alice = login(&mut server, ALICE);
    assert_eq!(server.data(alice, &[13]).0, Input::Submit);
    assert_eq!(server.data(alice, &[27, 13]).0, Input::Newline);
    assert_eq!(server.data(alice, &[]).0, Input::Nothing);
    assert_eq!(server.data(alice, b"a").0, Input::Keys);
    assert_eq!(server.data(alice, &[27]).0, Input::Keys);
    assert_eq!(server.data(alice, &[13, 13]).0, Input::Keys);
    assert_eq!(server.data(alice, &[3, 3]).0, Input::Keys);
    assert_eq!(server.data(alice, &[27, 13, 13]).0, Input::Keys);
    assert_eq!(server.data(alice, &[27, 91, 65]).0, Input::Keys);
    assert!(server.has_client(alice));
    assert_eq!(server.history().len(), 1);
}

#[test]
fn input_without_a_client() {
    let mut server = lounge();
    let id = server.new_client().unwrap();
    assert_eq!(server.data(id, &[13]).0, Input::Submit);
    assert_eq!(server.data(id, &[27, 13]).0, Input::Nothing);
    assert_eq!(server.data(id, b"abc").0, Input::Nothing);
    assert_eq!(server.data(id, &[]).0, Input::Nothing);
    assert_eq!(server.data(id, &[3]).0, Input::Disconnect);
    assert_eq!(server.history(), Vec::<Message>::new());
}

#[test]
fn terminal_sizes() {
    let mut server = lounge();
    let alice = login(&mut server, ALICE);
    let area = Viewport { x: 0, y: 0, width: 120, height: 40 };
    assert_eq!(server.pty_request(alice, 120, 40), Some(area));
    assert_eq!(server.window_change_request(alice, 120, 40), Some(area));
    assert_eq!(
        server.window_change_request(alice, 65536 + 5, 65535),
        Some(Viewport { x: 0, y: 0, width: 5, height: 65535 })
    );
    assert_eq!(server.pty_request(alice + 1, 120, 40), None);
    assert_eq!(server.window_change_request(alice + 1, 120, 40), None);
}

#[test]
fn commands_of_others_than_admins_are_refused() {
    let mut server = lounge();
    let alice = login(&mut server, ALICE);
    let bob = login(&mut server, BOB);
    for line in ["/ban alice", "/commit", "/reload", "/rename alice x", "/add x"] {
        assert_eq!(server.handle_message(bob, line), Effect::Nothing);
        assert_eq!(statusline(&server, bob), "user \"bob\" is not an admin");
    }
    assert_eq!(statusline(&server, alice), "");
    assert!(server.has_client(alice));
    assert!(server.is_authorized(&key(ALICE)));
    assert_eq!(names(&server), vec!["alice", "bob"]);
    assert_eq!(server.history().len(), 2);
}

#[test]
fn malformed_commands_are_answered_in_the_statusline() {
    let mut server = lounge();
    let alice = login(&mut server, ALICE);
    assert_eq!(server.handle_message(alice, "/ban"), Effect::Nothing);
    assert_eq!(statusline(&server, alice), "failed to parse command \"/ban\"");
    assert_eq!(server.handle_message(alice, "/info a:b"), Effect::Nothing);
    assert_eq!(statusline(&server, alice), "failed to parse entity lookup: a:b");
    assert_eq!(server.handle_message(alice, "/add nonsense"), Effect::Nothing);
    assert_eq!(statusline(&server, alice), "failed to parse SSH key string to an entity");
    assert_eq!(server.history().len(), 1);
}

#[test]
fn ban_eviction() {
    let mut server = lounge();
    let admin = login(&mut server, ALICE);
    let victim = login(&mut server, BOB);
    assert_eq!(server.handle_message(admin, "/ban bob"), Effect::Close(vec![victim]));
    assert!(!server.is_authorized(&key(BOB)));
    assert!(!server.has_client(victim));
    assert!(server.entity(victim).is_none());
    assert_eq!(server.client_ids(), vec![admin]);
    assert!(server.has_client(admin));
    assert!(server.is_authorized(&key(ALICE)));
    assert_eq!(statusline(&server, admin), "");
    let id = server.new_client().unwrap();
    assert!(!server.auth_publickey(id, &key(BOB)));
}

#[test]
fn nobody_bans_themselves() {
    let mut server = lounge();
    let admin = login(&mut server, ALICE);
    let victim = login(&mut server, BOB);
    let before = server.history();
    assert_eq!(server.handle_message(admin, "/ban alice"), Effect::Nothing);
    assert_eq!(statusline(&server, admin), "users cannot ban themselves");
    assert!(server.is_authorized(&key(ALICE)));
    assert!(server.is_authorized(&key(BOB)));
    assert!(server.has_client(admin));
    assert!(server.has_client(victim));
    assert_eq!(server.history(), before);
    assert_eq!(names(&server), vec!["alice", "bob"]);
    let lookup = EntityLookup::Sha256(ALICE_FINGERPRINT.to_string());
    assert!(matches!(server.ban(admin, &lookup), Err(LoungeError::NoBanSelf)));
    assert!(matches!(
        server.run_command(admin, Command::Ban(EntityLookup::Name("alice".to_string()))),
        Err(LoungeError::NoBanSelf)
    ));
    assert!(server.is_authorized(&key(ALICE)));
}

#[test]
fn a_ban_closes_every_session_of_the_key() {
    let mut server = lounge();
    let admin = login(&mut server, ALICE);
    let first = login(&mut server, BOB);
    let pending = server.new_client().unwrap();
    assert!(server.auth_publickey(pending, &key(BOB)));
    let second = login(&mut server, BOB);
    match server.ban(admin, &EntityLookup::Name("bob".to_string())) {
        Ok(closed) => assert_eq!(closed, vec![first, second]),
        Err(e) => panic!("{}", e.message()),
    }
    assert!(server.entity(pending).is_none());
    assert!(!server.channel_open_session(pending));
    assert_eq!(server.client_ids(), vec![admin]);
}

#[test]
fn a_ban_of_nobody_changes_nothing() {
    let mut server = lounge();
    let admin = login(&mut server, ALICE);
    assert_eq!(server.handle_message(admin, "/ban nobody"), Effect::Close(vec![]));
    assert!(server.is_authorized(&key(BOB)));
    assert_eq!(statusline(&server, admin), "");
}

#[test]
fn a_ban_leaves_the_keychain_alone() {
    let mut server = lounge();
    let admin = login(&mut server, ALICE);
    assert_eq!(server.handle_message(admin, "/ban bob"), Effect::Close(vec![]));
    assert!(!server.is_authorized(&key(BOB)));
    assert_eq!(names(&server), vec!["alice", "bob"]);
    assert_eq!(
        server.handle_message(admin, "/commit"),
        Effect::Commit(format!("{} alice:admin\n{} bob", ALICE, BOB))
    );
}

#[test]
fn reload_removes_stray() {
    let mut server = server(&format!("{} alice:admin\n{} bob\n", ALICE, BOB));
    let alice = login(&mut server, ALICE);
    let bob = login(&mut server, BOB);
    assert_eq!(server.handle_message(alice, "/reload"), Effect::Reload);
    assert!(server.has_client(bob));
    let rewritten = read(&format!("{} alice:admin\n", ALICE)).ok().unwrap();
    assert_eq!(server.reload(rewritten), vec![bob]);
    assert!(!server.has_client(bob));
    assert!(server.entity(bob).is_none());
    assert!(server.has_client(alice));
    assert_eq!(server.entity(alice).unwrap().name(), "alice");
    assert!(server.is_authorized(&key(ALICE)));
    assert!(!server.is_authorized(&key(BOB)));
    assert_eq!(names(&server), vec!["alice"]);
    let id = server.new_client().unwrap();
    assert!(!server.auth_publickey(id, &key(BOB)));
}

#[test]
fn reload_admits_new_keys() {
    let mut server = lounge();
    let alice = login(&mut server, ALICE);
    let file = read(&format!("{} carol\n{} alice:admin\n", CAROL, ALICE)).ok().unwrap();
    assert_eq!(server.reload(file), Vec::<usize>::new());
    assert_eq!(names(&server), vec!["carol", "alice"]);
    assert!(server.has_client(alice));
    let carol = login(&mut server, CAROL);
    assert_eq!(title(&server, carol), "[carol normal]");
    assert_eq!(texts(&server, alice)[0], "carol has joined the chat with normal privileges");
}

#[test]
fn reload_keeps_the_sessions_of_kept_keys_as_they_were() {
    let mut server = lounge();
    let bob = login(&mut server, BOB);
    let file = read(&format!("{} robert:admin\n", BOB)).ok().unwrap();
    assert_eq!(server.reload(file), Vec::<usize>::new());
    assert_eq!(names(&server), vec!["robert"]);
    assert_eq!(server.entity(bob).unwrap().name(), "bob");
    assert_eq!(server.entity(bob).unwrap().role(), Role::Normal);
    let again = login(&mut server, BOB);
    assert_eq!(server.entity(again).unwrap().name(), "robert");
    assert_eq!(server.entity(again).unwrap().role(), Role::Admin);
}

#[test]
fn the_last_line_of_a_key_decides_who_logs_in() {
    let mut server = server(&format!("{} first\n{} bob\n{} second:admin\n", ALICE, BOB, ALICE));
    let id = login(&mut server, ALICE);
    assert_eq!(server.entity(id).unwrap().name(), "second");
    assert_eq!(names(&server), vec!["first", "bob", "second"]);
}

#[test]
fn add_then_commit_round_trip() {
    let mut server = lounge();
    let admin = login(&mut server, ALICE);
    let dave = Entity::from_str(&format!("{} d a v e", DAVE)).ok().unwrap();
    assert_eq!(server.run_command(admin, Command::Add(dave)).ok(), Some(Effect::Nothing));
    assert!(server.is_authorized(&key(DAVE)));
    let before = server.entities();
    let written = match server.handle_message(admin, "/commit") {
        Effect::Commit(text) => text,
        other => panic!("{:?}", other),
    };
    assert_eq!(written, format!("{} alice:admin\n{} bob\n{} dave", ALICE, BOB, DAVE));
    let again = read(&written).ok().unwrap();
    assert_eq!(again.entities().len(), before.len());
    for (a, b) in again.entities().iter().zip(before.iter()) {
        assert_eq!(a.name(), b.name());
        assert_eq!(a.role(), b.role());
        assert_eq!(a.key_data(), b.key_data());
        assert_eq!(a.fingerprint(), b.fingerprint());
    }
    let id = login(&mut server, DAVE);
    assert_eq!(title(&server, id), "[dave normal]");
}

#[test]
fn commit_of_an_empty_keychain() {
    let server = server("");
    assert_eq!(server.commit(), Some(String::new()));
}

#[test]
fn dossier_privacy() {
    let mut server = lounge();
    let admin = login(&mut server, ALICE);
    let bob = login(&mut server, BOB);
    assert_eq!(server.handle_message(admin, "/info alice"), Effect::Nothing);
    let dossier = format!("name: alice\nrole: admin\nfingerprint: {}", ALICE_FINGERPRINT);
    assert_eq!(
        server.history().last(),
        Some(&Message::Dossier { contents: dossier.clone(), requested_by: admin })
    );
    assert!(!texts(&server, bob).contains(&dossier));
    assert_eq!(texts(&server, bob).len(), 2);
    assert_eq!(
        server.render_client(admin).unwrap().history[0],
        Styled { content: dossier, color: Color::LightCyan }
    );
    assert_eq!(texts(&server, admin).len(), 3);
}

#[test]
fn info_is_open_to_everybody_and_finds_by_fingerprint() {
    let mut server = lounge();
    let bob = login(&mut server, BOB);
    let line = format!("/info {}", ALICE_FINGERPRINT);
    assert_eq!(server.handle_message(bob, &line), Effect::Nothing);
    assert_eq!(
        texts(&server, bob)[0],
        format!("name: alice\nrole: admin\nfingerprint: {}", ALICE_FINGERPRINT)
    );
    assert_eq!(server.handle_message(bob, "/info nobody"), Effect::Nothing);
    assert_eq!(texts(&server, bob).len(), 2);
    assert_eq!(statusline(&server, bob), "");
}

#[test]
fn rename_is_seen_everywhere() {
    let mut server = lounge();
    let admin = login(&mut server, ALICE);
    let bob = login(&mut server, BOB);
    let other = login(&mut server, BOB);
    assert_eq!(server.handle_message(admin, "/rename bob B o b b y!"), Effect::Nothing);
    assert_eq!(statusline(&server, admin), "failed to parse command \"/rename bob B o b b y!\"");
    assert_eq!(server.handle_message(admin, "/rename bob R<o>b"), Effect::Nothing);
    assert_eq!(names(&server), vec!["alice", "Rob"]);
    assert_eq!(title(&server, bob), "[Rob normal]");
    assert_eq!(title(&server, other), "[Rob normal]");
    assert_eq!(title(&server, admin), "[alice admin]");
    assert_eq!(server.entity(bob).unwrap().name(), "Rob");
    assert_eq!(server.handle_message(bob, "hi"), Effect::Nothing);
    let shown = texts(&server, admin);
    assert_eq!(shown[0], "[Rob]: hi");
    assert!(shown.contains(&"Rob has joined the chat with normal privileges".to_string()));
    assert!(!shown.contains(&"bob has joined the chat with normal privileges".to_string()));
    assert_eq!(server.history().len(), 4);
}

#[test]
fn rename_of_nobody_changes_nothing() {
    let mut server = lounge();
    let admin = login(&mut server, ALICE);
    assert_eq!(server.handle_message(admin, "/rename nobody somebody"), Effect::Nothing);
    assert_eq!(names(&server), vec!["alice", "bob"]);
    assert_eq!(statusline(&server, admin), "");
}

#[test]
fn rename_takes_the_first_of_that_name() {
    let mut server = server(&format!("{} twin\n{} twin\n{} root:admin\n", ALICE, BOB, CAROL));
    server.rename("twin".to_string(), "one");
    assert_eq!(names(&server), vec!["one", "twin", "root"]);
}

#[test]
fn reports_reach_the_statusline() {
    let mut server = lounge();
    let admin = login(&mut server, ALICE);
    server.report(admin, &LoungeError::ClientDisconnectFailed(12));
    assert_eq!(statusline(&server, admin), "failed to disconnect client with id 12");
    assert_eq!(title(&server, admin), "[alice admin]");
    server.report(admin + 5, &LoungeError::NoBanSelf);
    assert_eq!(server.client_ids(), vec![admin]);
}

#[test]
fn the_first_failed_closing_is_the_error() {
    assert!(close_outcome(&vec![]).is_ok());
    assert!(close_outcome(&vec![(4, true), (9, true)]).is_ok());
    match close_outcome(&vec![(4, true), (9, false), (2, false)]) {
        Err(LoungeError::ClientDisconnectFailed(id)) => assert_eq!(id, 9),
        _ => panic!("a failed closing went unnoticed"),
    }
}

#[test]
fn announcements_without_a_login_are_dropped() {
    let mut server = lounge();
    let id = server.new_client().unwrap();
    server.announce(id, Announcement::Joined);
    assert_eq!(server.history(), Vec::<Message>::new());
    assert!(server.auth_publickey(id, &key(BOB)));
    server.announce(id, Announcement::Left);
    assert_eq!(
        server.history(),
        vec![Message::Announce { action: Announcement::Left, persona: 1 }]
    );
}

#[test]
fn a_small_history_forgets() {
    let mut server = AppServer::new(read(&format!("{} bob\n", BOB)).ok().unwrap(), 2).unwrap();
    let bob = login(&mut server, BOB);
    server.handle_message(bob, "one");
    server.handle_message(bob, "two");
    assert_eq!(texts(&server, bob), vec!["[bob]: two", "[bob]: one"]);
}

#[test]
fn a_lost_connection_is_forgotten_without_a_word() {
    let mut server = lounge();
    let alice = login(&mut server, ALICE);
    let bob = login(&mut server, BOB);
    let before = server.history();
    server.forget(bob);
    assert!(!server.has_client(bob));
    assert!(server.entity(bob).is_none());
    assert_eq!(server.history(), before);
    assert_eq!(server.client_ids(), vec![alice]);
    server.forget(bob);
    server.forget(99);
    assert_eq!(server.client_ids(), vec![alice]);
    assert!(server.is_authorized(&key(BOB)));
}

#[test]
fn the_keychain_and_the_pool_agree_until_a_ban() {
    let mut server = lounge();
    let admin = login(&mut server, ALICE);
    for entity in server.entities() {
        assert!(server.is_authorized(&entity.key_data()));
    }
    let carol = Entity::from_str(&format!("{} carol", CAROL)).ok().unwrap();
    assert!(server.run_command(admin, Command::Add(carol)).is_ok());
    for entity in server.entities() {
        assert!(server.is_authorized(&entity.key_data()));
    }
    assert_eq!(server.handle_message(admin, "/ban carol"), Effect::Close(vec![]));
    assert_eq!(names(&server), vec!["alice", "bob", "carol"]);
    assert!(!server.is_authorized(&key(CAROL)));
    let file = read(&server.commit().unwrap()).ok().unwrap();
    assert_eq!(server.reload(file), Vec::<usize>::new());
    for entity in server.entities() {
        assert!(server.is_authorized(&entity.key_data()));
    }
    assert!(server.is_authorized(&key(CAROL)));
}

#[test]
fn defaults() {
    assert_eq!(lounge::server::DEFAULT_HISTORY_SIZE, 128);
    assert_eq!(lounge::server::DEFAULT_PORT, 2222);
    assert_eq!(lounge::server::DEFAULT_HOST, "0.0.0.0");
    assert_eq!(lounge::server::DEFAULT_AUTHFILE, "./Authfile");
    assert_eq!(lounge::server::INACTIVITY_TIMEOUT_SECS, 3600);
    assert_eq!(lounge::server::AUTH_REJECTION_SECS, 3);
    assert_eq!(lounge::server::AUTH_REJECTION_INITIAL_SECS, 0);
}

#[test]
fn a_key_line_is_added_from_the_chat() {
    let mut server = lounge();
    let admin = login(&mut server, ALICE);
    let line = format!("/add {} c a r o l", CAROL);
    assert_eq!(server.handle_message(admin, &line), Effect::Nothing);
    assert_eq!(statusline(&server, admin), "");
    assert_eq!(names(&server), vec!["alice", "bob", "carol"]);
    assert!(server.is_authorized(&key(CAROL)));
    let written = match server.handle_message(admin, "/commit") {
        Effect::Commit(text) => text,
        other => panic!("{:?}", other),
    };
    assert_eq!(written, format!("{} alice:admin\n{} bob\n{} carol", ALICE, BOB, CAROL));
    let again = read(&written).ok().unwrap();
    assert_eq!(again.entities(), &server.entities());
    let carol = login(&mut server, CAROL);
    assert_eq!(title(&server, carol), "[carol normal]");
    let bob = login(&mut server, BOB);
    assert_eq!(server.handle_message(bob, &line), Effect::Nothing);
    assert_eq!(statusline(&server, bob), "user \"bob\" is not an admin");
}

#[test]
fn the_leaving_session_is_drawn_once_more() {
    let mut server = lounge();
    let alice = login(&mut server, ALICE);
    let bob = login(&mut server, BOB);
    let (input, mut screens) = server.data(bob, &[3]);
    assert_eq!(input, Input::Disconnect);
    screens.sort_by_key(|(id, _)| *id);
    assert_eq!(screens.len(), 2);
    assert_eq!(screens[0].0, alice);
    assert_eq!(screens[1].0, bob);
    for (_, screen) in &screens {
        assert_eq!(screen.history[0].content, "bob with normal privileges has left the chat");
    }
    assert!(!server.has_client(bob));
    assert_eq!(server.data(alice, &[13]).1.len(), 0);
    assert_eq!(server.data(alice, b"x").1.len(), 0);
}
