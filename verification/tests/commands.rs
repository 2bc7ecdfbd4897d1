use lounge::command::{argument, Command};
use lounge::entity::{Entity, EntityError, Role};
use lounge::error::LoungeError;
use lounge::lookup::EntityLookup;

const ALICE: &str = "AAAAC3NzaC1lZDI1NTE5AAAAICvYBsl/DgCvGh/DMo+nY6kmlyPI24+sT5OvcdsYbW6Q";

fn parse(text: &str, role: Role) -> Result<Option<Command>, LoungeError> {
    Command::parse(text, role, "carol".to_string())
}

fn words(parts: &[&str]) -> Vec<String> {
    parts.iter().map(|s| s.to_string()).collect()
}

#[test]
fn info_is_for_everybody() {
    for role in [Role::Admin, Role::Normal] {
        match parse("/info alice", role) {
            Ok(Some(Command::Info(lookup))) => {
                assert_eq!(lookup, EntityLookup::Name("alice".to_string()))
            }
            _ => panic!("/info alice was not read as Info"),
        }
    }
    match parse("/info SHA256:abc", Role::Normal) {
        Ok(Some(Command::Info(lookup))) => {
            assert_eq!(lookup, EntityLookup::Sha256("SHA256:abc".to_string()))
        }
        _ => panic!("/info with a fingerprint was not read as Info"),
    }
}

#[test]
fn info_with_a_bad_lookup() {
    match parse("/info a:b", Role::Normal) {
        Err(LoungeError::EntityLookup(text)) => assert_eq!(text, "a:b"),
        _ => panic!("a bad lookup went through"),
    }
}

#[test]
fn admin_commands_are_refused_to_others() {
    for text in ["/add x", "/rename a b", "/ban alice", "/commit", "/reload", "/add", "/ban", "/rename", "/commit now", "/reload  "] {
        match parse(text, Role::Normal) {
            Err(LoungeError::NotAnAdmin(name)) => assert_eq!(name, "carol"),
            _ => panic!("{:?} was not refused", text),
        }
    }
}

#[test]
fn admin_commands() {
    assert!(matches!(parse("/commit", Role::Admin), Ok(Some(Command::Commit))));
    assert!(matches!(parse("/reload", Role::Admin), Ok(Some(Command::Reload))));
    match parse("/ban alice", Role::Admin) {
        Ok(Some(Command::Ban(lookup))) => assert_eq!(lookup, EntityLookup::Name("alice".to_string())),
        _ => panic!("/ban alice was not read as Ban"),
    }
    match parse("/rename alice al", Role::Admin) {
        Ok(Some(Command::Rename { from, to })) => {
            assert_eq!(from, "alice");
            assert_eq!(to, "al");
        }
        _ => panic!("/rename was not read as Rename"),
    }
}

#[test]
fn ban_with_a_bad_lookup() {
    match parse("/ban SHA256:", Role::Admin) {
        Err(LoungeError::EntityLookup(text)) => assert_eq!(text, "SHA256:"),
        _ => panic!("a bad lookup went through"),
    }
}

#[test]
fn add_takes_the_rest_of_the_line() {
    let example = "/add ssh-ed25519 AAAAC3NzaC1lZDI1NTE5AAAAILM+rvN+ot98qgEN796jTiQfZfG1KaT0PtFDJ/XFSqti carol";
    match Command::parse(example, Role::Admin, "root".to_string()) {
        Ok(Some(Command::Add(entity))) => {
            assert_eq!(entity.name(), "carol");
            assert_eq!(entity.role(), Role::Normal);
            let line = &example[5..];
            assert_eq!(entity.key_data(), Entity::from_str(line).ok().unwrap().key_data());
        }
        _ => panic!("a key line was not added"),
    }
    let line = format!("/add ssh-ed25519 {} d a v e:admin", ALICE);
    match parse(&line, Role::Admin) {
        Ok(Some(Command::Add(entity))) => {
            assert_eq!(entity.name(), "dave");
            assert_eq!(entity.role(), Role::Admin);
        }
        _ => panic!("a key line with spaces in its comment was not added"),
    }
    let bare = format!("/add\tssh-ed25519 {}", ALICE);
    match parse(&bare, Role::Admin) {
        Ok(Some(Command::Add(entity))) => assert_eq!(entity.name(), ""),
        _ => panic!("a key line without comment was not added"),
    }
}

#[test]
fn add_of_what_is_no_key_line() {
    for text in ["/add nonsense", "/add ", "/add ssh-ed25519", "/add ssh-ed25519 AAAA x"] {
        match parse(text, Role::Admin) {
            Err(LoungeError::EntityParsing(EntityError::PublicKeyParsing(_))) => {}
            _ => panic!("{:?} went through", text),
        }
    }
    let padded = format!("/add  ssh-ed25519 {} dave", ALICE);
    assert!(matches!(
        parse(&padded, Role::Admin),
        Err(LoungeError::EntityParsing(EntityError::PublicKeyParsing(_)))
    ));
    let guest = format!("/add ssh-ed25519 {} dave:guest", ALICE);
    match parse(&guest, Role::Admin) {
        Err(LoungeError::EntityParsing(EntityError::InvalidRole(comment))) => {
            assert_eq!(comment, "dave:guest")
        }
        _ => panic!("a guest was added"),
    }
    match parse("/add", Role::Admin) {
        Err(LoungeError::CommandParse(text)) => assert_eq!(text, "/add"),
        _ => panic!("/add without a line went through"),
    }
    let line = format!("/add ssh-ed25519 {} dave", ALICE);
    match parse(&line, Role::Normal) {
        Err(LoungeError::NotAnAdmin(name)) => assert_eq!(name, "carol"),
        _ => panic!("somebody who is no admin added a key"),
    }
}

#[test]
fn what_stands_behind_the_first_word() {
    assert_eq!(argument("/add a b  c"), "a b  c");
    assert_eq!(argument("/add"), "");
    assert_eq!(argument("/add "), "");
    assert_eq!(argument(" x"), "x");
    assert_eq!(argument("a\nb c"), "b c");
    assert_eq!(argument(""), "");
}

#[test]
fn add_from_words() {
    let line = format!("ssh-ed25519 {} dave:admin", ALICE);
    let tokens = words(&["/add", "ssh-ed25519", ALICE, "dave:admin"]);
    match Command::from_tokens(&tokens, &line, "whatever", Role::Admin, "carol".to_string()) {
        Ok(Some(Command::Add(entity))) => {
            assert_eq!(entity.name(), "dave");
            assert_eq!(entity.role(), Role::Admin);
        }
        _ => panic!("a key line was not read as Add"),
    }
    let guest = format!("ssh-ed25519 {} dave:guest", ALICE);
    match Command::from_tokens(&tokens, &guest, "whatever", Role::Admin, "carol".to_string()) {
        Err(LoungeError::EntityParsing(EntityError::InvalidRole(comment))) => {
            assert_eq!(comment, "dave:guest")
        }
        _ => panic!("a guest was added"),
    }
    match Command::from_tokens(&tokens, &line, "whatever", Role::Normal, "carol".to_string()) {
        Err(LoungeError::NotAnAdmin(name)) => assert_eq!(name, "carol"),
        _ => panic!("somebody who is no admin added a key"),
    }
    match Command::from_tokens(&words(&["/add"]), &line, "the line", Role::Admin, "carol".to_string()) {
        Err(LoungeError::CommandParse(text)) => assert_eq!(text, "the line"),
        _ => panic!("/add without a word behind it went through"),
    }
}

#[test]
fn command_words_with_the_wrong_arguments() {
    for text in ["/info", "/info a b", "/add", "/ban", "/ban a b", "/commit now", "/reload now", "/rename a", "/rename a b c", "/ban  bob", "/commit ", "/commit\n"] {
        match parse(text, Role::Admin) {
            Err(LoungeError::CommandParse(held)) => assert_eq!(held, text),
            _ => panic!("{:?} was not rejected", text),
        }
    }
    for text in ["/info", "/info a b"] {
        match parse(text, Role::Normal) {
            Err(LoungeError::CommandParse(held)) => assert_eq!(held, text),
            _ => panic!("{:?} was not rejected", text),
        }
    }
}

#[test]
fn everything_else_is_chat() {
    for text in ["hello", "", " /commit", "/help", "/Commit", "commit", "hello /ban bob", "/infos x", "line one\nline two"] {
        for role in [Role::Admin, Role::Normal] {
            assert!(matches!(parse(text, role), Ok(None)), "{:?} was not read as chat", text);
        }
    }
}

#[test]
fn words_decide_not_the_line() {
    let tokens = words(&["/commit"]);
    assert!(matches!(
        Command::from_tokens(&tokens, "", "something else", Role::Admin, "carol".to_string()),
        Ok(Some(Command::Commit))
    ));
    match Command::from_tokens(&words(&["/commit", "x"]), "x", "the line", Role::Admin, "carol".to_string()) {
        Err(LoungeError::CommandParse(text)) => assert_eq!(text, "the line"),
        _ => panic!("/commit x went through"),
    }
    assert!(matches!(
        Command::from_tokens(&words(&[]), "", "", Role::Admin, "carol".to_string()),
        Ok(None)
    ));
}

#[test]
fn error_messages() {
    assert_eq!(LoungeError::ClientDisconnectFailed(7).message(), "failed to disconnect client with id 7");
    assert_eq!(LoungeError::ClientDisconnectFailed(1234).message(), "failed to disconnect client with id 1234");
    assert_eq!(LoungeError::CommandParse("/ban".to_string()).message(), "failed to parse command \"/ban\"");
    assert_eq!(
        LoungeError::CommandParse("/ban \"a\"\n".to_string()).message(),
        "failed to parse command \"/ban \\\"a\\\"\\n\""
    );
    assert_eq!(LoungeError::EntityLookup("a:b".to_string()).message(), "failed to parse entity lookup: a:b");
    assert_eq!(LoungeError::NotAnAdmin("bob".to_string()).message(), "user \"bob\" is not an admin");
    assert_eq!(LoungeError::NoBanSelf.message(), "users cannot ban themselves");
    assert_eq!(
        LoungeError::EntityParsing(EntityError::InvalidRole("x:y".to_string())).message(),
        "failed to parse SSH key string to an entity"
    );
}

#[test]
fn messages_of_errors_from_outside() {
    let broken = || std::io::Error::new(std::io::ErrorKind::BrokenPipe, "gone");
    assert_eq!(
        LoungeError::FrameResize { source: broken(), id: 3 }.message(),
        "failed to resize frame as requested by client 3"
    );
    assert_eq!(
        LoungeError::TerminalSessionSpawn { source: broken(), id: 40 }.message(),
        "unable to spawn a terminal for client 40"
    );
    assert_eq!(LoungeError::Russh(russh::Error::Disconnect).message(), "russh error");
    assert_eq!(
        LoungeError::Authfile(lounge::authfile::AuthfileError::FileNotReadable(broken())).message(),
        "failed to read authorization file"
    );
}
