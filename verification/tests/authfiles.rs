use lounge::authfile::{read, serialize, write_line, AuthFile, AuthfileError};
use lounge::entity::{Entity, EntityError, Role};

const ALICE: &str = "ssh-ed25519 AAAAC3NzaC1lZDI1NTE5AAAAICvYBsl/DgCvGh/DMo+nY6kmlyPI24+sT5OvcdsYbW6Q";
const BOB: &str = "ssh-ed25519 AAAAC3NzaC1lZDI1NTE5AAAAIIG2N9j80sbaY1nmljEToRcN55XktyW4TR4LTP2exYzp";
const CAROL: &str = "ssh-ed25519 AAAAC3NzaC1lZDI1NTE5AAAAIEwm2QdMJ9ie3lknDArBS3HgcbFSOVGfdUdLLzumNIH1";

fn load(contents: &str) -> AuthFile {
    match read(contents) {
        Ok(file) => file,
        Err(e) => panic!("{}", e.message()),
    }
}

fn names(file: &AuthFile) -> Vec<String> {
    file.entities().iter().map(|e| e.name()).collect()
}

#[test]
fn a_valid_authfile_is_read() {
    let contents = format!("{} alice:admin\n{} bob\n{} c a r o l\n", ALICE, BOB, CAROL);
    let file = load(&contents);
    assert_eq!(names(&file), vec!["alice", "bob", "carol"]);
    assert_eq!(file.entities()[0].role(), Role::Admin);
    assert_eq!(file.entities()[1].role(), Role::Normal);
    assert_eq!(file.key_pool().len(), 3);
    for entity in file.entities() {
        assert!(file.key_pool().contains_key(&entity.key_data()));
    }
}

#[test]
fn the_last_line_need_not_end() {
    let file = load(&format!("{} alice\r\n{} bob", ALICE, BOB));
    assert_eq!(names(&file), vec!["alice", "bob"]);
}

#[test]
fn an_empty_file_has_no_entities() {
    let file = load("");
    assert_eq!(file.entities().len(), 0);
    assert_eq!(file.key_pool().len(), 0);
}

#[test]
fn an_empty_line_is_an_error() {
    for contents in [format!("{} alice\n\n{} bob\n", ALICE, BOB), "\n".to_string(), format!("\n{} alice", ALICE)] {
        match read(&contents) {
            Err(AuthfileError::PublicKeyParsing(EntityError::PublicKeyParsing(_))) => {}
            _ => panic!("an empty line was accepted"),
        }
    }
}

#[test]
fn the_first_bad_line_decides_the_error() {
    let contents = format!("{} alice\n{} bob:guest\nnonsense\n", ALICE, BOB);
    match read(&contents) {
        Err(AuthfileError::PublicKeyParsing(EntityError::InvalidRole(comment))) => {
            assert_eq!(comment, "bob:guest")
        }
        _ => panic!("the guest was not reported"),
    }
    let contents = format!("{} alice\nnonsense\n{} bob:guest\n", ALICE, BOB);
    match read(&contents) {
        Err(AuthfileError::PublicKeyParsing(EntityError::PublicKeyParsing(_))) => {}
        _ => panic!("the nonsense was not reported"),
    }
}

#[test]
fn authfile_error_messages() {
    match read("nonsense") {
        Err(e) => assert_eq!(e.message(), "failed to parse entity: failed to parse public key"),
        Ok(_) => panic!("nonsense was accepted"),
    }
    match read(&format!("{} bob:guest", BOB)) {
        Err(e) => assert_eq!(
            e.message(),
            "failed to parse entity: invalid role specified in authorization file at line: bob:guest"
        ),
        Ok(_) => panic!("a guest was accepted"),
    }
    let gone = std::io::Error::new(std::io::ErrorKind::NotFound, "gone");
    assert_eq!(AuthfileError::FileNotReadable(gone).message(), "unable to read authorization file");
}

#[test]
fn a_key_on_two_lines_is_in_the_pool_once() {
    let file = load(&format!("{} alice\n{} bob\n{} alias:admin\n", ALICE, BOB, ALICE));
    assert_eq!(names(&file), vec!["alice", "bob", "alias"]);
    assert_eq!(file.key_pool().len(), 2);
}

#[test]
fn from_entities_collects_the_keys() {
    let alice = Entity::from_str(&format!("{} alice", ALICE)).ok().unwrap();
    let bob = Entity::from_str(&format!("{} bob", BOB)).ok().unwrap();
    let carol = Entity::from_str(&format!("{} carol", CAROL)).ok().unwrap();
    let file = AuthFile::from_entities(vec![alice.clone(), bob.clone()]);
    assert_eq!(names(&file), vec!["alice", "bob"]);
    assert!(file.key_pool().contains_key(&alice.key_data()));
    assert!(file.key_pool().contains_key(&bob.key_data()));
    assert!(!file.key_pool().contains_key(&carol.key_data()));
    let (entities, key_pool) = file.into_parts();
    assert_eq!(entities, vec![alice, bob]);
    assert_eq!(key_pool.len(), 2);
}

#[test]
fn entities_are_written_one_per_line() {
    let file = load(&format!("{} A l i c e:admin\n{} bob\n{}\n", ALICE, BOB, CAROL));
    let written = serialize(file.entities()).unwrap();
    assert_eq!(written, format!("{} Alice:admin\n{} bob\n{}", ALICE, BOB, CAROL));
    assert_eq!(serialize(&Vec::new()), Some(String::new()));
}

#[test]
fn a_line_is_written_for_an_entity() {
    let mut alice = Entity::from_str(&format!("{} alice", ALICE)).ok().unwrap();
    assert_eq!(write_line(&alice), Some(format!("{} alice", ALICE)));
    alice.set_role(Role::Admin);
    alice.set_name("");
    assert_eq!(write_line(&alice), Some(format!("{} :admin", ALICE)));
}

#[test]
fn reading_what_was_written_gives_the_same_entities() {
    let contents = format!("{} A l i c e:admin\r\n{} b@b\n{}\n{} alias\n", ALICE, BOB, CAROL, ALICE);
    let first = load(&contents);
    let written = serialize(first.entities()).unwrap();
    let second = load(&written);
    assert_eq!(first.entities().len(), second.entities().len());
    for (a, b) in first.entities().iter().zip(second.entities().iter()) {
        assert_eq!(a.name(), b.name());
        assert_eq!(a.role(), b.role());
        assert_eq!(a.key_data(), b.key_data());
        assert_eq!(a.fingerprint(), b.fingerprint());
    }
    assert_eq!(first.key_pool().len(), second.key_pool().len());
    assert_eq!(serialize(second.entities()).unwrap(), written);
    assert_eq!(second.entities(), load(&written).entities());
}

#[test]
fn test_valid_authfile() {
    let fixture = format!("{} alice:admin\n{} bob\n{} carol\n", ALICE, BOB, CAROL);
    read(&fixture).ok().expect("failed to read valid authfile fixture");
}

#[test]
fn an_entity_with_forged_key_material_is_not_written() {
    let key = lounge::keys::PublicKey::new(vec![1, 2, 3], "SHA256:abc".to_string(), "bob".to_string());
    let forged = Entity::from_key(key).ok().unwrap();
    assert_eq!(write_line(&forged), None);
    let alice = Entity::from_str(&format!("{} alice", ALICE)).ok().unwrap();
    assert_eq!(serialize(&vec![alice, forged]), None);
}
