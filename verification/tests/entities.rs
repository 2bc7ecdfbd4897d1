use lounge::entity::{sanitize_name, Entity, EntityError, Persona, Role};
use lounge::keys::PublicKey;

const ALICE: &str = "AAAAC3NzaC1lZDI1NTE5AAAAICvYBsl/DgCvGh/DMo+nY6kmlyPI24+sT5OvcdsYbW6Q";
const ALICE_FINGERPRINT: &str = "SHA256:F9PpGsngzsZUNdILKaPPnVMowTBXWl43kYojRg2Y8lg";
const BOB: &str = "AAAAC3NzaC1lZDI1NTE5AAAAIIG2N9j80sbaY1nmljEToRcN55XktyW4TR4LTP2exYzp";

fn line(key: &str, comment: &str) -> String {
    format!("ssh-ed25519 {} {}", key, comment)
}

fn entity(key: &str, comment: &str) -> Entity {
    match Entity::from_str(&line(key, comment)) {
        Ok(entity) => entity,
        Err(e) => panic!("{}", e.message()),
    }
}

#[test]
fn role_words() {
    assert_eq!(Role::Admin.to_string(), "admin");
    assert_eq!(Role::Normal.to_string(), "normal");
}

#[test]
fn comment_with_admin_suffix_is_an_admin() {
    let bob = entity(BOB, "bob:admin");
    assert_eq!(bob.name(), "bob");
    assert_eq!(bob.role(), Role::Admin);
}

#[test]
fn comment_without_colon_is_a_normal_user() {
    let bob = entity(BOB, "bob");
    assert_eq!(bob.name(), "bob");
    assert_eq!(bob.role(), Role::Normal);
}

#[test]
fn comment_with_another_role_is_rejected() {
    match Entity::from_str(&line(BOB, "bob:guest")) {
        Err(EntityError::InvalidRole(comment)) => assert_eq!(comment, "bob:guest"),
        _ => panic!("a role other than admin was accepted"),
    }
    match Entity::from_str(&line(BOB, "bob:")) {
        Err(EntityError::InvalidRole(comment)) => assert_eq!(comment, "bob:"),
        _ => panic!("an empty role was accepted"),
    }
    match Entity::from_str(&line(BOB, "bob:Admin")) {
        Err(EntityError::InvalidRole(comment)) => assert_eq!(comment, "bob:Admin"),
        _ => panic!("role words are case sensitive"),
    }
}

#[test]
fn the_last_colon_splits_the_comment() {
    let e = entity(BOB, "a:b:admin");
    assert_eq!(e.name(), "ab");
    assert_eq!(e.role(), Role::Admin);
    match Entity::from_str(&line(BOB, "bob:admin:x")) {
        Err(EntityError::InvalidRole(comment)) => assert_eq!(comment, "bob:admin:x"),
        _ => panic!("the role is what follows the last colon"),
    }
}

#[test]
fn names_are_sanitized_on_load() {
    assert_eq!(entity(ALICE, "A l i c e!#^<>").name(), "Alice");
    let root = entity(ALICE, "root@host-1.local:admin");
    assert_eq!(root.name(), "root@host-1.local");
    assert_eq!(root.role(), Role::Admin);
}

#[test]
fn sanitize_keeps_the_allowed_characters() {
    assert_eq!(sanitize_name("A l i c e!#^<>"), "Alice");
    assert_eq!(sanitize_name("azAZ09@_-."), "azAZ09@_-.");
    assert_eq!(sanitize_name("é:/\\`{|[^~"), "");
    assert_eq!(sanitize_name(""), "");
}

#[test]
fn sanitize_is_idempotent() {
    for name in ["A l i c e!#^<>", "root@host-1.local", "ünïcödé", "a:b", ""] {
        let once = sanitize_name(name);
        assert_eq!(sanitize_name(&once), once);
        assert!(once.chars().all(|c| c.is_ascii_alphanumeric() || "@_-.".contains(c)));
    }
}

#[test]
fn a_key_without_comment_has_an_empty_name() {
    let e = match Entity::from_str(&format!("ssh-ed25519 {}", ALICE)) {
        Ok(e) => e,
        Err(e) => panic!("{}", e.message()),
    };
    assert_eq!(e.name(), "");
    assert_eq!(e.role(), Role::Normal);
}

#[test]
fn what_is_no_key_is_rejected() {
    for text in ["", "alice", "ssh-ed25519", "ssh-ed25519 AAAA alice", "ssh-rsa not-base64 x"] {
        match Entity::from_str(text) {
            Err(EntityError::PublicKeyParsing(_)) => {}
            _ => panic!("{:?} was not rejected as a key", text),
        }
    }
    let mismatch = format!("ssh-rsa {} alice", ALICE);
    assert!(matches!(Entity::from_str(&mismatch), Err(EntityError::PublicKeyParsing(_))));
}

#[test]
fn key_material_and_fingerprint_come_from_the_key() {
    let alice = entity(ALICE, "alice");
    let key_data = alice.key_data();
    assert_eq!(key_data.len(), 51);
    assert_eq!(&key_data[..15], &[0, 0, 0, 11, b's', b's', b'h', b'-', b'e', b'd', b'2', b'5', b'5', b'1', b'9']);
    assert_eq!(&key_data[15..19], &[0, 0, 0, 32]);
    assert_eq!(key_data[19], 0x2b);
    assert_eq!(alice.fingerprint(), ALICE_FINGERPRINT);
}

#[test]
fn the_same_key_under_two_comments_is_one_key() {
    let one = entity(ALICE, "alice");
    let other = entity(ALICE, "somebody:admin");
    assert_eq!(one.key_data(), other.key_data());
    assert_eq!(one.fingerprint(), other.fingerprint());
    assert_ne!(one.key_data(), entity(BOB, "alice").key_data());
}

#[test]
fn titles() {
    assert_eq!(entity(ALICE, "alice").title(), "[alice normal]");
    assert_eq!(entity(ALICE, "alice:admin").title(), "[alice admin]");
    assert_eq!(Persona::new("b o b", Role::Admin).title(), "[bob admin]");
}

#[test]
fn persona_getters() {
    let p = entity(ALICE, "alice:admin").persona();
    assert_eq!(p.name(), "alice");
    assert_eq!(p.role(), Role::Admin);
    assert_eq!(p.title(), "[alice admin]");
    assert_eq!(p.comment(), "alice:admin");
    assert_eq!(Persona::new("carol", Role::Normal).comment(), "carol");
}

#[test]
fn persona_from_comment() {
    assert_eq!(Persona::from_comment("bob:admin"), Some(Persona::new("bob", Role::Admin)));
    assert_eq!(Persona::from_comment("bob"), Some(Persona::new("bob", Role::Normal)));
    assert_eq!(Persona::from_comment(":admin"), Some(Persona::new("", Role::Admin)));
    assert_eq!(Persona::from_comment("bob:guest"), None);
}

#[test]
fn setters_change_the_persona_only() {
    let mut e = entity(ALICE, "alice");
    let key_data = e.key_data();
    e.set_name("A l!ice 2");
    assert_eq!(e.name(), "Alice2");
    e.set_role(Role::Admin);
    assert_eq!(e.role(), Role::Admin);
    assert_eq!(e.title(), "[Alice2 admin]");
    assert_eq!(e.key_data(), key_data);
    assert_eq!(e.fingerprint(), ALICE_FINGERPRINT);
}

#[test]
fn the_written_key_carries_the_persona() {
    let mut e = entity(ALICE, "A l i c e:admin");
    let key = e.to_pubkey();
    assert_eq!(key.comment(), "Alice:admin");
    assert_eq!(key.key_data(), &e.key_data());
    assert_eq!(key.fingerprint(), ALICE_FINGERPRINT);
    assert_eq!(key.to_openssh(), Some(line(ALICE, "Alice:admin")));
    e.set_role(Role::Normal);
    assert_eq!(e.to_pubkey().to_openssh(), Some(line(ALICE, "Alice")));
    e.set_name("");
    assert_eq!(e.to_pubkey().to_openssh(), Some(format!("ssh-ed25519 {}", ALICE)));
}

#[test]
fn what_is_written_reads_as_the_same_entity() {
    let e = entity(BOB, "b o b:admin");
    let written = e.to_pubkey().to_openssh().unwrap();
    let again = Entity::from_str(&written).ok().unwrap();
    assert_eq!(again.name(), e.name());
    assert_eq!(again.role(), e.role());
    assert_eq!(again.key_data(), e.key_data());
    assert_eq!(again.fingerprint(), e.fingerprint());
}

#[test]
fn clones_are_equal() {
    let e = entity(ALICE, "alice:admin");
    assert_eq!(e.clone(), e);
    assert_eq!(e.persona().clone(), e.persona());
}

#[test]
fn entity_error_messages() {
    match Entity::from_str("nonsense") {
        Err(e) => assert_eq!(e.message(), "failed to parse public key"),
        Ok(_) => panic!("nonsense was accepted"),
    }
    match Entity::from_str(&line(BOB, "bob:guest")) {
        Err(e) => assert_eq!(
            e.message(),
            "invalid role specified in authorization file at line: bob:guest"
        ),
        Ok(_) => panic!("a guest was accepted"),
    }
}

#[test]
fn an_entity_from_a_decoded_key() {
    let key = PublicKey::new(vec![1, 2, 3], "SHA256:abc".to_string(), "b o b:admin".to_string());
    assert_eq!(key.key_data(), &vec![1, 2, 3]);
    assert_eq!(key.fingerprint(), "SHA256:abc");
    assert_eq!(key.comment(), "b o b:admin");
    let bob = Entity::from_key(key.clone()).ok().unwrap();
    assert_eq!(bob.name(), "bob");
    assert_eq!(bob.role(), Role::Admin);
    assert_eq!(bob.key_data(), vec![1, 2, 3]);
    assert_eq!(bob.fingerprint(), "SHA256:abc");
    assert_eq!(
        bob.to_pubkey(),
        PublicKey::new(vec![1, 2, 3], "SHA256:abc".to_string(), "bob:admin".to_string())
    );
    let guest = PublicKey::new(vec![1, 2, 3], "SHA256:abc".to_string(), "bob:guest".to_string());
    match Entity::from_key(guest) {
        Err(EntityError::InvalidRole(comment)) => assert_eq!(comment, "bob:guest"),
        _ => panic!("a guest was accepted"),
    }
}

#[test]
fn key_material_that_is_no_key_has_no_line() {
    let key = PublicKey::new(vec![1, 2, 3], "SHA256:abc".to_string(), "bob".to_string());
    assert_eq!(key.to_openssh(), None);
}
