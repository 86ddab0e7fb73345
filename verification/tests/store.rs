use zkauth::digits::{Element, Scalar};
use zkauth::store::{Challenge, MemoryStore, Session, User};

#[test]
fn test_insert_get_user() {
    let mut store = MemoryStore::default();
    let user = User {
        y1: Element::one(),
        y2: Element::one(),
    };
    store.insert_user("test", user.clone());
    assert_eq!(store.get_user("test").unwrap(), user);
    assert!(store.get_user("test2").is_none());
}

#[test]
fn test_insert_get_challenge() {
    let mut store = MemoryStore::default();
    let challenge = Challenge {
        user: "test".to_string(),
        c: Scalar::one(),
        r1: Element::one(),
        r2: Element::one(),
    };
    let id = uuid::Uuid::new_v4().to_string();
    store.insert_challenge(&id, challenge.clone(), 1000);
    assert_eq!(store.get_challenge(&id, 1000).unwrap(), challenge);
    assert!(store
        .get_challenge(&uuid::Uuid::new_v4().to_string(), 1000)
        .is_none());
}

#[test]
fn test_insert_get_session() {
    let mut store = MemoryStore::default();
    let session = Session {
        id: uuid::Uuid::new_v4().to_string(),
    };
    store.insert_session("test", session.clone(), 1000);
    assert_eq!(store.get_session("test", 1000).unwrap(), session);
    assert!(store.get_session("test2", 1000).is_none());
}

#[test]
fn challenge_expires_after_ttl() {
    let mut store = MemoryStore::new(300, 3600);
    let challenge = Challenge {
        user: "test".to_string(),
        c: Scalar::one(),
        r1: Element::one(),
        r2: Element::one(),
    };
    store.insert_challenge("id", challenge, 1000);
    assert!(store.get_challenge("id", 1299).is_some());
    assert!(store.get_challenge("id", 1300).is_none());
    assert!(store.get_challenge("id", 9999).is_none());
}

#[test]
fn session_expires_after_ttl() {
    let mut store = MemoryStore::new(300, 3600);
    let session = Session {
        id: "sid".to_string(),
    };
    store.insert_session("key", session, 1000);
    assert!(store.get_session("key", 4599).is_some());
    assert!(store.get_session("key", 4600).is_none());
}

#[test]
fn insert_user_overwrites() {
    let mut store = MemoryStore::default();
    store.insert_user(
        "test",
        User {
            y1: Element::one(),
            y2: Element::one(),
        },
    );
    let replacement = User {
        y1: Element::parse("5").unwrap(),
        y2: Element::parse("6").unwrap(),
    };
    store.insert_user("test", replacement.clone());
    assert_eq!(store.get_user("test").unwrap(), replacement);
}
