use memory_memo::DEFAULT_SESSION_TTL_MILLIS;
use memory_memo::session::Session;
use memory_memo::session::SessionStore;

const HOUR: i64 = 3600000;
const T0: i64 = 1700000000000;

fn store() -> SessionStore {
    SessionStore::new(DEFAULT_SESSION_TTL_MILLIS)
}

#[test]
fn test_session_new_fields() {
    let s = Session::new(String::from("alice"), T0, DEFAULT_SESSION_TTL_MILLIS);
    assert_eq!(s.user_id, "alice");
    assert_eq!(s.created_at, T0);
    assert_eq!(s.expires_at, T0 + 24 * HOUR);
    assert!(!s.is_expired(T0));
    assert!(!s.is_expired(T0 + 24 * HOUR - 1));
    assert!(s.is_expired(T0 + 24 * HOUR));
}

#[test]
fn test_create_session_token_is_opaque() {
    let mut reg = store();
    let token = reg.create_session(String::from("alice"), T0);
    assert_eq!(token.len(), 36);

    let sess = reg.get_session(&token).unwrap();
    assert_eq!(sess.user_id, "alice");
    assert_eq!(sess.created_at, T0);
    assert_eq!(sess.expires_at, T0 + 24 * HOUR);
}

#[test]
fn test_get_user_id_boundary() {
    // The owner is visible on every instant strictly before expiry, and on
    // no instant from expiry on.
    let mut reg = store();
    let token = reg.create_session(String::from("alice"), T0);

    assert_eq!(reg.get_user_id(&token, T0), Some(String::from("alice")));
    assert_eq!(reg.get_user_id(&token, T0 + 24 * HOUR - 1), Some(String::from("alice")));
    assert_eq!(reg.get_user_id(&token, T0 + 24 * HOUR), None);
}

#[test]
fn test_get_user_id_unknown_token() {
    let mut reg = store();
    assert_eq!(reg.get_user_id(&String::from("no-such-token"), T0), None);
}

#[test]
fn test_lazy_eviction_on_expired_read() {
    let mut reg = store();
    let token = reg.create_session(String::from("alice"), T0);

    // The raw entry still exists after expiry until something reads it.
    assert!(reg.get_session(&token).is_some());

    // An expired read removes the entry as part of the same logical read.
    assert_eq!(reg.get_user_id(&token, T0 + 25 * HOUR), None);
    assert!(reg.get_session(&token).is_none());
}

#[test]
fn test_remove_session_is_idempotent() {
    let mut reg = store();
    let token = reg.create_session(String::from("alice"), T0);

    assert!(reg.remove_session(&token));
    assert!(!reg.remove_session(&token));
    assert!(reg.get_session(&token).is_none());
}

#[test]
fn test_two_sessions_same_owner_independent() {
    // Two sessions for the same owner are independent: destroying one
    // leaves the other valid and readable.
    let mut reg = store();
    let token_a = reg.create_session(String::from("alice"), T0);
    let token_b = reg.create_session(String::from("alice"), T0 + 1000);
    assert_ne!(token_a, token_b);

    assert!(reg.remove_session(&token_a));

    assert_eq!(reg.get_user_id(&token_a, T0 + 2000), None);
    assert_eq!(reg.get_user_id(&token_b, T0 + 2000), Some(String::from("alice")));
}

#[test]
fn test_session_cleanup_expired() {
    let mut reg = store();
    let stale_one = reg.create_session(String::from("alice"), T0 - 25 * HOUR);
    let stale_two = reg.create_session(String::from("bob"), T0 - 30 * HOUR);
    let live = reg.create_session(String::from("carol"), T0);

    let removed = reg.cleanup_expired(T0);
    assert_eq!(removed, 2);

    // A second sweep against the same instant removes nothing.
    assert_eq!(reg.cleanup_expired(T0), 0);

    assert!(reg.get_session(&stale_one).is_none());
    assert!(reg.get_session(&stale_two).is_none());
    assert_eq!(reg.get_user_id(&live, T0), Some(String::from("carol")));
}

#[test]
fn test_session_cleanup_keeps_all_live() {
    let mut reg = store();
    reg.create_session(String::from("alice"), T0);
    reg.create_session(String::from("bob"), T0);

    assert_eq!(reg.cleanup_expired(T0), 0);
}
