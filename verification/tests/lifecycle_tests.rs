use memory_memo::DEFAULT_CLEANUP_INTERVAL_MILLIS;
use memory_memo::DEFAULT_RECORD_TTL_MILLIS;
use memory_memo::MemoError;
use memory_memo::cleanup::CleanupService;
use memory_memo::flush_memo::FlushMemoStore;

const MINUTE: i64 = 60000;
const HOUR: i64 = 3600000;
const T0: i64 = 1700000000000;

fn store() -> FlushMemoStore {
    FlushMemoStore::new(DEFAULT_RECORD_TTL_MILLIS)
}

#[test]
fn test_record_visible_through_lifetime() {
    // A record is listed unmodified on instants in [created_at, expires_at).
    let mut s = store();
    let user = String::from("alice");
    let memo = s.create(&user, &String::from("note"), T0).unwrap();

    for now in [T0, T0 + 1, T0 + 12 * HOUR, T0 + 24 * HOUR - 1] {
        let listed = s.list_by_user(&user, now);
        assert_eq!(listed.len(), 1);
        assert_eq!(listed[0].id, memo.id);
        assert_eq!(listed[0].content, "note");
        assert_eq!(listed[0].created_at, T0);
        assert_eq!(listed[0].expires_at, T0 + 24 * HOUR);
    }
    assert_eq!(s.list_by_user(&user, T0 + 24 * HOUR).len(), 0);
}

#[test]
fn test_find_one_expired_without_sweep() {
    // An expired record is invisible to find even though no sweep ever ran.
    let mut s = store();
    let user = String::from("alice");
    let memo = s.create(&user, &String::from("note"), T0).unwrap();

    assert!(s.find_by_id_and_user(&memo.id, &user, T0 + 24 * HOUR - 1).is_some());
    assert!(s.find_by_id_and_user(&memo.id, &user, T0 + 24 * HOUR).is_none());
    assert!(s.find_by_id_and_user(&memo.id, &user, T0 + 48 * HOUR).is_none());
    // The row itself was never deleted.
    assert_eq!(s.count_all(), 1);
}

#[test]
fn test_sweep_idempotent() {
    // A second sweep immediately after the first, with no new expirations
    // in between, deletes nothing.
    let mut s = store();
    let user = String::from("alice");
    s.create(&user, &String::from("old one"), T0 - 30 * HOUR).unwrap();
    s.create(&user, &String::from("old two"), T0 - 25 * HOUR).unwrap();
    s.create(&user, &String::from("fresh"), T0).unwrap();

    assert_eq!(s.cleanup_expired(T0), 2);
    assert_eq!(s.cleanup_expired(T0), 0);
}

#[test]
fn test_cross_owner_isolation() {
    // Lookups and deletes by another owner report not-found regardless of
    // expiry state.
    let mut s = store();
    let owner_a = String::from("alice");
    let owner_b = String::from("bob");
    let active = s.create(&owner_a, &String::from("active"), T0).unwrap();
    let expired = s.create(&owner_a, &String::from("expired"), T0 - 25 * HOUR).unwrap();

    assert!(s.find_by_id_and_user(&active.id, &owner_b, T0).is_none());
    assert!(s.find_by_id_and_user(&expired.id, &owner_b, T0).is_none());
    assert!(!s.delete(&active.id, &owner_b));
    assert!(!s.delete(&expired.id, &owner_b));

    // Owner A still sees the active record.
    assert!(s.find_by_id_and_user(&active.id, &owner_a, T0).is_some());
    assert_eq!(s.count_all(), 2);
}

#[test]
fn test_24h_ttl_scenario() {
    // Created at T0 with a 24h TTL: found a minute before the day is out,
    // gone a second past it, and a subsequent sweep counts it.
    let mut s = store();
    let user = String::from("alice");
    let memo = s.create(&user, &String::from("note"), T0).unwrap();

    let at_23h59m = T0 + 23 * HOUR + 59 * MINUTE;
    let found = s.find_by_id_and_user(&memo.id, &user, at_23h59m).unwrap();
    assert_eq!(found.content, "note");

    let at_24h00m01s = T0 + 24 * HOUR + 1000;
    assert!(s.find_by_id_and_user(&memo.id, &user, at_24h00m01s).is_none());

    assert_eq!(s.cleanup_expired(at_24h00m01s), 1);
}

#[test]
fn test_three_records_ordering() {
    // Three records created one second apart list newest first.
    let mut s = store();
    let user = String::from("alice");
    s.create(&user, &String::from("at t0"), T0).unwrap();
    s.create(&user, &String::from("at t0 plus 1s"), T0 + 1000).unwrap();
    s.create(&user, &String::from("at t0 plus 2s"), T0 + 2000).unwrap();

    let listed = s.list_by_user(&user, T0 + 2000);
    let contents: Vec<&str> = listed.iter().map(|m| m.content.as_str()).collect();
    assert_eq!(contents, vec!["at t0 plus 2s", "at t0 plus 1s", "at t0"]);
}

#[test]
fn test_equal_creation_instants_keep_insertion_order() {
    // Records created at the same instant come most recently inserted
    // first, deterministically.
    let mut s = store();
    let user = String::from("alice");
    s.create(&user, &String::from("first inserted"), T0).unwrap();
    s.create(&user, &String::from("second inserted"), T0).unwrap();
    s.create(&user, &String::from("third inserted"), T0).unwrap();

    let listed = s.list_by_user(&user, T0);
    let contents: Vec<&str> = listed.iter().map(|m| m.content.as_str()).collect();
    assert_eq!(contents, vec!["third inserted", "second inserted", "first inserted"]);
}

#[test]
fn test_validation_rejects_blank_payload() {
    // A payload that is whitespace-only is rejected exactly like an empty
    // one: trimming decides, not the raw length.
    let mut s = store();
    let user = String::from("alice");

    assert!(matches!(s.create(&user, &String::from(""), T0), Err(MemoError::Validation)));
    assert!(matches!(s.create(&user, &String::from(" \t\r\n  "), T0), Err(MemoError::Validation)));
    assert_eq!(s.count_all(), 0);

    // Leading and trailing whitespace around real content is fine, and the
    // payload is stored unmodified.
    let memo = s.create(&user, &String::from("  note  "), T0).unwrap();
    assert_eq!(memo.content, "  note  ");
}

#[test]
fn test_conflict_on_colliding_id() {
    let mut s = store();
    let user = String::from("alice");
    s.create_with_id(String::from("fixed-id"), &user, &String::from("one"), T0).unwrap();

    let second = s.create_with_id(String::from("fixed-id"), &user, &String::from("two"), T0);
    assert!(matches!(second, Err(MemoError::Conflict)));
    assert_eq!(s.count_all(), 1);
}

#[test]
fn test_generated_ids_are_opaque_and_distinct() {
    let mut s = store();
    let user = String::from("alice");
    let a = s.create(&user, &String::from("one"), T0).unwrap();
    let b = s.create(&user, &String::from("two"), T0).unwrap();
    assert_eq!(a.id.len(), 36);
    assert_eq!(b.id.len(), 36);
    assert_ne!(a.id, b.id);
}

#[test]
fn test_time_until_expiry() {
    let mut s = store();
    let user = String::from("alice");
    let memo = s.create(&user, &String::from("note"), T0).unwrap();

    assert_eq!(memo.time_until_expiry(T0), Some(24 * HOUR));
    assert_eq!(memo.time_until_expiry(T0 + 24 * HOUR - 1), Some(1));
    assert_eq!(memo.time_until_expiry(T0 + 24 * HOUR), None);
    assert!(memo.is_expired(T0 + 24 * HOUR));
    assert!(!memo.is_expired(T0));
}

#[test]
fn test_history_newest_first_with_limit() {
    let mut svc = CleanupService::new(DEFAULT_CLEANUP_INTERVAL_MILLIS);
    svc.log_cleanup_run(1, T0);
    svc.log_cleanup_run(2, T0 + HOUR);
    svc.log_cleanup_run(3, T0 + 2 * HOUR);

    let all = svc.get_cleanup_history(10);
    let counts: Vec<u64> = all.iter().map(|e| e.cleaned_count).collect();
    assert_eq!(counts, vec![3, 2, 1]);

    let limited = svc.get_cleanup_history(2);
    let counts: Vec<u64> = limited.iter().map(|e| e.cleaned_count).collect();
    assert_eq!(counts, vec![3, 2]);

    assert_eq!(svc.get_cleanup_history(0).len(), 0);
}

#[test]
fn test_statistics_exact_values() {
    let mut svc = CleanupService::new(DEFAULT_CLEANUP_INTERVAL_MILLIS);
    let mut s = store();
    let user = String::from("alice");
    s.create(&user, &String::from("expired"), T0 - 25 * HOUR).unwrap();
    s.create(&user, &String::from("fresh one"), T0).unwrap();
    s.create(&user, &String::from("fresh two"), T0).unwrap();

    let stats = svc.get_cleanup_statistics(&s, T0);
    assert_eq!(stats.total_count, 3);
    assert_eq!(stats.expired_count, 1);
    assert_eq!(stats.active_count, 2);
    assert_eq!(stats.last_cleanup, None);

    svc.cleanup_expired_flush_memos(&mut s, T0);
    let stats = svc.get_cleanup_statistics(&s, T0);
    assert_eq!(stats.total_count, 2);
    assert_eq!(stats.expired_count, 0);
    assert_eq!(stats.active_count, 2);
    assert_eq!(stats.last_cleanup, Some(T0));
}

#[test]
fn test_next_cleanup_time_is_now_plus_interval() {
    let svc = CleanupService::new(DEFAULT_CLEANUP_INTERVAL_MILLIS);
    assert_eq!(svc.get_next_cleanup_time(T0), T0 + HOUR);
}

#[test]
fn test_force_cleanup_removes_everything() {
    let mut svc = CleanupService::new(DEFAULT_CLEANUP_INTERVAL_MILLIS);
    let mut s = store();
    let user = String::from("alice");
    s.create(&user, &String::from("fresh"), T0).unwrap();
    s.create(&user, &String::from("expired"), T0 - 25 * HOUR).unwrap();

    let removed = svc.force_cleanup_all_flush_memos(&mut s, T0);
    assert_eq!(removed, 2);
    assert_eq!(s.count_all(), 0);

    let history = svc.get_cleanup_history(1);
    assert_eq!(history[0].cleaned_count, 2);
    assert_eq!(history[0].run_time, T0);
}

#[test]
fn test_sweep_snapshot_spares_later_records() {
    // A sweep bounded by an earlier snapshot never deletes records created
    // after that snapshot.
    let mut s = store();
    let user = String::from("alice");
    s.create(&user, &String::from("early and expired"), T0 - 25 * HOUR).unwrap();
    s.create(&user, &String::from("created later"), T0 + HOUR).unwrap();

    assert_eq!(s.cleanup_expired(T0), 1);
    let listed = s.list_by_user(&user, T0 + HOUR);
    assert_eq!(listed.len(), 1);
    assert_eq!(listed[0].content, "created later");
}
