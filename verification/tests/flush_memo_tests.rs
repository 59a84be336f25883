use memory_memo::DEFAULT_RECORD_TTL_MILLIS;
use memory_memo::flush_memo::FlushMemoStore;

const HOUR: i64 = 3600000;
const T0: i64 = 1700000000000;

fn store() -> FlushMemoStore {
    FlushMemoStore::new(DEFAULT_RECORD_TTL_MILLIS)
}

#[test]
fn test_flush_memo_creation() {
    let mut s = store();
    let user = String::from("testuser");

    let memo = s.create(&user, &String::from("This is a test flush memo"), T0).unwrap();
    assert_eq!(memo.user_id, "testuser");
    assert_eq!(memo.content, "This is a test flush memo");
    assert!(!memo.id.is_empty());

    // Expiry is exactly 24 hours after creation.
    assert_eq!(memo.created_at, T0);
    assert_eq!(memo.expires_at, memo.created_at + 24 * HOUR);
}

#[test]
fn test_flush_memo_list_by_user() {
    let mut s = store();
    let user1 = String::from("user1");
    let user2 = String::from("user2");

    s.create(&user1, &String::from("User1 flush memo 1"), T0).unwrap();
    s.create(&user2, &String::from("User2 flush memo 1"), T0).unwrap();
    s.create(&user1, &String::from("User1 flush memo 2"), T0).unwrap();

    let user1_memos = s.list_by_user(&user1, T0);
    assert_eq!(user1_memos.len(), 2);

    let user2_memos = s.list_by_user(&user2, T0);
    assert_eq!(user2_memos.len(), 1);

    assert!(user1_memos.iter().any(|m| m.content == "User1 flush memo 1"));
    assert!(user1_memos.iter().any(|m| m.content == "User1 flush memo 2"));
    assert!(user2_memos.iter().any(|m| m.content == "User2 flush memo 1"));
}

#[test]
fn test_flush_memo_ordering() {
    let mut s = store();
    let user = String::from("testuser");

    s.create(&user, &String::from("First flush memo"), T0).unwrap();
    s.create(&user, &String::from("Second flush memo"), T0 + 1000).unwrap();
    s.create(&user, &String::from("Third flush memo"), T0 + 2000).unwrap();

    let memos = s.list_by_user(&user, T0 + 2000);
    assert_eq!(memos.len(), 3);

    let contents: Vec<&str> = memos.iter().map(|m| m.content.as_str()).collect();
    assert_eq!(contents[0], "Third flush memo", "Newest flush memo should be first");

    assert!(contents.contains(&"First flush memo"));
    assert!(contents.contains(&"Second flush memo"));
    assert!(contents.contains(&"Third flush memo"));
}

#[test]
fn test_flush_memo_delete() {
    let mut s = store();
    let user = String::from("testuser");
    let memo = s.create(&user, &String::from("Flush memo to delete"), T0).unwrap();

    let memos_before = s.list_by_user(&user, T0);
    assert_eq!(memos_before.len(), 1);

    assert!(s.delete(&memo.id, &user));

    let memos_after = s.list_by_user(&user, T0);
    assert_eq!(memos_after.len(), 0);
}

#[test]
fn test_flush_memo_delete_security() {
    let mut s = store();
    let user1 = String::from("user1");
    let user2 = String::from("user2");

    let memo = s.create(&user1, &String::from("User1's flush memo"), T0).unwrap();

    // User2 tries to delete User1's memo - should fail.
    let deleted = s.delete(&memo.id, &user2);
    assert!(!deleted);

    // The memo still exists.
    let memos = s.list_by_user(&user1, T0);
    assert_eq!(memos.len(), 1);
}

#[test]
fn test_flush_memo_cleanup_expired() {
    let mut s = store();
    let user = String::from("testuser");

    // A memo created 25 hours ago is expired at T0.
    s.create(&user, &String::from("Memo to expire"), T0 - 25 * HOUR).unwrap();
    // A fresh memo has not expired.
    s.create(&user, &String::from("Fresh memo"), T0).unwrap();

    // Before cleanup there are 2 memos in total, but only the fresh one is
    // listed.
    assert_eq!(s.count_all(), 2, "Should have 2 total memos before cleanup");
    let memos_before = s.list_by_user(&user, T0);
    assert_eq!(memos_before.len(), 1, "list_by_user should only show non-expired memos");

    let cleaned_count = s.cleanup_expired(T0);
    assert_eq!(cleaned_count, 1);

    let memos_after = s.list_by_user(&user, T0);
    assert_eq!(memos_after.len(), 1);
    assert_eq!(memos_after[0].content, "Fresh memo");
}

#[test]
fn test_flush_memo_list_excludes_expired() {
    let mut s = store();
    let user = String::from("testuser");

    s.create(&user, &String::from("Active memo"), T0).unwrap();
    s.create(&user, &String::from("Expired memo"), T0 - 25 * HOUR).unwrap();

    let memos = s.list_by_user(&user, T0);
    assert_eq!(memos.len(), 1);
    assert_eq!(memos[0].content, "Active memo");
}

#[test]
fn test_flush_memo_empty_content() {
    let mut s = store();
    let user = String::from("testuser");

    let result = s.create(&user, &String::from(""), T0);
    assert!(result.is_err());
}
