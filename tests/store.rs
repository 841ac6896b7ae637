use srsrssrs::feed::Feed;
use srsrssrs::store::{due_feeds, schema_check, EntryRow, FeedRow, SchemaCheck, SubscriberRow};

fn row(id: i64, url: &str, next_check: i64) -> FeedRow {
    FeedRow { id, url: url.to_string(), last_check: 100, next_check, etag: None }
}

fn sub(feed_id: i64, user: &[u8]) -> SubscriberRow {
    SubscriberRow { feed_id, user: user.to_vec() }
}

fn seen(feed_id: i64, entry_id: &str) -> EntryRow {
    EntryRow { feed_id, entry_id: entry_id.to_string() }
}

#[test]
fn schema_versions() {
    assert_eq!(schema_check(0), SchemaCheck::Create);
    assert_eq!(schema_check(1), SchemaCheck::Current);
    assert_eq!(schema_check(2), SchemaCheck::TooNew);
}

#[test]
fn only_due_feeds_with_subscribers_are_loaded() {
    let feeds = vec![row(1, "https://a", 50), row(2, "https://b", 500), row(3, "https://c", 10)];
    let subs = vec![sub(1, b"A"), sub(2, b"B"), sub(1, b"C")];
    let entries = vec![seen(1, "x"), seen(3, "y"), seen(1, "z")];
    let due = due_feeds(&feeds, &entries, &subs, 100);
    assert_eq!(due.len(), 1);
    assert_eq!(due[0].url, "https://a");
    assert_eq!(due[0].users, vec![b"A".to_vec(), b"C".to_vec()]);
    assert_eq!(due[0].seen_entries, vec!["x".to_string(), "z".to_string()]);
    assert_eq!(due[0].last_fetch, 100);
    assert_eq!(due[0].next_fetch, 50);
}

#[test]
fn duplicate_subscriber_rows_give_one_subscriber() {
    let subs = vec![sub(1, b"A"), sub(1, b"B"), sub(1, b"A")];
    let due = due_feeds(&[row(1, "https://a", 50)], &[], &subs, 100);
    assert_eq!(due[0].users, vec![b"A".to_vec(), b"B".to_vec()]);
}

#[test]
fn feed_due_exactly_now_is_loaded() {
    let due = due_feeds(&[row(1, "https://a", 100)], &[], &[sub(1, b"A")], 100);
    assert_eq!(due.len(), 1);
}

#[test]
fn removing_last_subscriber_hides_the_feed() {
    let feeds = vec![row(1, "https://a", 50), row(2, "https://b", 50)];
    let mut subs = vec![sub(1, b"A"), sub(2, b"B")];
    assert_eq!(due_feeds(&feeds, &[], &subs, 100).len(), 2);
    subs.retain(|s| !(s.feed_id == 1 && s.user == b"A"));
    let due = due_feeds(&feeds, &[], &subs, 100);
    assert_eq!(due.len(), 1);
    assert_eq!(due[0].url, "https://b");
}

#[test]
fn stored_time_that_is_no_clock_reading_counts_as_none() {
    let mut r = row(1, "https://a", 50);
    r.last_check = -5;
    let due = due_feeds(&[r], &[], &[sub(1, b"A")], 100);
    assert_eq!(due[0].last_fetch, 0);
}

#[test]
fn stored_record_loads_back_the_same() {
    let feed = Feed {
        url: "https://x/feed.xml".to_string(),
        users: vec![b"A".to_vec(), b"B".to_vec()],
        seen_entries: vec!["1".to_string(), "2".to_string()],
        last_fetch: 1_000,
        next_fetch: 2_000,
        etag: Some("\"v\"".to_string()),
    };
    let stored = feed.to_rows(9);
    assert_eq!(stored.feed.id, 9);
    assert_eq!(stored.entries.len(), 2);
    assert!(stored.subscribers.iter().all(|s| s.feed_id == 9));
    let back = due_feeds(&[stored.feed.clone()], &stored.entries, &stored.subscribers, 2_000);
    assert_eq!(back.len(), 1);
    assert_eq!(back[0].url, feed.url);
    assert_eq!(back[0].users, feed.users);
    assert_eq!(back[0].seen_entries, feed.seen_entries);
    assert_eq!(back[0].last_fetch, feed.last_fetch);
    assert_eq!(back[0].next_fetch, feed.next_fetch);
    assert_eq!(back[0].etag, feed.etag);
    assert!(due_feeds(&[stored.feed], &stored.entries, &stored.subscribers, 1_999).is_empty());
}
