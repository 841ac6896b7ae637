use srsrssrs::dispatch::{all_failed, refusal_outcome, Delivery, SaveHistory};
use srsrssrs::expiry::Header;
use srsrssrs::feed::{neutralize, Entry, Error, Feed, ReadFailure, Response, NOT_MODIFIED};

const NOW: i64 = 1_700_000_000;

fn atom(entries: &[&str]) -> Vec<u8> {
    let mut xml = String::from(
        "<?xml version=\"1.0\" encoding=\"utf-8\"?>\
         <feed xmlns=\"http://www.w3.org/2005/Atom\"><title>Test</title><id>urn:test</id>\
         <updated>2024-01-01T00:00:00Z</updated>",
    );
    for id in entries {
        xml.push_str(&format!(
            "<entry><title>Entry {id}</title><id>{id}</id><link href=\"https://x/{id}\"/>\
             <updated>2024-01-01T00:00:00Z</updated></entry>"
        ));
    }
    xml.push_str("</feed>");
    xml.into_bytes()
}

fn ok_response(body: Vec<u8>) -> Response {
    Response {
        status: 200,
        cache_control: Header::Missing,
        expires: Header::Missing,
        etag: Header::Missing,
        body,
    }
}

fn ids(entries: &[Entry]) -> Vec<String> {
    entries.iter().map(|e| e.id.clone()).collect()
}

fn has_seen(feed: &Feed, id: &str) -> bool {
    feed.seen_entries.iter().any(|s| s == id)
}

fn entry(id: &str) -> Entry {
    Entry { id: id.to_string(), title: None, links: Vec::new() }
}

#[test]
fn check_feed_fetch_works() {
    let user = vec![2, 6, 0, 0, 0, 0];
    let mut feed = Feed::new("https://x/old.xml", user, &ok_response(atom(&["a", "b"])), NOW).unwrap();
    feed.url = "https://x/new.xml".to_string();
    let fresh = feed.check(&ok_response(atom(&["a", "b", "c"])), NOW + 700).unwrap();
    assert!(!fresh.is_empty());
}

#[test]
fn new_feed_counts_all_entries_as_seen() {
    let mut resp = ok_response(atom(&["1", "2"]));
    resp.cache_control = Header::Text("max-age=120".to_string());
    resp.etag = Header::Text("\"v1\"".to_string());
    let feed = Feed::new("https://x/feed.xml", vec![7], &resp, NOW).unwrap();
    assert_eq!(feed.url, "https://x/feed.xml");
    assert_eq!(feed.users, vec![vec![7u8]]);
    assert!(has_seen(&feed, "1") && has_seen(&feed, "2"));
    assert_eq!(feed.last_fetch, NOW);
    assert_eq!(feed.next_fetch, NOW + 120);
    assert_eq!(feed.etag.as_deref(), Some("\"v1\""));
}

#[test]
fn new_feed_with_error_status_is_read_error() {
    let mut resp = ok_response(Vec::new());
    resp.status = 404;
    let r = Feed::new("https://x/feed.xml", vec![7], &resp, NOW);
    assert!(matches!(r, Err(Error::ReadError(ReadFailure::Status(404)))));
}

#[test]
fn new_feed_with_garbage_body_is_parse_error() {
    let r = Feed::new("https://x/feed.xml", vec![7], &ok_response(b"hello".to_vec()), NOW);
    assert!(matches!(r, Err(Error::ParseError(_))));
}

#[test]
fn new_feed_with_malformed_expires_uses_default_delay() {
    let mut resp = ok_response(atom(&["1"]));
    resp.expires = Header::Text("not a date".to_string());
    let feed = Feed::new("https://x/feed.xml", vec![7], &resp, NOW).unwrap();
    assert_eq!(feed.next_fetch, NOW + 600);
}

#[test]
fn poll_delivers_only_new_entries() {
    let mut feed =
        Feed::new("https://x/feed.xml", b"A".to_vec(), &ok_response(atom(&["1", "2"])), NOW).unwrap();
    let fresh = feed.check(&ok_response(atom(&["2", "3"])), NOW + 600).unwrap();
    assert_eq!(ids(&fresh), vec!["3".to_string()]);
}

#[test]
fn seen_entries_never_come_back_in_any_order() {
    let mut feed =
        Feed::new("https://x/feed.xml", b"A".to_vec(), &ok_response(atom(&["1", "2"])), NOW).unwrap();
    let fresh = feed.check(&ok_response(atom(&["4", "2", "3", "1"])), NOW + 600).unwrap();
    assert_eq!(ids(&fresh), vec!["4".to_string(), "3".to_string()]);
}

#[test]
fn not_modified_gives_no_entries_and_advances_next_fetch() {
    let mut feed = Feed::new("https://x/feed.xml", b"A".to_vec(), &ok_response(atom(&["1"])), NOW).unwrap();
    feed.etag = Some("\"v1\"".to_string());
    let mut resp = ok_response(Vec::new());
    resp.status = NOT_MODIFIED;
    resp.cache_control = Header::Text("max-age=300".to_string());
    resp.etag = Header::Text("\"v1\"".to_string());
    let later = NOW + 1000;
    let fresh = feed.check(&resp, later).unwrap();
    assert!(fresh.is_empty());
    assert_eq!(feed.next_fetch, later + 300);
    assert_eq!(feed.last_fetch, later);
    assert_eq!(feed.etag.as_deref(), Some("\"v1\""));
}

#[test]
fn check_takes_the_new_validator() {
    let mut feed = Feed::new("https://x/feed.xml", b"A".to_vec(), &ok_response(atom(&["1"])), NOW).unwrap();
    let mut resp = ok_response(atom(&["1"]));
    resp.etag = Header::Text("\"v2\"".to_string());
    feed.check(&resp, NOW + 700).unwrap();
    assert_eq!(feed.etag.as_deref(), Some("\"v2\""));
}

#[test]
fn response_without_validator_clears_it() {
    let mut feed = Feed::new("https://x/feed.xml", b"A".to_vec(), &ok_response(atom(&["1"])), NOW).unwrap();
    feed.etag = Some("\"v1\"".to_string());
    let mut resp = ok_response(Vec::new());
    resp.status = NOT_MODIFIED;
    feed.check(&resp, NOW + 700).unwrap();
    assert_eq!(feed.etag, None);
    feed.etag = Some("\"v1\"".to_string());
    let mut malformed = ok_response(atom(&["1"]));
    malformed.etag = Header::Malformed;
    feed.check(&malformed, NOW + 1400).unwrap();
    assert_eq!(feed.etag, None);
}

fn podcast(duration: &str) -> Vec<u8> {
    format!(
        "<?xml version=\"1.0\"?><rss version=\"2.0\" \
         xmlns:itunes=\"http://www.itunes.com/dtds/podcast-1.0.dtd\"><channel><title>P</title>\
         <item><title>Ep</title><guid>ep1</guid><link>https://x/ep1</link>\
         <itunes:duration>{duration}</itunes:duration></item></channel></rss>"
    )
    .into_bytes()
}

#[test]
fn podcast_feeds_are_read_without_their_durations() {
    // Arabic-Indic digits, and 21 ASCII digits, which the parser's duration reading cannot convert.
    for duration in ["\u{661}:00:00", "123456789012345678901"] {
        let feed = Feed::new("https://x/p.xml", b"A".to_vec(), &ok_response(podcast(duration)), NOW).unwrap();
        assert_eq!(feed.seen_entries, vec!["ep1".to_string()]);
    }
}

#[test]
fn media_rss_feeds_are_read() {
    let body = "<feed xmlns=\"http://www.w3.org/2005/Atom\" xmlns:media=\"http://search.yahoo.com/mrss/\">\
        <title>V</title><id>v</id><entry><id>yt:1</id><title>Clip</title><link href=\"https://x/v1\"/>\
        <media:group><media:text start=\"\u{661}\">t</media:text><media:thumbnail url=\"u\" time=\"99999999999999999999999\"/></media:group></entry></feed>"
        .as_bytes().to_vec();
    let mut feed = Feed::new("https://x/m.xml", b"A".to_vec(), &ok_response(atom(&["0"])), NOW).unwrap();
    let fresh = feed.check(&ok_response(body), NOW + 700).unwrap();
    assert_eq!(ids(&fresh), vec!["yt:1".to_string()]);
    assert_eq!(fresh[0].links, vec!["https://x/v1".to_string()]);
}

#[test]
fn unparsable_body_with_namespace_text_is_parse_error() {
    let body = b"not a feed, but http://www.itunes.com/dtds/podcast-1.0.dtd \0".to_vec();
    let r = Feed::new("https://x/p.xml", b"A".to_vec(), &ok_response(body), NOW);
    assert!(matches!(r, Err(Error::ParseError(_))));
}

#[test]
fn bodies_with_escape_bytes_are_refused() {
    let body = b"<?xml version=\"1.0\" encoding=\"ISO-2022-JP\"?><feed>\x1b(B</feed>".to_vec();
    let r = Feed::new("https://x/j.xml", b"A".to_vec(), &ok_response(body.clone()), NOW);
    assert!(matches!(r, Err(Error::Unsupported)));
    let mut feed = Feed::new("https://x/j.xml", b"A".to_vec(), &ok_response(atom(&["1"])), NOW).unwrap();
    assert!(matches!(feed.check(&ok_response(body), NOW + 700), Err(Error::Unsupported)));
    assert_eq!(feed.last_fetch, NOW);
}

#[test]
fn neutralize_marks_namespace_texts_only() {
    let mut body = b"a http://search.yahoo.com/mrss/ b".to_vec();
    let out = neutralize(&body);
    assert_eq!(out, b"a xttp://search.yahoo.com/mrss/ b".to_vec());
    body = "h\0t\0t\0p\0:\0/\0/\0s\0e\0a\0r\0c\0h\0.\0y\0a\0h\0o\0o\0.\0c\0o\0m\0/\0m\0r\0s\0s\0/\0"
        .as_bytes()
        .to_vec();
    assert_eq!(neutralize(&body)[0], b'x');
    assert_eq!(neutralize(b"plain"), b"plain".to_vec());
}

#[test]
fn check_with_error_status_leaves_the_record() {
    let mut feed = Feed::new("https://x/feed.xml", b"A".to_vec(), &ok_response(atom(&["1"])), NOW).unwrap();
    let next = feed.next_fetch;
    let mut resp = ok_response(Vec::new());
    resp.status = 503;
    let r = feed.check(&resp, NOW + 700);
    assert!(matches!(r, Err(Error::ReadError(ReadFailure::Status(503)))));
    assert_eq!(feed.next_fetch, next);
    assert_eq!(feed.last_fetch, NOW);
}

#[test]
fn check_with_garbage_body_is_parse_error() {
    let mut feed = Feed::new("https://x/feed.xml", b"A".to_vec(), &ok_response(atom(&["1"])), NOW).unwrap();
    let r = feed.check(&ok_response(b"{ nope".to_vec()), NOW + 700);
    assert!(matches!(r, Err(Error::ParseError(_))));
    assert_eq!(feed.last_fetch, NOW);
}

#[test]
fn failed_fetch_retries_after_default_delay() {
    let mut feed = Feed::new("https://x/feed.xml", b"A".to_vec(), &ok_response(atom(&["1"])), NOW).unwrap();
    feed.reset_expiry(NOW + 5);
    assert_eq!(feed.next_fetch_timestamp(), NOW + 5 + 600);
}

#[test]
fn if_modified_since_is_an_http_date() {
    let mut feed = Feed::new("https://x/feed.xml", b"A".to_vec(), &ok_response(atom(&["1"])), NOW).unwrap();
    feed.last_fetch = 0;
    assert_eq!(feed.if_modified_since(), "Thu, 1 Jan 1970 00:00:00 +0000");
}

#[test]
fn one_success_marks_entry_seen() {
    let mut feed = Feed::new(
        "https://x/feed.xml",
        b"A".to_vec(),
        &ok_response(atom(&["1"])),
        NOW,
    )
    .unwrap();
    feed.users.push(b"B".to_vec());
    let fresh = feed.check(&ok_response(atom(&["1", "4"])), NOW + 700).unwrap();
    assert_eq!(ids(&fresh), vec!["4".to_string()]);
    let go_on = feed.settle_entry(&fresh, 0, &[Delivery::Delivered, Delivery::Unreachable]);
    assert!(go_on);
    assert!(has_seen(&feed, "4"));
}

#[test]
fn full_failure_rolls_the_round_back() {
    let mut feed = Feed::new("https://x/feed.xml", b"A".to_vec(), &ok_response(atom(&["0"])), NOW).unwrap();
    feed.users.push(b"B".to_vec());
    feed.etag = Some("\"v1\"".to_string());
    let fresh = vec![entry("E1"), entry("E2")];
    assert!(feed.settle_entry(&fresh, 0, &[Delivery::Delivered, Delivery::Failed]));
    assert!(has_seen(&feed, "E1"));
    let go_on = feed.settle_entry(&fresh, 1, &[Delivery::Failed, Delivery::Failed]);
    assert!(!go_on);
    assert!(!has_seen(&feed, "E1"));
    assert!(!has_seen(&feed, "E2"));
    assert!(has_seen(&feed, "0"));
    assert_eq!(feed.etag, None);
    assert_eq!(feed.last_fetch, 0);
}

#[test]
fn reset_entries_forgets_only_the_round() {
    let mut feed =
        Feed::new("https://x/feed.xml", b"A".to_vec(), &ok_response(atom(&["1", "2", "3"])), NOW).unwrap();
    feed.reset_entries(&[entry("2"), entry("9")]);
    assert!(has_seen(&feed, "1") && has_seen(&feed, "3") && !has_seen(&feed, "2"));
    assert_eq!(feed.last_fetch, 0);
}

#[test]
fn all_failed_counts_unreachable_as_success() {
    assert!(all_failed(&[Delivery::Failed, Delivery::Failed]));
    assert!(!all_failed(&[Delivery::Failed, Delivery::Unreachable]));
    assert!(!all_failed(&[Delivery::Delivered]));
    assert!(all_failed(&[]));
}

#[test]
fn two_failed_saves_in_a_row_are_fatal() {
    let mut history = SaveHistory::new();
    assert!(!history.record_save(false));
    assert!(history.record_save(false));
    let mut again = SaveHistory::new();
    assert!(!again.record_save(false));
    assert!(!again.record_save(true));
    assert!(!again.record_save(false));
}

#[test]
fn blocked_recipient_is_unreachable() {
    assert_eq!(refusal_outcome("USER_IS_BLOCKED"), Delivery::Unreachable);
    assert_eq!(refusal_outcome("FLOOD_WAIT"), Delivery::Failed);
}

#[test]
fn conditions_carry_last_fetch_and_validator() {
    let mut feed = Feed::new("https://x/feed.xml", b"A".to_vec(), &ok_response(atom(&["1"])), NOW).unwrap();
    feed.last_fetch = 0;
    feed.etag = Some("\"v9\"".to_string());
    let c = feed.conditions();
    assert_eq!(c.if_modified_since, "Thu, 1 Jan 1970 00:00:00 +0000");
    assert_eq!(c.if_none_match.as_deref(), Some("\"v9\""));
}

#[test]
fn poll_backs_off_after_a_failed_fetch() {
    let mut feed = Feed::new("https://x/feed.xml", b"A".to_vec(), &ok_response(atom(&["1"])), NOW).unwrap();
    let r = feed.poll(Err(Error::ReadError(ReadFailure::Network("down".to_string()))), NOW + 50);
    assert!(matches!(r, Err(Error::ReadError(ReadFailure::Network(_)))));
    assert_eq!(feed.next_fetch, NOW + 50 + 600);
    assert_eq!(feed.last_fetch, NOW);
    let mut bad = ok_response(Vec::new());
    bad.status = 500;
    assert!(feed.poll(Ok(bad), NOW + 60).is_err());
    assert_eq!(feed.next_fetch, NOW + 60 + 600);
    let fresh = feed.poll(Ok(ok_response(atom(&["1", "2"]))), NOW + 70).unwrap();
    assert_eq!(ids(&fresh), vec!["2".to_string()]);
}
