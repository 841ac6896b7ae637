use srsrssrs::command::{accept_url, command_of, parse_command, parse_url, starts_with, Command};
use srsrssrs::expiry::HeaderName;
use srsrssrs::feed::{Entry, Error, Feed, ReadFailure, Response};
use srsrssrs::expiry::Header;
use srsrssrs::text::{
    add_err, add_ok, decimal, del_err, del_ok, feed_list, new_entry, try_add, NO_FEEDS, NO_URL,
    WELCOME,
};

#[test]
fn replies_name_the_url() {
    assert_eq!(try_add("https://x"), "Trying to add https://x...");
    assert_eq!(add_ok("https://x"), "Added https://x to your list of feeds.");
    assert_eq!(del_ok("https://x"), "You will no longer receive updates from https://x.");
    assert_eq!(del_err("https://x"), "You were not subscribed to https://x!");
    assert!(NO_URL.contains("URL"));
    assert!(WELCOME.contains("/add <FEED URL>"));
}

#[test]
fn feed_list_without_feeds() {
    assert_eq!(feed_list(&[]), NO_FEEDS);
}

#[test]
fn feed_list_with_feeds() {
    let feeds = vec!["https://a".to_string(), "https://b".to_string()];
    assert_eq!(feed_list(&feeds), "These are your feeds:\n\u{e2}\u{20ac}\u{a2} https://a\n\u{e2}\u{20ac}\u{a2} https://b");
}

#[test]
fn add_err_describes_each_error() {
    assert_eq!(
        add_err("https://x", Error::MalformedHeader(HeaderName::Expires)),
        "Failed to add https://x to your list of feeds: error parsing header expires."
    );
    assert_eq!(
        add_err("https://x", Error::ReadError(ReadFailure::Status(404))),
        "Failed to add https://x to your list of feeds: network error: HTTP status 404."
    );
    assert_eq!(
        add_err("https://x", Error::Unsupported),
        "Failed to add https://x to your list of feeds: the feed uses an extension that cannot be read safely."
    );
    assert_eq!(
        add_err("https://x", Error::ReadError(ReadFailure::Network("timed out".to_string()))),
        "Failed to add https://x to your list of feeds: network error: timed out."
    );
}

#[test]
fn parse_error_is_described_by_the_parser() {
    let resp = Response {
        status: 200,
        cache_control: Header::Missing,
        expires: Header::Missing,
        etag: Header::Missing,
        body: b"hello".to_vec(),
    };
    let e = Feed::new("https://x", vec![1], &resp, 0).unwrap_err();
    let d = e.describe();
    assert!(d.starts_with("error parsing feed: "));
    assert!(d.len() > "error parsing feed: ".len());
}

#[test]
fn decimal_writes_numbers() {
    assert_eq!(decimal(0), "0");
    assert_eq!(decimal(404), "404");
    assert_eq!(decimal(65535), "65535");
}

#[test]
fn new_entry_message() {
    let e = Entry {
        id: "1".to_string(),
        title: Some("Hello".to_string()),
        links: vec!["https://x/1".to_string(), "https://x/2".to_string()],
    };
    assert_eq!(new_entry(&e), "Hello\nhttps://x/1");
    let bare = Entry { id: "2".to_string(), title: None, links: Vec::new() };
    assert_eq!(new_entry(&bare), "(untitled)\n(no online url)");
}

#[test]
fn parse_url_accepts_web_addresses() {
    assert_eq!(parse_url(Some("https://x/feed.xml")), Some("https://x/feed.xml"));
    assert_eq!(parse_url(Some("HTTP://X/feed?page=2#top")), Some("HTTP://X/feed"));
    assert_eq!(parse_url(Some("https://x/a#b?c")), Some("https://x/a"));
}

#[test]
fn parse_url_refuses_other_addresses() {
    assert_eq!(parse_url(None), None);
    assert_eq!(parse_url(Some("ftp://x/feed")), None);
    assert_eq!(parse_url(Some("http://localhost:8080/feed")), None);
    assert_eq!(parse_url(Some("HTTP://127.0.0.1/feed")), None);
    assert_eq!(parse_url(Some("x")), None);
}

#[test]
fn accept_url_reads_the_lower_case_form() {
    assert_eq!(accept_url("HTTPS://X", "https://x"), Some("HTTPS://X"));
    assert_eq!(accept_url("HTTPS://X", "HTTPS://X"), None);
    assert!(starts_with("abc", "ab"));
    assert!(!starts_with("ab", "abc"));
}

#[test]
fn commands_are_recognised() {
    assert!(matches!(parse_command("/start"), Some(Command::Help)));
    assert!(matches!(parse_command("  /help me"), Some(Command::Help)));
    assert!(matches!(parse_command("/ls"), Some(Command::List)));
    assert!(matches!(parse_command("/list"), Some(Command::List)));
    assert!(matches!(parse_command("hello"), None));
    assert!(matches!(parse_command("   "), None));
    match parse_command("/add\thttps://x/feed.xml?a=1") {
        Some(Command::Add(Some(u))) => assert_eq!(u, "https://x/feed.xml"),
        other => panic!("unexpected {:?}", other),
    }
    assert!(matches!(parse_command("/add"), Some(Command::Add(None))));
    assert!(matches!(parse_command("/del ftp://x"), Some(Command::Remove(None))));
    match command_of(&["/rm", "http://y"]) {
        Some(Command::Remove(Some(u))) => assert_eq!(u, "http://y"),
        other => panic!("unexpected {:?}", other),
    }
}
