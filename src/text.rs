//! Replies sent to subscribers, built from plain text pieces.
use vstd::prelude::*;
use crate::expiry::HeaderName;
use crate::feed::{Entry, Error, ReadFailure};

verus! {

/// Greeting sent on `/start` and `/help`.
pub const WELCOME: &'static str = "Hi, I'm srsrssrs, a serious RSS Rust bot. Sorry if it gave you a stroke to read that.

To get started, /add <FEED URL>. If you get tired of the feed, use /rm <FEED URL>. You can view what feeds you're subscribed to with /ls.";

/// Reply to a command that needs a URL and came without a usable one.
pub const NO_URL: &'static str = "You need to include a (valid) URL after the command.";

/// Reply to a listing request from someone with no subscriptions.
pub const NO_FEEDS: &'static str = "You're not subscribed to any feeds. Here's a good one you could try (wink, wink): https://lonami.dev/blog/atom.xml";

/// The lines of a listing: each feed on a line of its own, after a bullet.
pub open spec fn bullet_lines(feeds: Seq<Seq<char>>) -> Seq<char>
    decreases feeds.len(),
{
    if feeds.len() == 0 {
        Seq::empty()
    } else {
        bullet_lines(feeds.drop_last()) + "\n\u{e2}\u{20ac}\u{a2} "@ + feeds.last()
    }
}

/// The reply to a listing request.
pub open spec fn feed_list_text(feeds: Seq<Seq<char>>) -> Seq<char> {
    if feeds.len() == 0 {
        NO_FEEDS@
    } else {
        "These are your feeds:"@ + bullet_lines(feeds)
    }
}

/// Reply while a feed is being added.
pub fn try_add(url: &str) -> (r: String)
    ensures
        r@ == "Trying to add "@ + url@ + "..."@,
{
    String::from_str("Trying to add ").concat(url).concat("...")
}

/// Reply once a feed has been added.
pub fn add_ok(url: &str) -> (r: String)
    ensures
        r@ == "Added "@ + url@ + " to your list of feeds."@,
{
    String::from_str("Added ").concat(url).concat(" to your list of feeds.")
}

/// Reply once a subscription has been removed.
pub fn del_ok(url: &str) -> (r: String)
    ensures
        r@ == "You will no longer receive updates from "@ + url@ + "."@,
{
    String::from_str("You will no longer receive updates from ").concat(url).concat(".")
}

/// Reply to a removal of a subscription that did not exist.
pub fn del_err(url: &str) -> (r: String)
    ensures
        r@ == "You were not subscribed to "@ + url@ + "!"@,
{
    String::from_str("You were not subscribed to ").concat(url).concat("!")
}

/// Lists the feeds of a subscriber, or says that there are none.
pub fn feed_list(feeds: &[String]) -> (r: String)
    ensures
        r@ == feed_list_text(feeds@.map_values(|f: String| f@)),
{
    if feeds.len() == 0 {
        return String::from_str(NO_FEEDS);
    }
    let ghost views = feeds@.map_values(|f: String| f@);
    let mut result = String::from_str("These are your feeds:");
    let mut i: usize = 0;
    while i < feeds.len()
        invariant
            i <= feeds@.len(),
            views == feeds@.map_values(|f: String| f@),
            result@ == "These are your feeds:"@ + bullet_lines(views.take(i as int)),
        decreases feeds.len() - i,
    {
        assert(views.take(i as int + 1).drop_last() == views.take(i as int));
        result.append("\n\u{e2}\u{20ac}\u{a2} ");
        result.append(feeds[i].as_str());
        i = i + 1;
    }
    assert(views.take(feeds.len() as int) == views);
    result
}

/// The text of a decimal digit.
pub open spec fn digit_text(d: int) -> Seq<char> {
    if d == 0 {
        "0"@
    } else if d == 1 {
        "1"@
    } else if d == 2 {
        "2"@
    } else if d == 3 {
        "3"@
    } else if d == 4 {
        "4"@
    } else if d == 5 {
        "5"@
    } else if d == 6 {
        "6"@
    } else if d == 7 {
        "7"@
    } else if d == 8 {
        "8"@
    } else {
        "9"@
    }
}

/// `n` written in decimal.
pub open spec fn decimal_text(n: nat) -> Seq<char>
    decreases n,
{
    if n < 10 {
        digit_text(n as int)
    } else {
        decimal_text(n / 10) + digit_text((n % 10) as int)
    }
}

fn digit_str(d: u16) -> (r: &'static str)
    requires
        d < 10,
    ensures
        r@ == digit_text(d as int),
{
    if d == 0 {
        "0"
    } else if d == 1 {
        "1"
    } else if d == 2 {
        "2"
    } else if d == 3 {
        "3"
    } else if d == 4 {
        "4"
    } else if d == 5 {
        "5"
    } else if d == 6 {
        "6"
    } else if d == 7 {
        "7"
    } else if d == 8 {
        "8"
    } else {
        "9"
    }
}

/// `n` written in decimal.
pub fn decimal(n: u16) -> (r: String)
    ensures
        r@ == decimal_text(n as nat),
    decreases n,
{
    if n < 10 {
        String::from_str(digit_str(n))
    } else {
        decimal(n / 10).concat(digit_str(n % 10))
    }
}

/// The name of a header, as HTTP writes it.
pub open spec fn header_text(name: HeaderName) -> Seq<char> {
    match name {
        HeaderName::CacheControl => "cache-control"@,
        HeaderName::Expires => "expires"@,
        HeaderName::ETag => "etag"@,
    }
}

/// The name of a header, as HTTP writes it.
pub fn header_str(name: HeaderName) -> (r: &'static str)
    ensures
        r@ == header_text(name),
{
    match name {
        HeaderName::CacheControl => "cache-control",
        HeaderName::Expires => "expires",
        HeaderName::ETag => "etag",
    }
}

/// Relies on the `Display` of feed_rs's `ParseFeedError` for a description.
#[verifier::external_body]
fn parse_error_text(e: &feed_rs::parser::ParseFeedError) -> String {
    e.to_string()
}

/// Whether `d` describes `e`: the parser's own words for a parse error.
pub open spec fn describes(e: Error, d: Seq<char>) -> bool {
    match e {
        Error::ReadError(ReadFailure::Network(m)) => d == "network error: "@ + m@,
        Error::ReadError(ReadFailure::Status(code)) => d == "network error: HTTP status "@
            + decimal_text(code as nat),
        Error::ParseError(_) => exists|words: Seq<char>| d == "error parsing feed: "@ + words,
        Error::MalformedHeader(name) => d == "error parsing header "@ + header_text(name),
        Error::Unsupported => d == "the feed uses an extension that cannot be read safely"@,
    }
}

impl Error {
    /// A description of the error for a subscriber.
    pub fn describe(&self) -> (r: String)
        ensures
            describes(*self, r@),
    {
        match self {
            Error::ReadError(ReadFailure::Network(m)) => String::from_str("network error: ").concat(
                m.as_str(),
            ),
            Error::ReadError(ReadFailure::Status(code)) => {
                let digits = decimal(*code);
                String::from_str("network error: HTTP status ").concat(digits.as_str())
            },
            Error::ParseError(e) => {
                let words = parse_error_text(e);
                let r = String::from_str("error parsing feed: ").concat(words.as_str());
                assert(r@ == "error parsing feed: "@ + words@);
                r
            },
            Error::MalformedHeader(name) => String::from_str("error parsing header ").concat(
                header_str(*name),
            ),
            Error::Unsupported => String::from_str("the feed uses an extension that cannot be read safely"),
        }
    }
}

/// Reply when a feed could not be added.
pub fn add_err(url: &str, e: Error) -> (r: String)
    ensures
        exists|d: Seq<char>|
            describes(e, d) && r@ == "Failed to add "@ + url@ + " to your list of feeds: "@ + d + "."@,
{
    let d = e.describe();
    String::from_str("Failed to add ").concat(url).concat(" to your list of feeds: ").concat(
        d.as_str(),
    ).concat(".")
}

/// The title line of an entry's message.
pub open spec fn title_line(entry: Entry) -> Seq<char> {
    match entry.title {
        Some(t) => t@,
        None => "(untitled)"@,
    }
}

/// The link line of an entry's message: its first link.
pub open spec fn link_line(entry: Entry) -> Seq<char> {
    if entry.links@.len() > 0 {
        entry.links@[0]@
    } else {
        "(no online url)"@
    }
}

/// The message that announces a new entry: its title, then its first link.
pub fn new_entry(entry: &Entry) -> (r: String)
    ensures
        r@ == title_line(*entry) + "\n"@ + link_line(*entry),
{
    let title = match &entry.title {
        Some(t) => t.clone(),
        None => String::from_str("(untitled)"),
    };
    let link: &str = if entry.links.len() > 0 {
        entry.links[0].as_str()
    } else {
        "(no online url)"
    };
    title.concat("\n").concat(link)
}

} // verus!
