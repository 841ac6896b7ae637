//! Feed records: what is known of each subscribed feed, and how a fetch
//! and a round of deliveries change it.
use vstd::prelude::*;
use crate::expiry::{
    next_fetch_after, next_fetch_of, valid_time, Header, HeaderName, DEFAULT_FETCH_DELAY,
    MAX_FETCH_DELAY, MIN_FETCH_DELAY,
};

verus! {

/// The error that the feed parser reports.
#[verifier::external_type_specification]
#[verifier::external_body]
pub struct ExParseFeedError(feed_rs::parser::ParseFeedError);

/// Why a feed could not be read from the network.
#[derive(Clone, Debug, PartialEq, Eq)]
pub enum ReadFailure {
    /// The request did not complete; the text says why.
    Network(String),
    /// The server answered with a client or server error status.
    Status(u16),
}

/// What can go wrong while adding or fetching a feed.
#[derive(Debug)]
pub enum Error {
    ReadError(ReadFailure),
    ParseError(feed_rs::parser::ParseFeedError),
    MalformedHeader(HeaderName),
    /// The body declares an extension namespace that the parser reads with
    /// code that can crash; such feeds are not read.
    Unsupported,
}

/// The status of a "not modified" answer to a conditional request.
pub const NOT_MODIFIED: u16 = 304;

/// Whether a status reports a client or server error.
pub open spec fn is_failure_status(status: u16) -> bool {
    400 <= status <= 599
}

/// One entry of a feed, as the parser hands it over.
#[derive(Clone, Debug)]
pub struct Entry {
    pub id: String,
    pub title: Option<String>,
    pub links: Vec<String>,
}

/// What the HTTP layer received for a request of a feed.
#[derive(Clone, Debug)]
pub struct Response {
    pub status: u16,
    pub cache_control: Header,
    pub expires: Header,
    pub etag: Header,
    pub body: Vec<u8>,
}

/// The conditions of a request for a known feed: `If-Modified-Since` and,
/// where a validator is known, `If-None-Match`.
#[derive(Clone, Debug)]
pub struct Conditions {
    pub if_modified_since: String,
    pub if_none_match: Option<String>,
}

/// A subscribed feed.
#[derive(Debug)]
pub struct Feed {
    pub url: String,
    /// The subscribers, each as the packed bytes of its chat handle.
    pub users: Vec<Vec<u8>>,
    /// Identifiers of the entries already delivered, or present when the
    /// first subscriber added the feed.
    pub seen_entries: Vec<String>,
    /// When the feed was last fetched, in seconds since the Unix epoch.
    pub last_fetch: i64,
    /// When the feed may be fetched again, in seconds since the Unix epoch.
    pub next_fetch: i64,
    /// Entity tag of the last response, presented on the next fetch.
    pub etag: Option<String>,
}

/// A feed record as a mathematical value.
pub struct FeedView {
    pub url: Seq<char>,
    pub users: Seq<Seq<u8>>,
    pub seen: Set<Seq<char>>,
    pub last_fetch: int,
    pub next_fetch: int,
    pub etag: Option<Seq<char>>,
}

/// The texts of a sequence of strings.
pub open spec fn texts(v: Seq<String>) -> Seq<Seq<char>> {
    v.map_values(|s: String| s@)
}

/// The text of an optional string.
pub open spec fn opt_text(o: Option<String>) -> Option<Seq<char>> {
    match o {
        Some(s) => Some(s@),
        None => None,
    }
}

impl View for Feed {
    type V = FeedView;

    open spec fn view(&self) -> FeedView {
        FeedView {
            url: self.url@,
            users: self.users@.map_values(|u: Vec<u8>| u@),
            seen: texts(self.seen_entries@).to_set(),
            last_fetch: self.last_fetch as int,
            next_fetch: self.next_fetch as int,
            etag: opt_text(self.etag),
        }
    }
}

/// The identifiers of some entries.
pub open spec fn entry_ids(entries: Seq<Entry>) -> Set<Seq<char>> {
    entries.map_values(|e: Entry| e.id@).to_set()
}

/// The entries whose identifier is not in `seen`, in their order.
pub open spec fn unseen(entries: Seq<Entry>, seen: Set<Seq<char>>) -> Seq<Entry>
    decreases entries.len(),
{
    if entries.len() == 0 {
        Seq::empty()
    } else {
        let rest = unseen(entries.drop_first(), seen);
        if seen.contains(entries[0].id@) {
            rest
        } else {
            seq![entries[0]] + rest
        }
    }
}

/// The validator that a response carries, if its `ETag` header has text.
pub open spec fn validator_of(etag: Header) -> Option<Seq<char>> {
    match etag {
        Header::Text(t) => Some(t@),
        _ => None,
    }
}

/// The text of the Media RSS namespace.
pub open spec fn media_rss_text() -> Seq<char> {
    "http://search.yahoo.com/mrss/"@
}

/// The text of the iTunes podcast namespace.
pub open spec fn itunes_text() -> Seq<char> {
    "http://www.itunes.com/dtds/podcast-1.0.dtd"@
}

/// Whether the bytes of `hay` from `i` on spell `t` in ASCII.
pub open spec fn ascii_at(hay: Seq<u8>, i: int, t: Seq<char>) -> bool {
    0 <= i && i + t.len() <= hay.len() && forall|k: int|
        0 <= k < t.len() ==> hay[i + k] as u32 == #[trigger] t[k] as u32
}

/// Whether the bytes of `hay` from `i` on spell the ASCII text `t` in UTF-16LE.
pub open spec fn utf16le_at(hay: Seq<u8>, i: int, t: Seq<char>) -> bool {
    0 <= i && i + 2 * t.len() <= hay.len() && forall|k: int|
        0 <= k < t.len() ==> hay[i + 2 * k + 0] as u32 == #[trigger] t[k] as u32 && hay[i + 2 * k + 1] == 0
}

/// Whether the bytes of `hay` from `i` on spell the ASCII text `t` in UTF-16BE.
pub open spec fn utf16be_at(hay: Seq<u8>, i: int, t: Seq<char>) -> bool {
    0 <= i && i + 2 * t.len() <= hay.len() && forall|k: int|
        0 <= k < t.len() ==> hay[i + 2 * k + 1] as u32 == #[trigger] t[k] as u32 && hay[i + 2 * k + 0] == 0
}

/// Whether the bytes of `hay` from `i` on spell `t` in ASCII, UTF-16LE or UTF-16BE.
pub open spec fn text_at(hay: Seq<u8>, i: int, t: Seq<char>) -> bool {
    ascii_at(hay, i, t) || utf16le_at(hay, i, t) || utf16be_at(hay, i, t)
}

/// Whether the text of the Media RSS or the iTunes namespace starts at `i`.
pub open spec fn namespace_at(hay: Seq<u8>, i: int) -> bool {
    text_at(hay, i, media_rss_text()) || text_at(hay, i, itunes_text())
}

/// The byte that stands for the first byte of a namespace text in a
/// prepared body: `x`, which neither namespace text holds.
pub const MARK: u8 = 120;

/// A body as it is handed to the parser: the first byte of every
/// occurrence of either namespace text is replaced by `MARK`. Elements of
/// those namespaces then belong to an unknown namespace, which the parser
/// skips; they only ever fill an entry's media, which this library does not
/// read.
pub open spec fn neutralized(body: Seq<u8>) -> Seq<u8> {
    Seq::new(body.len(), |i: int| if namespace_at(body, i) { MARK } else { body[i] })
}

/// Whether a body can be prepared for the parser: it holds no ESC byte, so
/// no escape sequence (of ISO-2022-JP) can split a namespace text.
pub open spec fn readable(body: Seq<u8>) -> bool {
    !body.contains(27u8)
}

/// Whether the parser can be handed `body` without reaching its reading of
/// media times and podcast durations, which panics on digits that it
/// cannot convert. That code is reached only for elements of the Media RSS
/// or iTunes namespace, which the parser recognises by the namespace text
/// as the body's encoding decodes it from the raw bytes. Without ESC bytes,
/// an ASCII-compatible encoding decodes that text only from its ASCII bytes,
/// and UTF-16 only from its UTF-16LE or UTF-16BE bytes.
pub open spec fn parser_safe(body: Seq<u8>) -> bool {
    readable(body) && forall|i: int| !#[trigger] namespace_at(body, i)
}

/// No prepared body holds a namespace text: a new occurrence would hold no
/// `MARK`, so it stood in the body already, and its first byte was replaced.
proof fn lemma_no_text_left(body: Seq<u8>, j: int, t: Seq<char>)
    requires
        t == media_rss_text() || t == itunes_text(),
        t.len() > 0,
        forall|k: int| 0 <= k < t.len() ==> #[trigger] t[k] as u32 != MARK as u32 && t[k] as u32 != 0,
    ensures
        !text_at(neutralized(body), j, t),
{
    let out = neutralized(body);
    if ascii_at(out, j, t) {
        assert forall|k: int| 0 <= k < t.len() implies body[j + k] as u32 == #[trigger] t[k] as u32 by {
            assert(out[j + k] as u32 == t[k] as u32);
        }
        assert(ascii_at(body, j, t));
        assert(namespace_at(body, j));
        assert(out[j] as u32 == t[0] as u32);
    }
    if utf16le_at(out, j, t) {
        assert forall|k: int| 0 <= k < t.len() implies body[j + 2 * k] as u32 == #[trigger] t[k] as u32
            && body[j + 2 * k + 1] == 0 by {
            let c = t[k];
            assert(out[j + 2 * k] as u32 == c as u32);
            assert(out[j + 2 * k + 1] == 0);
        }
        assert(utf16le_at(body, j, t));
        assert(namespace_at(body, j));
        assert(out[j] as u32 == t[0] as u32);
    }
    if utf16be_at(out, j, t) {
        assert forall|k: int| 0 <= k < t.len() implies body[j + 2 * k + 1] as u32 == #[trigger] t[k] as u32
            && body[j + 2 * k] == 0 by {
            let c = t[k];
            assert(out[j + 2 * k + 1] as u32 == c as u32);
            assert(out[j + 2 * k] == 0);
        }
        assert(utf16be_at(body, j, t));
        assert(namespace_at(body, j));
        let c0 = t[0];
        assert(out[j + 2 * 0] == 0);
    }
}

/// A readable body, once prepared, can be handed to the parser.
proof fn lemma_prepared_is_safe(body: Seq<u8>)
    requires
        readable(body),
    ensures
        parser_safe(neutralized(body)),
{
    reveal_strlit("http://search.yahoo.com/mrss/");
    reveal_strlit("http://www.itunes.com/dtds/podcast-1.0.dtd");
    let out = neutralized(body);
    assert(!out.contains(27u8)) by {
        if out.contains(27u8) {
            let i = choose|i: int| 0 <= i < out.len() && out[i] == 27u8;
            assert(body[i] == 27u8);
        }
    }
    assert forall|j: int| !#[trigger] namespace_at(out, j) by {
        lemma_no_text_left(body, j, media_rss_text());
        lemma_no_text_left(body, j, itunes_text());
    }
}

/// What the parser makes of a body: `None` where it is no feed, else for
/// each entry, in order, its identifier, unless the parser has to make one
/// up at random.
pub uninterp spec fn parsed_shape(body: Seq<u8>) -> Option<Seq<Option<Seq<char>>>>;

/// Whether `parsed` may be what the parser reads from `body`: as many
/// entries as the body holds, with the identifiers that the body fixes.
pub open spec fn parsed_as(body: Seq<u8>, parsed: Seq<Entry>) -> bool {
    match parsed_shape(body) {
        Some(ids) => parsed.len() == ids.len() && forall|i: int|
            0 <= i < ids.len() ==> match #[trigger] ids[i] {
                Some(id) => parsed[i].id@ == id,
                None => true,
            },
        None => false,
    }
}

/// Relies on feed_rs's `parser::parse` to read an Atom, RSS or JSON feed.
/// Whether it succeeds, how many entries it finds and every identifier that
/// the document states, or that the parser derives from an entry's link and
/// title, depend on the bytes alone; where neither exists the parser makes
/// up a random identifier.
#[verifier::external_body]
fn parse_entries(body: &[u8]) -> (r: Result<Vec<Entry>, feed_rs::parser::ParseFeedError>)
    requires
        parser_safe(body@),
    ensures
        (r is Ok) == (parsed_shape(body@) is Some),
        match r {
            Ok(v) => parsed_as(body@, v@),
            Err(_) => true,
        },
{
    feed_rs::parser::parse(body).map(
        |feed|
            feed.entries.into_iter().map(
                |e|
                    Entry {
                        id: e.id,
                        title: e.title.map(|t| t.content),
                        links: e.links.into_iter().map(|l| l.href).collect(),
                    },
            ).collect(),
    )
}

/// Whether the bytes of `hay` from `i` on spell `t` in ASCII.
fn ascii_at_exec(hay: &[u8], i: usize, t: &str) -> (r: bool)
    ensures
        r == ascii_at(hay@, i as int, t@),
{
    let n = t.unicode_len();
    if i > hay.len() || n > hay.len() - i {
        return false;
    }
    let mut k: usize = 0;
    while k < n
        invariant
            k <= n,
            n == t@.len(),
            i as int + n as int <= hay@.len(),
            hay@.len() <= usize::MAX,
            forall|m: int| 0 <= m < k ==> hay@[i + m] as u32 == #[trigger] t@[m] as u32,
        decreases n - k,
    {
        let b: u8 = hay[i + k];
        let c: char = t.get_char(k);
        if (b as u32) != (c as u32) {
            return false;
        }
        k = k + 1;
    }
    true
}

/// Whether the bytes of `hay` from `i` on spell the ASCII text `t` in UTF-16LE.
fn utf16le_at_exec(hay: &[u8], i: usize, t: &str) -> (r: bool)
    ensures
        r == utf16le_at(hay@, i as int, t@),
{
    let n = t.unicode_len();
    if i > hay.len() || n > (hay.len() - i) / 2 {
        return false;
    }
    let mut k: usize = 0;
    while k < n
        invariant
            k <= n,
            n == t@.len(),
            i as int + 2 * n <= hay@.len(),
            hay@.len() <= usize::MAX,
            forall|m: int|
                0 <= m < k ==> hay@[i + 2 * m + 0] as u32 == #[trigger] t@[m] as u32 && hay@[i + 2 * m
                    + 1] == 0,
        decreases n - k,
    {
        let text: u8 = hay[i + 2 * k + 0];
        let zero: u8 = hay[i + 2 * k + 1];
        let c: char = t.get_char(k);
        if (text as u32) != (c as u32) || zero != 0 {
            return false;
        }
        k = k + 1;
    }
    assert(forall|m: int|
        0 <= m < t@.len() ==> hay@[i + 2 * m + 0] as u32 == #[trigger] t@[m] as u32 && hay@[i + 2 * m
            + 1] == 0);
    assert(i as int + 2 * t@.len() <= hay@.len());
    assert(utf16le_at(hay@, i as int, t@));
    true
}

/// Whether the bytes of `hay` from `i` on spell the ASCII text `t` in UTF-16BE.
fn utf16be_at_exec(hay: &[u8], i: usize, t: &str) -> (r: bool)
    ensures
        r == utf16be_at(hay@, i as int, t@),
{
    let n = t.unicode_len();
    if i > hay.len() || n > (hay.len() - i) / 2 {
        return false;
    }
    let mut k: usize = 0;
    while k < n
        invariant
            k <= n,
            n == t@.len(),
            i as int + 2 * n <= hay@.len(),
            hay@.len() <= usize::MAX,
            forall|m: int|
                0 <= m < k ==> hay@[i + 2 * m + 1] as u32 == #[trigger] t@[m] as u32 && hay@[i + 2 * m
                    + 0] == 0,
        decreases n - k,
    {
        let text: u8 = hay[i + 2 * k + 1];
        let zero: u8 = hay[i + 2 * k + 0];
        let c: char = t.get_char(k);
        if (text as u32) != (c as u32) || zero != 0 {
            return false;
        }
        k = k + 1;
    }
    assert(forall|m: int|
        0 <= m < t@.len() ==> hay@[i + 2 * m + 1] as u32 == #[trigger] t@[m] as u32 && hay@[i + 2 * m
            + 0] == 0);
    assert(i as int + 2 * t@.len() <= hay@.len());
    assert(utf16be_at(hay@, i as int, t@));
    true
}

/// Whether `t` starts at `i` in ASCII, UTF-16LE or UTF-16BE.
fn text_at_exec(hay: &[u8], i: usize, t: &str) -> (r: bool)
    ensures
        r == text_at(hay@, i as int, t@),
{
    ascii_at_exec(hay, i, t) || utf16le_at_exec(hay, i, t) || utf16be_at_exec(hay, i, t)
}

/// Prepares a body for the parser: the first byte of every occurrence of
/// the Media RSS or iTunes namespace text becomes `MARK`.
pub fn neutralize(body: &[u8]) -> (r: Vec<u8>)
    ensures
        r@ == neutralized(body@),
{
    let mut r: Vec<u8> = Vec::new();
    let mut i: usize = 0;
    while i < body.len()
        invariant
            i <= body@.len(),
            r@ == neutralized(body@).take(i as int),
        decreases body.len() - i,
    {
        let hit = text_at_exec(body, i, "http://search.yahoo.com/mrss/") || text_at_exec(
            body,
            i,
            "http://www.itunes.com/dtds/podcast-1.0.dtd",
        );
        if hit {
            r.push(MARK);
        } else {
            r.push(body[i]);
        }
        assert(r@ =~= neutralized(body@).take(i as int + 1));
        i = i + 1;
    }
    assert(neutralized(body@).take(body@.len() as int) =~= neutralized(body@));
    r
}

/// Whether `hay` holds the byte `b`.
fn has_byte(hay: &[u8], b: u8) -> (r: bool)
    ensures
        r == hay@.contains(b),
{
    let mut i: usize = 0;
    while i < hay.len()
        invariant
            i <= hay@.len(),
            forall|j: int| 0 <= j < i ==> hay@[j] != b,
        decreases hay.len() - i,
    {
        if hay[i] == b {
            return true;
        }
        i = i + 1;
    }
    false
}

/// Reads the entries of a body, or says why they cannot be read: a body
/// that is not readable is refused, any other is prepared and parsed.
fn read_entries(body: &[u8]) -> (r: Result<Vec<Entry>, Error>)
    ensures
        !readable(body@) ==> r == Err::<Vec<Entry>, Error>(Error::Unsupported),
        readable(body@) ==> ((r is Ok) == (parsed_shape(neutralized(body@)) is Some)),
        match r {
            Ok(v) => parsed_as(neutralized(body@), v@),
            Err(e) => (readable(body@) ==> e is ParseError) && (e is Unsupported || e is ParseError),
        },
{
    if has_byte(body, 27) {
        return Err(Error::Unsupported);
    }
    let prepared = neutralize(body);
    proof {
        lemma_prepared_is_safe(body@);
    }
    match parse_entries(prepared.as_slice()) {
        Ok(entries) => Ok(entries),
        Err(e) => Err(Error::ParseError(e)),
    }
}


/// The RFC 2822 form of an instant, in seconds since the Unix epoch, in UTC.
pub uninterp spec fn rfc2822_text(seconds: int) -> Seq<char>;

/// Relies on chrono's `DateTime::from_timestamp` and `DateTime::to_rfc2822`:
/// the instant written as an RFC 2822 date, in UTC. `from_timestamp` gives
/// an instant for every second from 1970 to the end of year 9999, and
/// `to_rfc2822` panics only outside years 0 to 9999.
#[verifier::external_body]
fn http_date(seconds: i64) -> (r: Option<String>)
    requires
        valid_time(seconds as int),
    ensures
        r is Some,
        match r {
            Some(t) => t@ == rfc2822_text(seconds as int),
            None => true,
        },
{
    chrono::DateTime::from_timestamp(seconds, 0).map(|d| d.to_rfc2822())
}

/// Whether `id` is among `ids`.
pub fn contains_id(ids: &Vec<String>, id: &String) -> (r: bool)
    ensures
        r == texts(ids@).contains(id@),
{
    let mut i: usize = 0;
    while i < ids.len()
        invariant
            i <= ids@.len(),
            forall|j: int| 0 <= j < i ==> ids@[j]@ != id@,
        decreases ids.len() - i,
    {
        if ids[i] == *id {
            assert(texts(ids@)[i as int] == id@);
            return true;
        }
        i = i + 1;
    }
    assert(!texts(ids@).contains(id@)) by {
        if texts(ids@).contains(id@) {
            let j = choose|j: int| 0 <= j < texts(ids@).len() && texts(ids@)[j] == id@;
            assert(ids@[j]@ == id@);
        }
    }
    false
}

/// The validator that a response carries, if its `ETag` header has text.
fn validator(etag: &Header) -> (r: Option<String>)
    ensures
        opt_text(r) == validator_of(*etag),
{
    match etag {
        Header::Text(t) => Some(t.clone()),
        _ => None,
    }
}

/// A feed record after a successful response, received at `now`.
pub open spec fn after_fetch(v: FeedView, resp: Response, now: int) -> FeedView {
    FeedView {
        url: v.url,
        users: v.users,
        seen: v.seen,
        last_fetch: now,
        next_fetch: next_fetch_of(resp.cache_control, resp.expires, now),
        etag: validator_of(resp.etag),
    }
}

/// A feed record after every subscriber failed to receive an entry of
/// `entries`: their identifiers are unseen again, and the next fetch is
/// unconditional.
pub open spec fn after_full_failure(v: FeedView, entries: Seq<Entry>) -> FeedView {
    FeedView {
        url: v.url,
        users: v.users,
        seen: v.seen.difference(entry_ids(entries)),
        last_fetch: 0,
        next_fetch: v.next_fetch,
        etag: None,
    }
}

/// A new feed record, from the first response for `url`.
pub open spec fn first_fetch(
    url: Seq<char>,
    user: Seq<u8>,
    resp: Response,
    entries: Seq<Entry>,
    now: int,
) -> FeedView {
    FeedView {
        url,
        users: seq![user],
        seen: entry_ids(entries),
        last_fetch: now,
        next_fetch: next_fetch_of(resp.cache_control, resp.expires, now),
        etag: validator_of(resp.etag),
    }
}

/// Whether one of `entries` has the identifier `id`.
fn names_entry(entries: &[Entry], id: &String) -> (r: bool)
    ensures
        r == entry_ids(entries@).contains(id@),
{
    let ghost ids = entries@.map_values(|e: Entry| e.id@);
    let mut i: usize = 0;
    while i < entries.len()
        invariant
            i <= entries@.len(),
            ids == entries@.map_values(|e: Entry| e.id@),
            forall|j: int| 0 <= j < i ==> entries@[j].id@ != id@,
        decreases entries.len() - i,
    {
        if entries[i].id == *id {
            assert(ids[i as int] == id@);
            return true;
        }
        i = i + 1;
    }
    assert(!ids.contains(id@)) by {
        if ids.contains(id@) {
            let j = choose|j: int| 0 <= j < ids.len() && ids[j] == id@;
            assert(entries@[j].id@ == id@);
        }
    }
    false
}

impl Feed {
    /// Well-formed: the last fetch is a clock reading, and no subscriber
    /// is listed twice.
    pub open spec fn wf(&self) -> bool {
        valid_time(self.last_fetch as int) && self@.users.no_duplicates()
    }

    /// A new feed record for `url`, subscribed by `user`, from the first
    /// response for it, received at `now`, and the entries read from it: all
    /// of them count as seen.
    pub fn from_response(url: &str, user: Vec<u8>, resp: &Response, entries: Vec<Entry>, now: i64) -> (r: Feed)
        requires
            valid_time(now as int),
        ensures
            r.wf(),
            r@ == first_fetch(url@, user@, *resp, entries@, now as int),
    {
        let mut ids: Vec<String> = Vec::new();
        let mut i: usize = 0;
        while i < entries.len()
            invariant
                i <= entries@.len(),
                texts(ids@) == entries@.take(i as int).map_values(|e: Entry| e.id@),
            decreases entries.len() - i,
        {
            let ghost prev = texts(ids@);
            let id = entries[i].id.clone();
            ids.push(id);
            assert(texts(ids@) =~= prev.push(id@));
            assert(entries@.take(i as int + 1) =~= entries@.take(i as int).push(entries@[i as int]));
            assert(entries@.take(i as int + 1).map_values(|e: Entry| e.id@) =~= entries@.take(
                i as int,
            ).map_values(|e: Entry| e.id@).push(entries@[i as int].id@));
            i = i + 1;
        }
        assert(entries@.take(entries@.len() as int) =~= entries@);
        let mut users: Vec<Vec<u8>> = Vec::new();
        users.push(user);
        assert(users@.map_values(|u: Vec<u8>| u@) =~= seq![user@]);
        assert(seq![user@].no_duplicates());
        Feed {
            url: String::from_str(url),
            users,
            seen_entries: ids,
            last_fetch: now,
            next_fetch: next_fetch_after(&resp.cache_control, &resp.expires, now),
            etag: validator(&resp.etag),
        }
    }

    /// A new feed record for `url`, subscribed by `user`, from the first
    /// response for it, received at `now`: a failure status is a read error,
    /// a body that is no feed a parse error.
    pub fn new(url: &str, user: Vec<u8>, resp: &Response, now: i64) -> (r: Result<Feed, Error>)
        requires
            valid_time(now as int),
        ensures
            is_failure_status(resp.status) ==> r == Err::<Feed, Error>(
                Error::ReadError(ReadFailure::Status(resp.status)),
            ),
            !is_failure_status(resp.status) && !readable(resp.body@) ==> r == Err::<Feed, Error>(
                Error::Unsupported,
            ),
            !is_failure_status(resp.status) && readable(resp.body@) ==> ((r is Ok) == (parsed_shape(
                neutralized(resp.body@),
            ) is Some)),
            match r {
                Ok(f) => f.wf() && exists|entries: Seq<Entry>|
                    parsed_as(neutralized(resp.body@), entries) && f@ == first_fetch(
                        url@,
                        user@,
                        *resp,
                        entries,
                        now as int,
                    ),
                Err(e) => is_failure_status(resp.status) || e is ParseError || (e is Unsupported
                    && !readable(resp.body@)),
            },
    {
        if 400 <= resp.status && resp.status <= 599 {
            return Err(Error::ReadError(ReadFailure::Status(resp.status)));
        }
        match read_entries(resp.body.as_slice()) {
            Ok(entries) => {
                let ghost parsed = entries@;
                let feed = Feed::from_response(url, user, resp, entries, now);
                assert(parsed_as(neutralized(resp.body@), parsed));
                assert(feed@ == first_fetch(url@, user@, *resp, parsed, now as int));
                Ok(feed)
            },
            Err(e) => Err(e),
        }
    }

    /// Takes in a successful response, received at `now`, and the entries
    /// read from it: returns those not seen before, in their order, and
    /// notes the time, the next allowed fetch and the response's validator.
    pub fn record_fetch(&mut self, resp: &Response, entries: Vec<Entry>, now: i64) -> (r: Vec<Entry>)
        requires
            old(self).wf(),
            valid_time(now as int),
        ensures
            final(self).wf(),
            r@ == unseen(entries@, old(self)@.seen),
            final(self)@ == after_fetch(old(self)@, *resp, now as int),
            now + MIN_FETCH_DELAY <= final(self).next_fetch <= now + MAX_FETCH_DELAY,
    {
        let ghost seen = self@.seen;
        let ghost all = entries@;
        let mut rest = entries;
        let mut fresh: Vec<Entry> = Vec::new();
        assert(fresh@ + unseen(rest@, seen) =~= unseen(all, seen));
        while rest.len() > 0
            invariant
                seen == self@.seen,
                fresh@ + unseen(rest@, seen) == unseen(all, seen),
            decreases rest.len(),
        {
            let ghost before = rest@;
            let e = rest.remove(0);
            assert(before.drop_first() =~= rest@);
            if !contains_id(&self.seen_entries, &e.id) {
                let ghost f = fresh@;
                fresh.push(e);
                assert(f + unseen(before, seen) =~= fresh@ + unseen(rest@, seen));
            }
        }
        assert(fresh@ + unseen(rest@, seen) =~= fresh@);
        self.last_fetch = now;
        self.next_fetch = next_fetch_after(&resp.cache_control, &resp.expires, now);
        self.etag = validator(&resp.etag);
        fresh
    }

    /// Takes in a response received at `now` for this feed: a failure status
    /// is a read error, "not modified" gives no entries, any other response
    /// is parsed (where the parser can be handed its body safely) and its
    /// unseen entries are returned. A successful response
    /// updates the time of the last fetch, the next allowed fetch and the
    /// validator; an error leaves the record as it was.
    pub fn check(&mut self, resp: &Response, now: i64) -> (r: Result<Vec<Entry>, Error>)
        requires
            old(self).wf(),
            valid_time(now as int),
        ensures
            final(self).wf(),
            is_failure_status(resp.status) ==> r == Err::<Vec<Entry>, Error>(
                Error::ReadError(ReadFailure::Status(resp.status)),
            ),
            resp.status == NOT_MODIFIED ==> (r matches Ok(v) && v@.len() == 0),
            !is_failure_status(resp.status) && resp.status != NOT_MODIFIED && !readable(resp.body@)
                ==> r == Err::<Vec<Entry>, Error>(Error::Unsupported),
            !is_failure_status(resp.status) && resp.status != NOT_MODIFIED && readable(resp.body@)
                ==> ((r is Ok) == (parsed_shape(neutralized(resp.body@)) is Some)),
            match r {
                Ok(v) => final(self)@ == after_fetch(old(self)@, *resp, now as int) && now
                    + MIN_FETCH_DELAY <= final(self).next_fetch <= now + MAX_FETCH_DELAY && (
                resp.status != NOT_MODIFIED ==> exists|parsed: Seq<Entry>|
                    parsed_as(neutralized(resp.body@), parsed) && v@ == unseen(parsed, old(self)@.seen)),
                Err(e) => *final(self) == *old(self) && (is_failure_status(resp.status)
                    || e is ParseError || (e is Unsupported && !readable(resp.body@))),
            },
    {
        if 400 <= resp.status && resp.status <= 599 {
            return Err(Error::ReadError(ReadFailure::Status(resp.status)));
        }
        let entries = if resp.status == NOT_MODIFIED {
            Vec::new()
        } else {
            match read_entries(resp.body.as_slice()) {
                Ok(entries) => entries,
                Err(e) => return Err(e),
            }
        };
        let ghost parsed = entries@;
        let fresh = self.record_fetch(resp, entries, now);
        assert(fresh@ == unseen(parsed, old(self)@.seen));
        assert(resp.status != NOT_MODIFIED ==> parsed_as(neutralized(resp.body@), parsed));
        Ok(fresh)
    }

    /// After every subscriber failed to receive one of `entries`: makes their
    /// identifiers unseen again and forgets the time of the last fetch and
    /// the validator, so that the next fetch is unconditional.
    pub fn reset_entries(&mut self, entries: &[Entry])
        requires
            old(self).wf(),
        ensures
            final(self).wf(),
            final(self)@ == after_full_failure(old(self)@, entries@),
    {
        let ghost old_ids = texts(self.seen_entries@);
        let ghost gone = entry_ids(entries@);
        let mut kept: Vec<String> = Vec::new();
        let mut i: usize = 0;
        assert(texts(kept@).to_set() =~= old_ids.take(0).to_set().difference(gone));
        while i < self.seen_entries.len()
            invariant
                i <= self.seen_entries@.len(),
                old_ids == texts(self.seen_entries@),
                gone == entry_ids(entries@),
                texts(kept@).to_set() == old_ids.take(i as int).to_set().difference(gone),
            decreases self.seen_entries.len() - i,
        {
            let ghost k = texts(kept@);
            assert(old_ids.take(i as int + 1) =~= old_ids.take(i as int).push(old_ids[i as int]));
            proof {
                old_ids.take(i as int).lemma_push_to_set_commute(old_ids[i as int]);
            }
            if !names_entry(entries, &self.seen_entries[i]) {
                kept.push(self.seen_entries[i].clone());
                assert(texts(kept@) =~= k.push(old_ids[i as int]));
                proof {
                    k.lemma_push_to_set_commute(old_ids[i as int]);
                }
            }
            assert(texts(kept@).to_set() =~= old_ids.take(i as int + 1).to_set().difference(gone));
            i = i + 1;
        }
        assert(old_ids.take(old_ids.len() as int) =~= old_ids);
        self.seen_entries = kept;
        self.last_fetch = 0;
        self.etag = None;
    }

    /// After a failed fetch at `now`: the feed is tried again after the
    /// default delay.
    pub fn reset_expiry(&mut self, now: i64)
        requires
            valid_time(now as int),
        ensures
            final(self).next_fetch == now + DEFAULT_FETCH_DELAY,
            final(self)@ == (FeedView { next_fetch: now + DEFAULT_FETCH_DELAY, ..old(self)@ }),
    {
        self.next_fetch = now + DEFAULT_FETCH_DELAY;
    }

    /// The `If-Modified-Since` value of the next request: the time of the
    /// last fetch. The validator, if any, goes into `If-None-Match`.
    pub fn if_modified_since(&self) -> (r: String)
        requires
            self.wf(),
        ensures
            r@ == rfc2822_text(self.last_fetch as int),
    {
        match http_date(self.last_fetch) {
            Some(text) => text,
            None => String::new(),
        }
    }

    /// The conditions of the next request: the time of the last fetch, and
    /// the validator where one is known.
    pub fn conditions(&self) -> (r: Conditions)
        requires
            self.wf(),
        ensures
            r.if_modified_since@ == rfc2822_text(self.last_fetch as int),
            opt_text(r.if_none_match) == opt_text(self.etag),
    {
        let etag = self.etag.clone();
        assert(opt_text(etag) == opt_text(self.etag));
        Conditions { if_modified_since: self.if_modified_since(), if_none_match: etag }
    }

    /// Takes in the outcome of a fetch at `now`: a response goes through
    /// `check`; where no response came, or `check` reports an error, the
    /// record is left as it was but for the next fetch, which comes after
    /// the default delay.
    pub fn poll(&mut self, fetched: Result<Response, Error>, now: i64) -> (r: Result<Vec<Entry>, Error>)
        requires
            old(self).wf(),
            valid_time(now as int),
        ensures
            final(self).wf(),
            r is Err ==> final(self)@ == (FeedView {
                next_fetch: now + DEFAULT_FETCH_DELAY,
                ..old(self)@
            }),
            match fetched {
                Err(e) => r == Err::<Vec<Entry>, Error>(e),
                Ok(resp) => {
                    &&& is_failure_status(resp.status) ==> r == Err::<Vec<Entry>, Error>(
                        Error::ReadError(ReadFailure::Status(resp.status)),
                    )
                    &&& resp.status == NOT_MODIFIED ==> (r matches Ok(v) && v@.len() == 0)
                    &&& !is_failure_status(resp.status) && resp.status != NOT_MODIFIED && !readable(
                        resp.body@,
                    ) ==> r == Err::<Vec<Entry>, Error>(Error::Unsupported)
                    &&& !is_failure_status(resp.status) && resp.status != NOT_MODIFIED && readable(
                        resp.body@,
                    ) ==> ((r is Ok) == (parsed_shape(neutralized(resp.body@)) is Some))
                    &&& r matches Ok(v) ==> final(self)@ == after_fetch(old(self)@, resp, now as int) && (
                    resp.status != NOT_MODIFIED ==> exists|parsed: Seq<Entry>|
                        parsed_as(neutralized(resp.body@), parsed) && v@ == unseen(parsed, old(self)@.seen))
                },
            },
    {
        let r = match fetched {
            Ok(resp) => self.check(&resp, now),
            Err(e) => Err(e),
        };
        if r.is_err() {
            self.reset_expiry(now);
        }
        r
    }

    /// When the feed may be fetched again, in seconds since the Unix epoch.
    pub fn next_fetch_timestamp(&self) -> (r: i64)
        ensures
            r == self.next_fetch,
    {
        self.next_fetch
    }
}

} // verus!
