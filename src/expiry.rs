//! When a feed may be fetched again, from the caching headers of a response.
use vstd::prelude::*;
use crate::feed::Error;

verus! {

/// The shortest delay between two fetches of a feed, in seconds.
pub const MIN_FETCH_DELAY: i64 = 60;

/// The longest delay between two fetches of a feed, in seconds.
pub const MAX_FETCH_DELAY: i64 = 86400;

/// The delay used when a response says nothing usable about caching.
pub const DEFAULT_FETCH_DELAY: i64 = 600;

/// The last second that an RFC 2822 date can name (the end of year 9999),
/// as seconds since the Unix epoch. Clock readings stay within `0..=MAX_TIME`.
pub const MAX_TIME: i64 = 253402300799;

/// A clock reading that this library accepts.
pub open spec fn valid_time(t: int) -> bool {
    0 <= t <= MAX_TIME
}

/// The response headers that this library reads.
#[derive(Clone, Copy, Debug, PartialEq, Eq, Structural)]
pub enum HeaderName {
    CacheControl,
    Expires,
    ETag,
}

/// One header of a response, as the HTTP layer delivered it.
#[derive(Clone, Debug)]
pub enum Header {
    /// The response does not carry the header.
    Missing,
    /// The header's value, as text.
    Text(String),
    /// The header is there but its value is not text.
    Malformed,
}

/// `s`, split at every `c`: `n` separators give `n + 1` pieces.
pub open spec fn split_on(s: Seq<char>, c: char) -> Seq<Seq<char>>
    decreases s.len(),
{
    if s.len() == 0 {
        seq![Seq::empty()]
    } else {
        let rest = split_on(s.drop_last(), c);
        if s.last() == c {
            rest.push(Seq::empty())
        } else {
            rest.update(rest.len() - 1, rest.last().push(s.last()))
        }
    }
}

/// Whether `c` is `lower`, or the same ASCII letter in upper case.
pub open spec fn same_letter(c: char, lower: char) -> bool {
    c == lower || ('A' <= c <= 'Z' && c as u32 + 32 == lower as u32)
}

/// Whether `key` names the `max-age` directive, in any case.
pub open spec fn is_max_age_key(key: Seq<char>) -> bool {
    key.len() == 7 && forall|i: int| 0 <= i < 7 ==> same_letter(#[trigger] key[i], "max-age"@[i])
}

/// Optional whitespace of HTTP: a space or a tab.
pub open spec fn is_ows(c: char) -> bool {
    c == ' ' || c == '\t'
}

/// `s` without its leading whitespace.
pub open spec fn trim_start(s: Seq<char>) -> Seq<char>
    decreases s.len(),
{
    if s.len() > 0 && is_ows(s[0]) {
        trim_start(s.drop_first())
    } else {
        s
    }
}

/// `s` without its trailing whitespace.
pub open spec fn trim_end(s: Seq<char>) -> Seq<char>
    decreases s.len(),
{
    if s.len() > 0 && is_ows(s.last()) {
        trim_end(s.drop_last())
    } else {
        s
    }
}

/// `s` without whitespace at either end.
pub open spec fn trim_ows(s: Seq<char>) -> Seq<char> {
    trim_end(trim_start(s))
}

/// The value of the first directive of `directives` that is written
/// `max-age=<value>`, with optional whitespace around the directive (in any
/// case, a further `=` ends the value).
pub open spec fn first_max_age(directives: Seq<Seq<char>>) -> Option<Seq<char>>
    decreases directives.len(),
{
    if directives.len() == 0 {
        None
    } else {
        let parts = split_on(trim_ows(directives[0]), '=');
        if parts.len() >= 2 && is_max_age_key(parts[0]) {
            Some(parts[1])
        } else {
            first_max_age(directives.drop_first())
        }
    }
}

/// The `max-age` value of a `Cache-Control` header, if it has one.
pub open spec fn max_age_of(cache_control: Seq<char>) -> Option<Seq<char>> {
    first_max_age(split_on(cache_control, ','))
}

/// Whether every character of `s` is a decimal digit, and there is one.
pub open spec fn all_digits(s: Seq<char>) -> bool {
    s.len() > 0 && forall|i: int| 0 <= i < s.len() ==> '0' <= #[trigger] s[i] <= '9'
}

/// The number that the decimal digits `s` write.
pub open spec fn digits_value(s: Seq<char>) -> int
    decreases s.len(),
{
    if s.len() == 0 {
        0
    } else {
        digits_value(s.drop_last()) * 10 + (s.last() as int - '0' as int)
    }
}

/// The number that `s` writes in decimal, with an optional sign.
pub open spec fn signed_decimal(s: Seq<char>) -> Option<int> {
    if s.len() > 0 && s[0] == '-' && all_digits(s.drop_first()) {
        Some(-digits_value(s.drop_first()))
    } else if s.len() > 0 && s[0] == '+' && all_digits(s.drop_first()) {
        Some(digits_value(s.drop_first()))
    } else if all_digits(s) {
        Some(digits_value(s))
    } else {
        None
    }
}

/// What `str::parse::<i64>` gives for `s`.
pub open spec fn i64_of(s: Seq<char>) -> Option<int> {
    match signed_decimal(s) {
        Some(v) => if i64::MIN <= v <= i64::MAX {
            Some(v)
        } else {
            None
        },
        None => None,
    }
}

/// The instant, in seconds since the Unix epoch, that an RFC 2822 date names.
pub uninterp spec fn rfc2822_seconds(s: Seq<char>) -> Option<i64>;

/// Relies on `str::parse::<i64>`: an optional `+` or `-`, then one or more
/// ASCII digits, whose value fits in an `i64`; anything else is refused.
#[verifier::external_body]
fn parse_i64(s: &str) -> (r: Option<i64>)
    ensures
        match r {
            Some(v) => i64_of(s@) == Some(v as int),
            None => i64_of(s@) is None,
        },
{
    s.parse::<i64>().ok()
}

/// Relies on chrono's `DateTime::parse_from_rfc2822`, read as a Unix timestamp.
#[verifier::external_body]
fn parse_rfc2822(s: &str) -> (r: Option<i64>)
    ensures
        r == rfc2822_seconds(s@),
{
    chrono::DateTime::parse_from_rfc2822(s).ok().map(|d| d.timestamp())
}

/// The delay actually used for a delay that a server asked for: one in the
/// past gives the default delay, the others are held to the allowed range.
pub open spec fn clamp_delay(d: int) -> int {
    if d < 0 {
        DEFAULT_FETCH_DELAY as int
    } else if d < MIN_FETCH_DELAY {
        MIN_FETCH_DELAY as int
    } else if d > MAX_FETCH_DELAY {
        MAX_FETCH_DELAY as int
    } else {
        d
    }
}

/// The `max-age` value of a `Cache-Control` header, where it has text and
/// such a directive.
pub open spec fn max_age_in(cache_control: Header) -> Option<Seq<char>> {
    match cache_control {
        Header::Text(text) => max_age_of(text@),
        _ => None,
    }
}

/// When a feed may be fetched again after a response received at `now`,
/// as its `Expires` header says, or the default delay without one.
pub open spec fn expires_expiry(expires: Header, now: int) -> Result<int, HeaderName> {
    match expires {
        Header::Malformed => Err(HeaderName::Expires),
        Header::Text(text) => match rfc2822_seconds(text@) {
            Some(at) => Ok(now + clamp_delay(at - now)),
            None => Err(HeaderName::Expires),
        },
        Header::Missing => Ok(now + DEFAULT_FETCH_DELAY),
    }
}

/// When a feed may be fetched again after a response with these headers,
/// received at `now`, or the header that could not be read: the `max-age`
/// of `Cache-Control` where there is one, else as `Expires` says.
pub open spec fn expiry_of(cache_control: Header, expires: Header, now: int) -> Result<int, HeaderName> {
    if cache_control is Malformed {
        Err(HeaderName::CacheControl)
    } else {
        match max_age_in(cache_control) {
            Some(value) => match i64_of(value) {
                Some(seconds) => Ok(now + clamp_delay(seconds)),
                None => Err(HeaderName::CacheControl),
            },
            None => expires_expiry(expires, now),
        }
    }
}

/// When a feed may be fetched again: as `expiry_of` says, or after the
/// default delay where a header could not be read.
pub open spec fn next_fetch_of(cache_control: Header, expires: Header, now: int) -> int {
    match expiry_of(cache_control, expires, now) {
        Ok(at) => at,
        Err(_) => now + DEFAULT_FETCH_DELAY,
    }
}

/// Splits `s` at every `c`, as `str::split` does.
pub fn split_on_char<'a>(s: &'a str, c: char) -> (r: Vec<&'a str>)
    ensures
        r@.map_values(|p: &str| p@) == split_on(s@, c),
{
    let n = s.unicode_len();
    let mut pieces: Vec<&'a str> = Vec::new();
    let mut start: usize = 0;
    let mut i: usize = 0;
    assert(s@.take(0) =~= Seq::<char>::empty());
    assert(pieces@.map_values(|p: &str| p@) =~= Seq::<Seq<char>>::empty());
    assert(s@.subrange(0, 0) =~= Seq::<char>::empty());
    while i < n
        invariant
            start <= i <= n,
            n == s@.len(),
            pieces@.map_values(|p: &str| p@).push(s@.subrange(start as int, i as int)) == split_on(
                s@.take(i as int),
                c,
            ),
        decreases n - i,
    {
        let ghost before = pieces@.map_values(|p: &str| p@);
        assert(s@.take(i as int + 1).drop_last() =~= s@.take(i as int));
        if s.get_char(i) == c {
            let piece = s.substring_char(start, i);
            pieces.push(piece);
            assert(pieces@.map_values(|p: &str| p@) =~= before.push(piece@));
            start = i + 1;
            assert(s@.subrange(start as int, i as int + 1) =~= Seq::<char>::empty());
        } else {
            assert(s@.subrange(start as int, i as int + 1) =~= s@.subrange(start as int, i as int).push(
                s@[i as int],
            ));
        }
        i = i + 1;
    }
    let ghost before = pieces@.map_values(|p: &str| p@);
    pieces.push(s.substring_char(start, n));
    assert(s@.take(n as int) =~= s@);
    assert(pieces@.map_values(|p: &str| p@) =~= before.push(s@.subrange(start as int, n as int)));
    pieces
}

/// `s` without spaces or tabs at either end.
pub fn trim_whitespace(s: &str) -> (r: &str)
    ensures
        r@ == trim_ows(s@),
{
    let n = s.unicode_len();
    let mut i: usize = 0;
    assert(s@.skip(0) =~= s@);
    while i < n && (s.get_char(i) == ' ' || s.get_char(i) == '\t')
        invariant
            i <= n,
            n == s@.len(),
            trim_start(s@) == trim_start(s@.skip(i as int)),
        decreases n - i,
    {
        assert(s@.skip(i as int).drop_first() =~= s@.skip(i as int + 1));
        i = i + 1;
    }
    assert(trim_start(s@) == s@.skip(i as int));
    let mut j: usize = n;
    assert(s@.subrange(i as int, n as int) =~= s@.skip(i as int));
    while j > i && (s.get_char(j - 1) == ' ' || s.get_char(j - 1) == '\t')
        invariant
            i <= j <= n,
            n == s@.len(),
            trim_ows(s@) == trim_end(s@.subrange(i as int, j as int)),
        decreases j - i,
    {
        assert(s@.subrange(i as int, j as int).drop_last() =~= s@.subrange(i as int, j as int - 1));
        j = j - 1;
    }
    s.substring_char(i, j)
}

/// Whether `key` names the `max-age` directive, in any case.
fn key_is_max_age(key: &str) -> (r: bool)
    ensures
        r == is_max_age_key(key@),
{
    let expected = "max-age";
    proof {
        reveal_strlit("max-age");
    }
    if key.unicode_len() != 7 {
        return false;
    }
    let mut i: usize = 0;
    while i < 7
        invariant
            i <= 7,
            key@.len() == 7,
            expected@ == "max-age"@,
            expected@.len() == 7,
            forall|j: int| 0 <= j < i ==> same_letter(#[trigger] key@[j], "max-age"@[j]),
        decreases 7 - i,
    {
        let c = key.get_char(i);
        let e = expected.get_char(i);
        if !(c == e || ('A' <= c && c <= 'Z' && c as u32 + 32 == e as u32)) {
            return false;
        }
        i = i + 1;
    }
    true
}

/// The `max-age` value of a `Cache-Control` header, if it has one.
pub fn max_age(cache_control: &str) -> (r: Option<&str>)
    ensures
        match r {
            Some(v) => max_age_of(cache_control@) == Some(v@),
            None => max_age_of(cache_control@) is None,
        },
{
    let directives = split_on_char(cache_control, ',');
    let ghost all = directives@.map_values(|p: &str| p@);
    let mut i: usize = 0;
    assert(all.skip(0) =~= all);
    while i < directives.len()
        invariant
            i <= directives@.len(),
            all == directives@.map_values(|p: &str| p@),
            all == split_on(cache_control@, ','),
            first_max_age(all) == first_max_age(all.skip(i as int)),
        decreases directives.len() - i,
    {
        assert(all.skip(i as int).drop_first() =~= all.skip(i as int + 1));
        let parts = split_on_char(trim_whitespace(directives[i]), '=');
        proof {
            let pv = parts@.map_values(|p: &str| p@);
            assert(pv.len() == parts@.len());
            if parts@.len() >= 2 {
                assert(pv[0] == parts@[0]@);
                assert(pv[1] == parts@[1]@);
            }
        }
        if parts.len() >= 2 && key_is_max_age(parts[0]) {
            return Some(parts[1]);
        }
        i = i + 1;
    }
    None
}

/// The delay actually used for a delay that a server asked for.
fn clamp(d: i64) -> (r: i64)
    ensures
        r == clamp_delay(d as int),
{
    if d < 0 {
        DEFAULT_FETCH_DELAY
    } else if d < MIN_FETCH_DELAY {
        MIN_FETCH_DELAY
    } else if d > MAX_FETCH_DELAY {
        MAX_FETCH_DELAY
    } else {
        d
    }
}

/// The text of a header, `None` where the response lacks it, or
/// `MalformedHeader` where its value is not text.
pub fn header(value: &Header, key: HeaderName) -> (r: Result<Option<&str>, Error>)
    ensures
        match value {
            Header::Missing => r == Ok::<Option<&str>, Error>(None),
            Header::Text(t) => r matches Ok(Some(v)) && v@ == t@,
            Header::Malformed => r matches Err(e) && e == Error::MalformedHeader(key),
        },
{
    match value {
        Header::Missing => Ok(None),
        Header::Text(t) => Ok(Some(t.as_str())),
        Header::Malformed => Err(Error::MalformedHeader(key)),
    }
}

/// When a feed may be fetched again after a response with these headers,
/// received at `now`: after the `max-age` of `Cache-Control` where it has
/// one, else at the date of `Expires`, else after the default delay; the
/// delay held to the allowed range. A header that cannot be read is an error.
pub fn find_expiry(cache_control: &Header, expires: &Header, now: i64) -> (r: Result<i64, Error>)
    requires
        valid_time(now as int),
    ensures
        match r {
            Ok(at) => expiry_of(*cache_control, *expires, now as int) == Ok::<int, HeaderName>(
                at as int,
            ),
            Err(e) => match expiry_of(*cache_control, *expires, now as int) {
                Ok(_) => false,
                Err(name) => e == Error::MalformedHeader(name),
            },
        },
{
    let value = match header(cache_control, HeaderName::CacheControl)? {
        Some(text) => max_age(text),
        None => None,
    };
    let delay = match value {
        Some(value) => match parse_i64(value) {
            Some(seconds) => clamp(seconds),
            None => return Err(Error::MalformedHeader(HeaderName::CacheControl)),
        },
        None => match header(expires, HeaderName::Expires)? {
            Some(text) => match parse_rfc2822(text) {
                Some(at) => if at < now {
                    DEFAULT_FETCH_DELAY
                } else {
                    clamp(at - now)
                },
                None => return Err(Error::MalformedHeader(HeaderName::Expires)),
            },
            None => DEFAULT_FETCH_DELAY,
        },
    };
    Ok(now + delay)
}

/// When a feed may be fetched again: as `find_expiry` says, or after the
/// default delay where a header could not be read.
pub fn next_fetch_after(cache_control: &Header, expires: &Header, now: i64) -> (r: i64)
    requires
        valid_time(now as int),
    ensures
        r == next_fetch_of(*cache_control, *expires, now as int),
        now + MIN_FETCH_DELAY <= r <= now + MAX_FETCH_DELAY,
{
    match find_expiry(cache_control, expires, now) {
        Ok(at) => at,
        Err(_) => now + DEFAULT_FETCH_DELAY,
    }
}

/// The number that the `max-age` directive of a `Cache-Control` header
/// writes, where the header has text and such a directive.
pub open spec fn max_age_seconds(cache_control: Header) -> Option<int> {
    match cache_control {
        Header::Text(text) => match max_age_of(text@) {
            Some(value) => i64_of(value),
            None => None,
        },
        _ => None,
    }
}

/// A `max-age` of `n` seconds with `n` in the allowed range delays the next
/// fetch by exactly `n` seconds; below the range by the shortest delay, above
/// it by the longest.
pub proof fn lemma_max_age_delay(cache_control: Header, expires: Header, now: int, n: int)
    requires
        max_age_seconds(cache_control) == Some(n),
    ensures
        MIN_FETCH_DELAY <= n <= MAX_FETCH_DELAY ==> next_fetch_of(cache_control, expires, now) == now + n,
        0 <= n < MIN_FETCH_DELAY ==> next_fetch_of(cache_control, expires, now) == now + MIN_FETCH_DELAY,
        n > MAX_FETCH_DELAY ==> next_fetch_of(cache_control, expires, now) == now + MAX_FETCH_DELAY,
{
}

/// A response without caching headers delays the next fetch by the default delay.
pub proof fn lemma_no_cache_headers(now: int)
    ensures
        next_fetch_of(Header::Missing, Header::Missing, now) == now + DEFAULT_FETCH_DELAY,
{
}

/// Where `Cache-Control` gives no `max-age`, an `Expires` header that is not
/// a date, or not text, delays the next fetch by the default delay.
pub proof fn lemma_malformed_expires(cache_control: Header, expires: Header, now: int)
    requires
        !(cache_control is Malformed),
        max_age_in(cache_control) is None,
        match expires {
            Header::Text(text) => rfc2822_seconds(text@) is None,
            Header::Malformed => true,
            Header::Missing => false,
        },
    ensures
        expiry_of(cache_control, expires, now) == Err::<int, HeaderName>(HeaderName::Expires),
        next_fetch_of(cache_control, expires, now) == now + DEFAULT_FETCH_DELAY,
{
}

/// Where `Cache-Control` gives no `max-age`, a valid `Expires` date sets
/// the next fetch, held to the allowed range.
pub proof fn lemma_expires_without_max_age(cache_control: Header, expires: Header, now: int, at: i64)
    requires
        !(cache_control is Malformed),
        max_age_in(cache_control) is None,
        expires matches Header::Text(text) && rfc2822_seconds(text@) == Some(at),
        now + MIN_FETCH_DELAY <= at <= now + MAX_FETCH_DELAY,
    ensures
        next_fetch_of(cache_control, expires, now) == at,
{
}

} // verus!
