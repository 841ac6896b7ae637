//! Commands that subscribers send, and the feed URLs they name.
use vstd::prelude::*;
use crate::feed::opt_text;

verus! {

/// What `str::to_lowercase` gives for `s`.
pub uninterp spec fn lower_of(s: Seq<char>) -> Seq<char>;

/// Whether `c` has the Unicode property White_Space, which `char::is_whitespace` tests.
pub open spec fn is_white_space(c: char) -> bool {
    let u = c as u32;
    (0x09 <= u <= 0x0d) || u == 0x20 || u == 0x85 || u == 0xa0 || u == 0x1680 || (0x2000 <= u
        <= 0x200a) || u == 0x2028 || u == 0x2029 || u == 0x202f || u == 0x205f || u == 0x3000
}

/// `s`, split at every white space character: `n` of them give `n + 1` pieces.
pub open spec fn split_at_white_space(s: Seq<char>) -> Seq<Seq<char>>
    decreases s.len(),
{
    if s.len() == 0 {
        seq![Seq::empty()]
    } else {
        let rest = split_at_white_space(s.drop_last());
        if is_white_space(s.last()) {
            rest.push(Seq::empty())
        } else {
            rest.update(rest.len() - 1, rest.last().push(s.last()))
        }
    }
}

/// The words of `s`: its longest runs of characters that are not white space, in order.
pub open spec fn words_of(s: Seq<char>) -> Seq<Seq<char>> {
    split_at_white_space(s).filter(|w: Seq<char>| w.len() > 0)
}

/// Relies on `str::to_lowercase`: the lower-case form of the text, which
/// depends on the text alone.
#[verifier::external_body]
fn lowercase(s: &str) -> (r: String)
    ensures
        r@ == lower_of(s@),
{
    s.to_lowercase()
}

/// Relies on `str::split_whitespace`: the text split at characters with the
/// Unicode property White_Space, without empty pieces.
#[verifier::external_body]
fn split_words(s: &str) -> (r: Vec<&str>)
    ensures
        r@.map_values(|w: &str| w@) == words_of(s@),
{
    s.split_whitespace().collect()
}

/// Whether `s` starts with `p`.
pub open spec fn has_prefix(s: Seq<char>, p: Seq<char>) -> bool {
    p.len() <= s.len() && s.take(p.len() as int) == p
}

/// Whether a URL, in lower case, is one that feeds may be fetched from: a
/// web address that does not plainly point at this machine.
pub open spec fn accepts_url(lower: Seq<char>) -> bool {
    (has_prefix(lower, "http://"@) || has_prefix(lower, "https://"@)) && !has_prefix(
        lower,
        "http://localhost"@,
    ) && !has_prefix(lower, "http://127.0.0.1"@)
}

/// Where the query or fragment of a URL starts: its first `#` or `?`, or its end.
pub open spec fn stop_index(url: Seq<char>) -> int
    decreases url.len(),
{
    if url.len() == 0 {
        0
    } else if url[0] == '#' || url[0] == '?' {
        0
    } else {
        1 + stop_index(url.drop_first())
    }
}

/// The feed URL that a word names, if it is acceptable: without its query
/// and fragment.
pub open spec fn url_of(word: Seq<char>) -> Option<Seq<char>> {
    if accepts_url(lower_of(word)) {
        Some(word.take(stop_index(word)))
    } else {
        None
    }
}

/// Whether `s` starts with `p`.
pub fn starts_with(s: &str, p: &str) -> (r: bool)
    ensures
        r == has_prefix(s@, p@),
{
    let n = p.unicode_len();
    if n > s.unicode_len() {
        return false;
    }
    let mut i: usize = 0;
    while i < n
        invariant
            i <= n,
            n == p@.len(),
            n <= s@.len(),
            forall|j: int| 0 <= j < i ==> s@[j] == p@[j],
        decreases n - i,
    {
        if s.get_char(i) != p.get_char(i) {
            assert(s@.take(n as int)[i as int] != p@[i as int]);
            return false;
        }
        i = i + 1;
    }
    assert(s@.take(n as int) =~= p@);
    true
}

/// Whether `a` and `b` are the same text.
pub fn same_text(a: &str, b: &str) -> (r: bool)
    ensures
        r == (a@ == b@),
{
    let r = a.unicode_len() == b.unicode_len() && starts_with(a, b);
    proof {
        if r {
            assert(a@ =~= a@.take(b@.len() as int));
        }
        if a@ == b@ {
            assert(a@.take(b@.len() as int) =~= a@);
        }
    }
    r
}

/// Where the query or fragment of a URL starts.
fn stop_at(url: &str) -> (r: usize)
    ensures
        r == stop_index(url@),
{
    let n = url.unicode_len();
    let mut i: usize = 0;
    assert(url@.skip(0) =~= url@);
    while i < n
        invariant
            i <= n,
            n == url@.len(),
            stop_index(url@) == i + stop_index(url@.skip(i as int)),
        decreases n - i,
    {
        let c = url.get_char(i);
        if c == '#' || c == '?' {
            return i;
        }
        assert(url@.skip(i as int).drop_first() =~= url@.skip(i as int + 1));
        i = i + 1;
    }
    i
}

/// The feed URL that `url` names, given `lower`, its lower-case form:
/// `None` unless it is an acceptable web address, else the URL without its
/// query and fragment.
pub fn accept_url<'a>(url: &'a str, lower: &str) -> (r: Option<&'a str>)
    ensures
        match r {
            Some(v) => accepts_url(lower@) && v@ == url@.take(stop_index(url@)),
            None => !accepts_url(lower@),
        },
{
    let web = starts_with(lower, "http://") || starts_with(lower, "https://");
    if !web || starts_with(lower, "http://localhost") || starts_with(lower, "http://127.0.0.1") {
        return None;
    }
    let end = stop_at(url);
    proof {
        assert(0 <= stop_index(url@) <= url@.len()) by {
            lemma_stop_index_bounds(url@);
        }
    }
    Some(url.substring_char(0, end))
}

proof fn lemma_stop_index_bounds(url: Seq<char>)
    ensures
        0 <= stop_index(url) <= url.len(),
    decreases url.len(),
{
    if url.len() > 0 {
        lemma_stop_index_bounds(url.drop_first());
    }
}

/// The feed URL that a command's argument names, if it names an acceptable one.
pub fn parse_url(url: Option<&str>) -> (r: Option<&str>)
    ensures
        match url {
            None => r is None,
            Some(u) => match r {
                Some(v) => url_of(u@) == Some(v@),
                None => url_of(u@) is None,
            },
        },
{
    match url {
        None => None,
        Some(u) => {
            let lower = lowercase(u);
            accept_url(u, lower.as_str())
        },
    }
}

/// A command of a subscriber.
#[derive(Clone, Debug)]
pub enum Command {
    /// `/start` or `/help`.
    Help,
    /// `/add`, with the feed URL it names, if acceptable.
    Add(Option<String>),
    /// `/rm` or `/del`, with the feed URL it names, if acceptable.
    Remove(Option<String>),
    /// `/ls` or `/list`.
    List,
}

/// The feed URL that the second word of a command names, if any.
pub open spec fn url_arg(words: Seq<Seq<char>>) -> Option<Seq<char>> {
    if words.len() >= 2 {
        url_of(words[1])
    } else {
        None
    }
}

/// Whether a word is one of the commands.
pub open spec fn is_command(w: Seq<char>) -> bool {
    w == "/start"@ || w == "/help"@ || w == "/add"@ || w == "/rm"@ || w == "/del"@ || w == "/ls"@
        || w == "/list"@
}

/// Whether `r` is the command that `words` give.
pub open spec fn command_from(words: Seq<Seq<char>>, r: Option<Command>) -> bool {
    if words.len() == 0 {
        r is None
    } else {
        match r {
            None => !is_command(words[0]),
            Some(Command::Help) => words[0] == "/start"@ || words[0] == "/help"@,
            Some(Command::Add(u)) => words[0] == "/add"@ && opt_text(u) == url_arg(words),
            Some(Command::Remove(u)) => (words[0] == "/rm"@ || words[0] == "/del"@) && opt_text(u)
                == url_arg(words),
            Some(Command::List) => words[0] == "/ls"@ || words[0] == "/list"@,
        }
    }
}

/// The command that a message's words give, if they give one.
pub fn command_of(words: &[&str]) -> (r: Option<Command>)
    ensures
        command_from(words@.map_values(|w: &str| w@), r),
{
    let ghost ws = words@.map_values(|w: &str| w@);
    if words.len() == 0 {
        return None;
    }
    assert(ws[0] == words@[0]@);
    let cmd = words[0];
    let arg = if words.len() >= 2 {
        assert(ws[1] == words@[1]@);
        match parse_url(Some(words[1])) {
            Some(u) => Some(String::from_str(u)),
            None => None,
        }
    } else {
        None
    };
    if same_text(cmd, "/start") || same_text(cmd, "/help") {
        Some(Command::Help)
    } else if same_text(cmd, "/add") {
        Some(Command::Add(arg))
    } else if same_text(cmd, "/rm") || same_text(cmd, "/del") {
        Some(Command::Remove(arg))
    } else if same_text(cmd, "/ls") || same_text(cmd, "/list") {
        Some(Command::List)
    } else {
        None
    }
}

/// The command that a message gives, if it gives one.
pub fn parse_command(text: &str) -> (r: Option<Command>)
    ensures
        command_from(words_of(text@), r),
{
    let words = split_words(text);
    command_of(words.as_slice())
}

} // verus!
