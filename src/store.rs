//! The stored form of feed records: rows of three tables (`feed`, `entry`,
//! `subscriber`), how a record becomes rows, how the rows of the feeds that
//! are due become records again, and which schema a store may have.
use vstd::prelude::*;
use crate::expiry::valid_time;
use crate::feed::{opt_text, texts, Feed, FeedView};

verus! {

/// The schema version that this library writes and reads.
pub const VERSION: i64 = 1;

/// A row of the `feed` table.
#[derive(Clone, Debug)]
pub struct FeedRow {
    pub id: i64,
    pub url: String,
    pub last_check: i64,
    pub next_check: i64,
    pub etag: Option<String>,
}

/// A row of the `entry` table: an entry of a feed that counts as seen.
#[derive(Clone, Debug)]
pub struct EntryRow {
    pub feed_id: i64,
    pub entry_id: String,
}

/// A row of the `subscriber` table: the packed handle of a subscriber of a feed.
#[derive(Clone, Debug)]
pub struct SubscriberRow {
    pub feed_id: i64,
    pub user: Vec<u8>,
}

/// The rows that store one feed record.
#[derive(Clone, Debug)]
pub struct StoredFeed {
    pub feed: FeedRow,
    pub entries: Vec<EntryRow>,
    pub subscribers: Vec<SubscriberRow>,
}

/// What a store of schema `version` needs before use.
#[derive(Clone, Copy, Debug, PartialEq, Eq, Structural)]
pub enum SchemaCheck {
    /// The store has this library's schema.
    Current,
    /// The store is empty or older: the tables are to be created.
    Create,
    /// The store was written by a newer version; it must not be touched.
    TooNew,
}

/// What a store of schema `version` needs before use.
pub fn schema_check(version: i64) -> (r: SchemaCheck)
    ensures
        version == VERSION <==> r == SchemaCheck::Current,
        version < VERSION <==> r == SchemaCheck::Create,
        version > VERSION <==> r == SchemaCheck::TooNew,
{
    if version > VERSION {
        SchemaCheck::TooNew
    } else if version == VERSION {
        SchemaCheck::Current
    } else {
        SchemaCheck::Create
    }
}

/// `s` with each value kept at its first place only.
pub open spec fn distinct(s: Seq<Seq<u8>>) -> Seq<Seq<u8>>
    decreases s.len(),
{
    if s.len() == 0 {
        s
    } else {
        let d = distinct(s.drop_last());
        if d.contains(s.last()) {
            d
        } else {
            d.push(s.last())
        }
    }
}

/// The subscribers that `subscribers` record for feed `id`, in their order,
/// each once.
pub open spec fn users_of(subscribers: Seq<SubscriberRow>, id: i64) -> Seq<Seq<u8>> {
    distinct(
        subscribers.filter(|s: SubscriberRow| s.feed_id == id).map_values(|s: SubscriberRow| s.user@),
    )
}

/// `distinct` lists no value twice, and each value of `s`.
proof fn lemma_distinct(s: Seq<Seq<u8>>)
    ensures
        distinct(s).no_duplicates(),
        forall|x: Seq<u8>| distinct(s).contains(x) <==> s.contains(x),
    decreases s.len(),
{
    if s.len() > 0 {
        let front = s.drop_last();
        lemma_distinct(front);
        let d = distinct(front);
        assert(s =~= front.push(s.last()));
        assert forall|x: Seq<u8>| distinct(s).contains(x) <==> s.contains(x) by {
            lemma_push_contains(front, s.last(), x);
            lemma_push_contains(d, s.last(), x);
        }
        if !d.contains(s.last()) {
            assert(d.push(s.last()).no_duplicates()) by {
                assert forall|i: int, j: int|
                    0 <= i < d.push(s.last()).len() && 0 <= j < d.push(s.last()).len() && i != j
                        implies d.push(s.last())[i] != d.push(s.last())[j] by {
                    if i < d.len() && j == d.len() {
                        assert(d[i] == d.push(s.last())[i]);
                    }
                    if j < d.len() && i == d.len() {
                        assert(d[j] == d.push(s.last())[j]);
                    }
                }
            }
        }
    }
}

/// What a sequence with one more value contains.
proof fn lemma_push_contains(s: Seq<Seq<u8>>, y: Seq<u8>, x: Seq<u8>)
    ensures
        s.push(y).contains(x) <==> (s.contains(x) || x == y),
{
    if s.push(y).contains(x) && x != y {
        let i = choose|i: int| 0 <= i < s.push(y).len() && s.push(y)[i] == x;
        assert(s[i] == x);
    }
    if s.contains(x) {
        let i = choose|i: int| 0 <= i < s.len() && s[i] == x;
        assert(s.push(y)[i] == x);
    }
    if x == y {
        assert(s.push(y)[s.len() as int] == x);
    }
}

/// A sequence without repeats is its own `distinct`.
proof fn lemma_distinct_of_distinct(s: Seq<Seq<u8>>)
    requires
        s.no_duplicates(),
    ensures
        distinct(s) == s,
    decreases s.len(),
{
    if s.len() > 0 {
        let front = s.drop_last();
        assert(front.no_duplicates());
        lemma_distinct_of_distinct(front);
        assert(!front.contains(s.last())) by {
            if front.contains(s.last()) {
                let i = choose|i: int| 0 <= i < front.len() && front[i] == s.last();
                assert(s[i] == s[s.len() - 1]);
            }
        }
        assert(front.push(s.last()) =~= s);
    }
}

/// The seen entries that `entries` record for feed `id`.
pub open spec fn seen_of(entries: Seq<EntryRow>, id: i64) -> Set<Seq<char>> {
    entries.filter(|e: EntryRow| e.feed_id == id).map_values(|e: EntryRow| e.entry_id@).to_set()
}

/// The feed record that a `feed` row and the other tables' rows give.
/// A stored time of last fetch that is no clock reading counts as none.
pub open spec fn record_of(row: FeedRow, entries: Seq<EntryRow>, subscribers: Seq<SubscriberRow>) -> FeedView {
    FeedView {
        url: row.url@,
        users: users_of(subscribers, row.id),
        seen: seen_of(entries, row.id),
        last_fetch: if valid_time(row.last_check as int) {
            row.last_check as int
        } else {
            0
        },
        next_fetch: row.next_check as int,
        etag: opt_text(row.etag),
    }
}

/// Whether the feed of `row` is due at `now`: its next fetch has come and it
/// has a subscriber.
pub open spec fn is_due(row: FeedRow, subscribers: Seq<SubscriberRow>, now: int) -> bool {
    row.next_check <= now && users_of(subscribers, row.id).len() > 0
}

/// The records of the feeds of `feeds` that are due at `now`, in row order.
pub open spec fn due_records(
    feeds: Seq<FeedRow>,
    entries: Seq<EntryRow>,
    subscribers: Seq<SubscriberRow>,
    now: int,
) -> Seq<FeedView>
    decreases feeds.len(),
{
    if feeds.len() == 0 {
        Seq::empty()
    } else {
        let rest = due_records(feeds.drop_last(), entries, subscribers, now);
        if is_due(feeds.last(), subscribers, now) {
            rest.push(record_of(feeds.last(), entries, subscribers))
        } else {
            rest
        }
    }
}

/// Whether `s` holds the rows that store `f` under the feed id `id`: one
/// `feed` row, an `entry` row for each seen entry and a `subscriber` row for
/// each subscriber.
pub open spec fn stores(s: StoredFeed, f: Feed, id: i64) -> bool {
    &&& s.feed.id == id
    &&& s.feed.url@ == f.url@
    &&& s.feed.last_check == f.last_fetch
    &&& s.feed.next_check == f.next_fetch
    &&& opt_text(s.feed.etag) == opt_text(f.etag)
    &&& s.entries@.map_values(|e: EntryRow| (e.feed_id, e.entry_id@)) == texts(f.seen_entries@).map_values(
        |t: Seq<char>| (id, t),
    )
    &&& s.subscribers@.map_values(|u: SubscriberRow| (u.feed_id, u.user@)) == f@.users.map_values(
        |b: Seq<u8>| (id, b),
    )
}

/// A copy of some bytes.
fn copy_bytes(b: &[u8]) -> (r: Vec<u8>)
    ensures
        r@ == b@,
{
    let mut r: Vec<u8> = Vec::new();
    let mut i: usize = 0;
    while i < b.len()
        invariant
            i <= b@.len(),
            r@ == b@.take(i as int),
        decreases b.len() - i,
    {
        r.push(b[i]);
        assert(r@ =~= b@.take(i as int + 1));
        i = i + 1;
    }
    assert(b@.take(b@.len() as int) =~= b@);
    r
}

/// Whether `a` and `b` hold the same bytes.
fn same_bytes(a: &[u8], b: &[u8]) -> (r: bool)
    ensures
        r == (a@ == b@),
{
    if a.len() != b.len() {
        return false;
    }
    let mut i: usize = 0;
    while i < a.len()
        invariant
            i <= a@.len(),
            a@.len() == b@.len(),
            forall|j: int| 0 <= j < i ==> a@[j] == b@[j],
        decreases a.len() - i,
    {
        if a[i] != b[i] {
            return false;
        }
        i = i + 1;
    }
    assert(a@ =~= b@);
    true
}

/// Whether `users` lists `user`.
fn lists_user(users: &Vec<Vec<u8>>, user: &[u8]) -> (r: bool)
    ensures
        r == users@.map_values(|u: Vec<u8>| u@).contains(user@),
{
    let ghost views = users@.map_values(|u: Vec<u8>| u@);
    let mut i: usize = 0;
    while i < users.len()
        invariant
            i <= users@.len(),
            views == users@.map_values(|u: Vec<u8>| u@),
            forall|j: int| 0 <= j < i ==> views[j] != user@,
        decreases users.len() - i,
    {
        if same_bytes(users[i].as_slice(), user) {
            assert(views[i as int] == user@);
            return true;
        }
        i = i + 1;
    }
    false
}

/// The subscribers that `subscribers` record for feed `id`, in their order,
/// each once.
fn users_for(subscribers: &[SubscriberRow], id: i64) -> (r: Vec<Vec<u8>>)
    ensures
        r@.map_values(|u: Vec<u8>| u@) == users_of(subscribers@, id),
{
    let ghost p = |s: SubscriberRow| s.feed_id == id;
    let ghost f = |s: SubscriberRow| s.user@;
    let mut r: Vec<Vec<u8>> = Vec::new();
    let mut i: usize = 0;
    assert(subscribers@.take(0).filter(p) =~= Seq::<SubscriberRow>::empty()) by {
        reveal(Seq::filter);
    }
    assert(r@.map_values(|u: Vec<u8>| u@) =~= distinct(Seq::<Seq<u8>>::empty()));
    while i < subscribers.len()
        invariant
            i <= subscribers@.len(),
            p == (|s: SubscriberRow| s.feed_id == id),
            f == (|s: SubscriberRow| s.user@),
            r@.map_values(|u: Vec<u8>| u@) == distinct(subscribers@.take(i as int).filter(p).map_values(f)),
        decreases subscribers.len() - i,
    {
        let ghost before = r@.map_values(|u: Vec<u8>| u@);
        let ghost kept = subscribers@.take(i as int).filter(p);
        assert(subscribers@.take(i as int + 1) =~= subscribers@.take(i as int).push(subscribers@[i as int]));
        proof {
            subscribers@.take(i as int).lemma_filter_push(subscribers@[i as int], p);
        }
        if subscribers[i].feed_id == id {
            let ghost all = kept.push(subscribers@[i as int]).map_values(f);
            assert(all =~= kept.map_values(f).push(subscribers@[i as int].user@));
            assert(all.drop_last() =~= kept.map_values(f));
            assert(all.last() == subscribers@[i as int].user@);
            if !lists_user(&r, subscribers[i].user.as_slice()) {
                let user = copy_bytes(subscribers[i].user.as_slice());
                r.push(user);
                assert(r@.map_values(|u: Vec<u8>| u@) =~= before.push(user@));
            }
        } else {
            assert(subscribers@.take(i as int + 1).filter(p) == kept);
        }
        i = i + 1;
    }
    assert(subscribers@.take(subscribers@.len() as int) =~= subscribers@);
    r
}

/// The seen entries that `entries` record for feed `id`.
fn seen_for(entries: &[EntryRow], id: i64) -> (r: Vec<String>)
    ensures
        texts(r@).to_set() == seen_of(entries@, id),
{
    let ghost p = |e: EntryRow| e.feed_id == id;
    let ghost f = |e: EntryRow| e.entry_id@;
    let mut r: Vec<String> = Vec::new();
    let mut i: usize = 0;
    assert(entries@.take(0).filter(p) =~= Seq::<EntryRow>::empty()) by {
        reveal(Seq::filter);
    }
    while i < entries.len()
        invariant
            i <= entries@.len(),
            p == (|e: EntryRow| e.feed_id == id),
            f == (|e: EntryRow| e.entry_id@),
            texts(r@) == entries@.take(i as int).filter(p).map_values(f),
        decreases entries.len() - i,
    {
        let ghost before = texts(r@);
        let ghost kept = entries@.take(i as int).filter(p);
        assert(entries@.take(i as int + 1) =~= entries@.take(i as int).push(entries@[i as int]));
        proof {
            entries@.take(i as int).lemma_filter_push(entries@[i as int], p);
        }
        if entries[i].feed_id == id {
            let entry_id = entries[i].entry_id.clone();
            r.push(entry_id);
            assert(texts(r@) =~= before.push(entry_id@));
            assert(entries@.take(i as int + 1).filter(p) == kept.push(entries@[i as int]));
            assert(kept.push(entries@[i as int]).map_values(f) =~= kept.map_values(f).push(
                entries@[i as int].entry_id@,
            ));
        } else {
            assert(entries@.take(i as int + 1).filter(p) == kept);
        }
        i = i + 1;
    }
    assert(entries@.take(entries@.len() as int) =~= entries@);
    r
}

/// The records of the feeds of `feeds` that are due at `now`, in row order,
/// each with the seen entries and subscribers that the other tables record
/// for it. A feed without subscribers is never due.
pub fn due_feeds(feeds: &[FeedRow], entries: &[EntryRow], subscribers: &[SubscriberRow], now: i64) -> (r: Vec<Feed>)
    ensures
        r@.map_values(|f: Feed| f@) == due_records(feeds@, entries@, subscribers@, now as int),
        forall|i: int| 0 <= i < r@.len() ==> (#[trigger] r@[i]).wf() && r@[i]@.users.len() > 0
            && r@[i].next_fetch <= now,
{
    let mut r: Vec<Feed> = Vec::new();
    let mut i: usize = 0;
    assert(r@.map_values(|f: Feed| f@) =~= Seq::<FeedView>::empty());
    while i < feeds.len()
        invariant
            i <= feeds@.len(),
            r@.map_values(|f: Feed| f@) == due_records(feeds@.take(i as int), entries@, subscribers@, now as int),
            forall|j: int| 0 <= j < r@.len() ==> (#[trigger] r@[j]).wf() && r@[j]@.users.len() > 0
                && r@[j].next_fetch <= now,
        decreases feeds.len() - i,
    {
        let ghost before = r@.map_values(|f: Feed| f@);
        assert(feeds@.take(i as int + 1).drop_last() =~= feeds@.take(i as int));
        let row = &feeds[i];
        if row.next_check <= now {
            let users = users_for(subscribers, row.id);
            proof {
                lemma_distinct(
                    subscribers@.filter(|s: SubscriberRow| s.feed_id == row.id).map_values(
                        |s: SubscriberRow| s.user@,
                    ),
                );
            }
            if users.len() > 0 {
                let last_fetch = if 0 <= row.last_check && row.last_check <= crate::expiry::MAX_TIME {
                    row.last_check
                } else {
                    0
                };
                let feed = Feed {
                    url: row.url.clone(),
                    users,
                    seen_entries: seen_for(entries, row.id),
                    last_fetch,
                    next_fetch: row.next_check,
                    etag: row.etag.clone(),
                };
                assert(opt_text(feed.etag) == opt_text(row.etag));
                r.push(feed);
                assert(r@.map_values(|f: Feed| f@) =~= before.push(feed@));
            }
        }
        i = i + 1;
    }
    assert(feeds@.take(feeds@.len() as int) =~= feeds@);
    r
}

impl Feed {
    /// The rows that store this record under the feed id `id`.
    pub fn to_rows(&self, id: i64) -> (r: StoredFeed)
        ensures
            stores(r, *self, id),
    {
        let ghost seen = texts(self.seen_entries@);
        let ghost users = self@.users;
        let mut entries: Vec<EntryRow> = Vec::new();
        let mut i: usize = 0;
        while i < self.seen_entries.len()
            invariant
                i <= self.seen_entries@.len(),
                seen == texts(self.seen_entries@),
                entries@.map_values(|e: EntryRow| (e.feed_id, e.entry_id@)) == seen.take(i as int).map_values(
                    |t: Seq<char>| (id, t),
                ),
            decreases self.seen_entries.len() - i,
        {
            let ghost before = entries@.map_values(|e: EntryRow| (e.feed_id, e.entry_id@));
            let row = EntryRow { feed_id: id, entry_id: self.seen_entries[i].clone() };
            entries.push(row);
            assert(entries@.map_values(|e: EntryRow| (e.feed_id, e.entry_id@)) =~= before.push(
                (id, seen[i as int]),
            ));
            assert(seen.take(i as int + 1) =~= seen.take(i as int).push(seen[i as int]));
            assert(seen.take(i as int + 1).map_values(|t: Seq<char>| (id, t)) =~= seen.take(
                i as int,
            ).map_values(|t: Seq<char>| (id, t)).push((id, seen[i as int])));
            i = i + 1;
        }
        let mut subscribers: Vec<SubscriberRow> = Vec::new();
        let mut j: usize = 0;
        while j < self.users.len()
            invariant
                j <= self.users@.len(),
                users == self@.users,
                subscribers@.map_values(|u: SubscriberRow| (u.feed_id, u.user@)) == users.take(
                    j as int,
                ).map_values(|b: Seq<u8>| (id, b)),
            decreases self.users.len() - j,
        {
            let ghost before = subscribers@.map_values(|u: SubscriberRow| (u.feed_id, u.user@));
            let row = SubscriberRow { feed_id: id, user: copy_bytes(self.users[j].as_slice()) };
            subscribers.push(row);
            assert(users[j as int] == self.users@[j as int]@);
            assert(subscribers@.map_values(|u: SubscriberRow| (u.feed_id, u.user@)) =~= before.push(
                (id, users[j as int]),
            ));
            assert(users.take(j as int + 1) =~= users.take(j as int).push(users[j as int]));
            assert(users.take(j as int + 1).map_values(|b: Seq<u8>| (id, b)) =~= users.take(
                j as int,
            ).map_values(|b: Seq<u8>| (id, b)).push((id, users[j as int])));
            j = j + 1;
        }
        assert(seen.take(seen.len() as int) =~= seen);
        assert(users.take(users.len() as int) =~= users);
        let etag = self.etag.clone();
        assert(opt_text(etag) == opt_text(self.etag));
        StoredFeed {
            feed: FeedRow {
                id,
                url: self.url.clone(),
                last_check: self.last_fetch,
                next_check: self.next_fetch,
                etag,
            },
            entries,
            subscribers,
        }
    }
}

/// The subscribers read back from `subscriber` rows stored for feed `id`
/// are the ones stored, in their order.
proof fn lemma_users_read_back(rows: Seq<SubscriberRow>, users: Seq<Seq<u8>>, id: i64)
    requires
        rows.map_values(|u: SubscriberRow| (u.feed_id, u.user@)) == users.map_values(
            |b: Seq<u8>| (id, b),
        ),
    ensures
        rows.filter(|s: SubscriberRow| s.feed_id == id).map_values(|s: SubscriberRow| s.user@) == users,
    decreases rows.len(),
{
    let p = |s: SubscriberRow| s.feed_id == id;
    assert(rows.len() == users.len()) by {
        let m = rows.map_values(|u: SubscriberRow| (u.feed_id, u.user@));
        let w = users.map_values(|b: Seq<u8>| (id, b));
        assert(m.len() == rows.len());
        assert(w.len() == users.len());
        assert(m == w);
    }
    if rows.len() == 0 {
        assert(rows.filter(p) =~= Seq::<SubscriberRow>::empty()) by {
            reveal(Seq::filter);
        }
        assert(rows.filter(p).map_values(|s: SubscriberRow| s.user@) =~= users);
    } else {
        let n = rows.len() - 1;
        let front = rows.drop_last();
        assert(front.map_values(|u: SubscriberRow| (u.feed_id, u.user@)) =~= rows.map_values(
            |u: SubscriberRow| (u.feed_id, u.user@),
        ).drop_last());
        assert(users.drop_last().map_values(|b: Seq<u8>| (id, b)) =~= users.map_values(
            |b: Seq<u8>| (id, b),
        ).drop_last());
        lemma_users_read_back(front, users.drop_last(), id);
        assert(rows.map_values(|u: SubscriberRow| (u.feed_id, u.user@))[n] == users.map_values(
            |b: Seq<u8>| (id, b),
        )[n]);
        assert(rows =~= front.push(rows[n]));
        front.lemma_filter_push(rows[n], p);
        assert(front.filter(p).push(rows[n]).map_values(|s: SubscriberRow| s.user@) =~= front.filter(
            p,
        ).map_values(|s: SubscriberRow| s.user@).push(rows[n].user@));
        assert(users =~= users.drop_last().push(users[n]));
    }
}

/// The seen entries read back from `entry` rows stored for feed `id` are
/// the ones stored.
proof fn lemma_seen_read_back(rows: Seq<EntryRow>, seen: Seq<Seq<char>>, id: i64)
    requires
        rows.map_values(|e: EntryRow| (e.feed_id, e.entry_id@)) == seen.map_values(
            |t: Seq<char>| (id, t),
        ),
    ensures
        rows.filter(|e: EntryRow| e.feed_id == id).map_values(|e: EntryRow| e.entry_id@) == seen,
    decreases rows.len(),
{
    let p = |e: EntryRow| e.feed_id == id;
    assert(rows.len() == seen.len()) by {
        let m = rows.map_values(|e: EntryRow| (e.feed_id, e.entry_id@));
        let w = seen.map_values(|t: Seq<char>| (id, t));
        assert(m.len() == rows.len());
        assert(w.len() == seen.len());
        assert(m == w);
    }
    if rows.len() == 0 {
        assert(rows.filter(p) =~= Seq::<EntryRow>::empty()) by {
            reveal(Seq::filter);
        }
        assert(rows.filter(p).map_values(|e: EntryRow| e.entry_id@) =~= seen);
    } else {
        let n = rows.len() - 1;
        let front = rows.drop_last();
        assert(front.map_values(|e: EntryRow| (e.feed_id, e.entry_id@)) =~= rows.map_values(
            |e: EntryRow| (e.feed_id, e.entry_id@),
        ).drop_last());
        assert(seen.drop_last().map_values(|t: Seq<char>| (id, t)) =~= seen.map_values(
            |t: Seq<char>| (id, t),
        ).drop_last());
        lemma_seen_read_back(front, seen.drop_last(), id);
        assert(rows.map_values(|e: EntryRow| (e.feed_id, e.entry_id@))[n] == seen.map_values(
            |t: Seq<char>| (id, t),
        )[n]);
        assert(rows =~= front.push(rows[n]));
        front.lemma_filter_push(rows[n], p);
        assert(front.filter(p).push(rows[n]).map_values(|e: EntryRow| e.entry_id@) =~= front.filter(
            p,
        ).map_values(|e: EntryRow| e.entry_id@).push(rows[n].entry_id@));
        assert(seen =~= seen.drop_last().push(seen[n]));
    }
}

/// Storing a feed record and loading it back once it is due gives the same
/// record: the same seen entries and subscribers, and the same absolute
/// time of the next fetch.
pub proof fn lemma_round_trip(f: Feed, stored: StoredFeed, id: i64, now: int)
    requires
        f.wf(),
        stores(stored, f, id),
        f@.users.len() > 0,
        f.next_fetch <= now,
    ensures
        due_records(seq![stored.feed], stored.entries@, stored.subscribers@, now) == seq![f@],
{
    lemma_users_read_back(stored.subscribers@, f@.users, id);
    lemma_distinct_of_distinct(f@.users);
    lemma_seen_read_back(stored.entries@, texts(f.seen_entries@), id);
    let rows = seq![stored.feed];
    assert(rows.drop_last() =~= Seq::<FeedRow>::empty());
    assert(rows.last() == stored.feed);
    assert(due_records(rows.drop_last(), stored.entries@, stored.subscribers@, now) =~= Seq::<
        FeedView,
    >::empty());
    assert(is_due(stored.feed, stored.subscribers@, now));
    assert(record_of(stored.feed, stored.entries@, stored.subscribers@) == f@);
    assert(due_records(rows, stored.entries@, stored.subscribers@, now) =~= seq![f@]);
}

/// Each due record comes from a row of `feeds` whose feed is due.
proof fn lemma_due_from_rows(
    feeds: Seq<FeedRow>,
    entries: Seq<EntryRow>,
    subscribers: Seq<SubscriberRow>,
    now: int,
)
    ensures
        forall|i: int|
            0 <= i < due_records(feeds, entries, subscribers, now).len() ==> exists|j: int|
                0 <= j < feeds.len() && is_due(feeds[j], subscribers, now) && #[trigger] due_records(
                    feeds,
                    entries,
                    subscribers,
                    now,
                )[i] == record_of(feeds[j], entries, subscribers),
    decreases feeds.len(),
{
    if feeds.len() > 0 {
        let front = feeds.drop_last();
        lemma_due_from_rows(front, entries, subscribers, now);
        let due = due_records(feeds, entries, subscribers, now);
        let before = due_records(front, entries, subscribers, now);
        assert forall|i: int| 0 <= i < due.len() implies exists|j: int|
            0 <= j < feeds.len() && is_due(feeds[j], subscribers, now) && #[trigger] due[i]
                == record_of(feeds[j], entries, subscribers) by {
            if i < before.len() {
                let j = choose|j: int|
                    0 <= j < front.len() && is_due(front[j], subscribers, now) && before[i]
                        == record_of(front[j], entries, subscribers);
                assert(feeds[j] == front[j]);
            } else {
                assert(feeds[feeds.len() - 1] == feeds.last());
            }
        }
    }
}

/// Once a feed has no subscriber left, it is not among the due feeds, the
/// feeds' URLs being unique.
pub proof fn lemma_unsubscribed_not_due(
    feeds: Seq<FeedRow>,
    entries: Seq<EntryRow>,
    subscribers: Seq<SubscriberRow>,
    now: int,
    k: int,
)
    requires
        0 <= k < feeds.len(),
        users_of(subscribers, feeds[k].id).len() == 0,
        forall|i: int, j: int|
            0 <= i < feeds.len() && 0 <= j < feeds.len() && #[trigger] feeds[i].url@ == #[trigger] feeds[j].url@
                ==> i == j,
    ensures
        forall|i: int|
            0 <= i < due_records(feeds, entries, subscribers, now).len() ==> #[trigger] due_records(
                feeds,
                entries,
                subscribers,
                now,
            )[i].url != feeds[k].url@,
{
    lemma_due_from_rows(feeds, entries, subscribers, now);
    let due = due_records(feeds, entries, subscribers, now);
    assert forall|i: int| 0 <= i < due.len() implies #[trigger] due[i].url != feeds[k].url@ by {
        let j = choose|j: int|
            0 <= j < feeds.len() && is_due(feeds[j], subscribers, now) && due[i] == record_of(
                feeds[j],
                entries,
                subscribers,
            );
        if due[i].url == feeds[k].url@ {
            assert(feeds[j].url@ == feeds[k].url@);
        }
    }
}

} // verus!
