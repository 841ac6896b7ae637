//! Decisions of the polling cycle: what the outcome of delivering an entry
//! to every subscriber does to a feed record, and when failing to store the
//! records is fatal.
use vstd::prelude::*;
use crate::command::same_text;
use crate::feed::{after_full_failure, contains_id, entry_ids, texts, unseen, Entry, Feed, FeedView};

verus! {

/// How delivering an entry to one subscriber went.
#[derive(Clone, Copy, Debug, PartialEq, Eq, Structural)]
pub enum Delivery {
    /// The message was sent.
    Delivered,
    /// The subscriber can no longer be reached (it blocked the sender, for
    /// one); this counts as no failure and is not retried.
    Unreachable,
    /// Sending failed for another reason.
    Failed,
}

/// The name of the error that the messaging platform reports when the
/// recipient has blocked the sender.
pub const BLOCKED: &'static str = "USER_IS_BLOCKED";

/// How a delivery went whose sending the platform refused with an error of
/// this name: a blocked sender means the subscriber is unreachable, any
/// other error is a failure.
pub fn refusal_outcome(error_name: &str) -> (r: Delivery)
    ensures
        r == (if error_name@ == BLOCKED@ {
            Delivery::Unreachable
        } else {
            Delivery::Failed
        }),
{
    if same_text(error_name, BLOCKED) {
        Delivery::Unreachable
    } else {
        Delivery::Failed
    }
}

/// Whether every delivery of an entry failed (vacuously so without subscribers).
pub open spec fn all_failed_spec(outcomes: Seq<Delivery>) -> bool {
    forall|i: int| 0 <= i < outcomes.len() ==> #[trigger] outcomes[i] == Delivery::Failed
}

/// Whether every delivery of an entry failed.
pub fn all_failed(outcomes: &[Delivery]) -> (r: bool)
    ensures
        r == all_failed_spec(outcomes@),
{
    let mut i: usize = 0;
    while i < outcomes.len()
        invariant
            i <= outcomes@.len(),
            forall|j: int| 0 <= j < i ==> #[trigger] outcomes@[j] == Delivery::Failed,
        decreases outcomes.len() - i,
    {
        if outcomes[i] != Delivery::Failed {
            return false;
        }
        i = i + 1;
    }
    true
}

/// A feed record after the deliveries of `entry`, one of `entries`, went as
/// `outcomes` say: where all failed, the whole round is rolled back;
/// otherwise the entry counts as seen.
pub open spec fn after_deliveries(
    v: FeedView,
    entries: Seq<Entry>,
    entry: Entry,
    outcomes: Seq<Delivery>,
) -> FeedView {
    if all_failed_spec(outcomes) {
        after_full_failure(v, entries)
    } else {
        FeedView { seen: v.seen.insert(entry.id@), ..v }
    }
}

impl Feed {
    /// Notes how the deliveries of `entries[index]`, one of the new entries
    /// of this round, went. Returns whether the round goes on with the next
    /// entry: not after every delivery failed, which rolls the round back.
    pub fn settle_entry(&mut self, entries: &[Entry], index: usize, outcomes: &[Delivery]) -> (r: bool)
        requires
            old(self).wf(),
            index < entries@.len(),
        ensures
            final(self).wf(),
            r == !all_failed_spec(outcomes@),
            final(self)@ == after_deliveries(old(self)@, entries@, entries@[index as int], outcomes@),
    {
        if all_failed(outcomes) {
            self.reset_entries(entries);
            return false;
        }
        let id = &entries[index].id;
        let ghost ids = texts(self.seen_entries@);
        if !contains_id(&self.seen_entries, id) {
            self.seen_entries.push(id.clone());
            proof {
                assert(texts(self.seen_entries@) =~= ids.push(id@));
                ids.lemma_push_to_set_commute(id@);
            }
        } else {
            assert(ids.to_set().insert(id@) =~= ids.to_set());
        }
        true
    }
}

/// A feed's new entries never include one whose identifier was seen,
/// whatever their order.
pub proof fn lemma_unseen_excludes_seen(entries: Seq<Entry>, seen: Set<Seq<char>>)
    ensures
        forall|i: int| 0 <= i < unseen(entries, seen).len() ==> !seen.contains(
            #[trigger] unseen(entries, seen)[i].id@,
        ),
        forall|i: int|
            0 <= i < entries.len() && !seen.contains(#[trigger] entries[i].id@)
                ==> unseen(entries, seen).contains(entries[i]),
    decreases entries.len(),
{
    if entries.len() > 0 {
        let rest = entries.drop_first();
        lemma_unseen_excludes_seen(rest, seen);
        assert forall|i: int|
            0 <= i < entries.len() && !seen.contains(#[trigger] entries[i].id@)
                implies unseen(entries, seen).contains(entries[i]) by {
            if i > 0 {
                assert(rest[i - 1] == entries[i]);
                let k = choose|k: int| 0 <= k < unseen(rest, seen).len() && unseen(rest, seen)[k] == entries[i];
                if !seen.contains(entries[0].id@) {
                    assert(unseen(entries, seen)[k + 1] == entries[i]);
                }
            } else {
                assert(unseen(entries, seen)[0] == entries[0]);
            }
        }
    }
}

/// How many times `x` occurs in `s`.
pub open spec fn occurrences(s: Seq<Entry>, x: Entry) -> nat
    decreases s.len(),
{
    if s.len() == 0 {
        0
    } else {
        (if s[0] == x {
            1nat
        } else {
            0nat
        }) + occurrences(s.drop_first(), x)
    }
}

/// An entry occurs among the unseen entries as often as among all of them,
/// unless its identifier was seen.
proof fn lemma_unseen_occurrences(entries: Seq<Entry>, seen: Set<Seq<char>>, x: Entry)
    ensures
        occurrences(unseen(entries, seen), x) == if seen.contains(x.id@) {
            0
        } else {
            occurrences(entries, x)
        },
    decreases entries.len(),
{
    if entries.len() > 0 {
        let rest = entries.drop_first();
        lemma_unseen_occurrences(rest, seen, x);
        if !seen.contains(entries[0].id@) {
            let u = seq![entries[0]] + unseen(rest, seen);
            assert(u.drop_first() =~= unseen(rest, seen));
            assert(u[0] == entries[0]);
        }
    }
}

/// Which entries come out as new does not depend on the order in which the
/// feed lists them: entries listed in another order give the same entries,
/// each as often.
pub proof fn lemma_unseen_order_free(entries: Seq<Entry>, reordered: Seq<Entry>, seen: Set<Seq<char>>)
    requires
        forall|x: Entry| occurrences(entries, x) == occurrences(reordered, x),
    ensures
        forall|x: Entry|
            #[trigger] occurrences(unseen(entries, seen), x) == occurrences(unseen(reordered, seen), x),
{
    assert forall|x: Entry|
        #[trigger] occurrences(unseen(entries, seen), x) == occurrences(unseen(reordered, seen), x) by {
        lemma_unseen_occurrences(entries, seen, x);
        lemma_unseen_occurrences(reordered, seen, x);
    }
}

/// When every delivery of an entry of a round fails, none of the round's
/// entries stays seen, and the feed's validator and time of last fetch are
/// cleared, so that the next fetch is unconditional and offers them again.
pub proof fn lemma_full_failure_rolls_back(
    v: FeedView,
    entries: Seq<Entry>,
    index: int,
    outcomes: Seq<Delivery>,
)
    requires
        0 <= index < entries.len(),
        all_failed_spec(outcomes),
    ensures
        forall|i: int|
            0 <= i < entries.len() ==> !after_deliveries(v, entries, entries[index], outcomes).seen.contains(
                #[trigger] entries[i].id@,
            ),
        after_deliveries(v, entries, entries[index], outcomes).etag is None,
        after_deliveries(v, entries, entries[index], outcomes).last_fetch == 0,
{
    assert forall|i: int| 0 <= i < entries.len() implies entry_ids(entries).contains(
        #[trigger] entries[i].id@,
    ) by {
        assert(entries.map_values(|e: Entry| e.id@)[i] == entries[i].id@);
    }
}

/// Whether the last attempt to store the cycle's feed records failed.
pub struct SaveHistory {
    pub last_save_failed: bool,
}

impl SaveHistory {
    /// No attempt yet.
    pub fn new() -> (r: SaveHistory)
        ensures
            !r.last_save_failed,
    {
        SaveHistory { last_save_failed: false }
    }

    /// Notes whether storing the records succeeded; returns whether the
    /// process has to stop: after two failures in a row.
    pub fn record_save(&mut self, saved: bool) -> (fatal: bool)
        ensures
            fatal == (!saved && old(self).last_save_failed),
            final(self).last_save_failed == !saved,
    {
        let fatal = !saved && self.last_save_failed;
        self.last_save_failed = !saved;
        fatal
    }
}

} // verus!
