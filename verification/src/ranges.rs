//! The order in which highlight ranges are walked: ascending by start, ranges
//! that start together in the order in which they were given.

use vstd::prelude::*;
use vstd::seq_lib::*;

verus! {

/// Whether no range starts before one that stands earlier in the sequence.
pub open spec fn ascending(ranges: Seq<(usize, usize)>) -> bool {
    forall|i: int, j: int| 0 <= i <= j < ranges.len() ==> ranges[i].0 <= ranges[j].0
}

/// `sorted` with `range` put in behind every range that starts no later.
pub open spec fn insert_by_start(sorted: Seq<(usize, usize)>, range: (usize, usize)) -> Seq<
    (usize, usize),
>
    decreases sorted.len(),
{
    if sorted.len() == 0 || sorted.last().0 <= range.0 {
        sorted.push(range)
    } else {
        insert_by_start(sorted.drop_last(), range).push(sorted.last())
    }
}

/// The ranges in ascending order of their starts; ranges with the same start
/// keep the order in which they were given.
pub open spec fn sorted_by_start(ranges: Seq<(usize, usize)>) -> Seq<(usize, usize)>
    decreases ranges.len(),
{
    if ranges.len() == 0 {
        Seq::empty()
    } else {
        insert_by_start(sorted_by_start(ranges.drop_last()), ranges.last())
    }
}

/// Putting a range into an ascending sequence keeps it ascending, adds that
/// one range to what it holds, and puts it behind the ranges that start with it.
proof fn lemma_insert(sorted: Seq<(usize, usize)>, range: (usize, usize), start: usize)
    requires
        ascending(sorted),
    ensures
        ascending(insert_by_start(sorted, range)),
        insert_by_start(sorted, range).len() == sorted.len() + 1,
        insert_by_start(sorted, range).to_multiset() == sorted.to_multiset().insert(range),
        insert_by_start(sorted, range).filter(|r: (usize, usize)| r.0 == start) == if range.0
            == start {
            sorted.filter(|r: (usize, usize)| r.0 == start).push(range)
        } else {
            sorted.filter(|r: (usize, usize)| r.0 == start)
        },
    decreases sorted.len(),
{
    let starts_at = |r: (usize, usize)| r.0 == start;
    let out = insert_by_start(sorted, range);
    if sorted.len() == 0 || sorted.last().0 <= range.0 {
        to_multiset_build(sorted, range);
        sorted.lemma_filter_push(range, starts_at);
    } else {
        let front = sorted.drop_last();
        let last = sorted.last();
        let inner = insert_by_start(front, range);
        lemma_insert(front, range, start);
        assert forall|i: int| 0 <= i < inner.len() implies inner[i].0 <= last.0 by {
            // What stands in `inner` is `range` or stands in `front`.
            to_multiset_contains(inner, inner[i]);
            to_multiset_contains(front, inner[i]);
            if inner[i] != range {
                let k = choose|k: int| 0 <= k < front.len() && front[k] == inner[i];
                assert(sorted[k].0 <= sorted[sorted.len() - 1].0);
            }
        }
        assert(sorted =~= front.push(last));
        to_multiset_build(inner, last);
        to_multiset_build(front, last);
        inner.lemma_filter_push(last, starts_at);
        front.lemma_filter_push(last, starts_at);
    }
}

/// Sorting yields an ascending sequence.
pub proof fn lemma_sorted_ascending(ranges: Seq<(usize, usize)>)
    ensures
        ascending(sorted_by_start(ranges)),
        sorted_by_start(ranges).len() == ranges.len(),
    decreases ranges.len(),
{
    if ranges.len() > 0 {
        lemma_sorted_ascending(ranges.drop_last());
        lemma_insert(sorted_by_start(ranges.drop_last()), ranges.last(), 0);
    }
}

/// Sorting neither drops nor adds a range: each range occurs in the result as
/// often as in what was given.
pub proof fn lemma_sorted_permutes(ranges: Seq<(usize, usize)>)
    ensures
        sorted_by_start(ranges).to_multiset() == ranges.to_multiset(),
    decreases ranges.len(),
{
    if ranges.len() == 0 {
        assert(sorted_by_start(ranges) =~= ranges);
    } else {
        let front = ranges.drop_last();
        lemma_sorted_permutes(front);
        lemma_sorted_ascending(front);
        lemma_insert(sorted_by_start(front), ranges.last(), 0);
        assert(ranges =~= front.push(ranges.last()));
        to_multiset_build(front, ranges.last());
    }
}

/// Sorting is stable: the ranges that start at one offset come out in the
/// order in which they went in.
pub proof fn lemma_sorted_stable(ranges: Seq<(usize, usize)>, start: usize)
    ensures
        sorted_by_start(ranges).filter(|r: (usize, usize)| r.0 == start) == ranges.filter(
            |r: (usize, usize)| r.0 == start,
        ),
    decreases ranges.len(),
{
    let starts_at = |r: (usize, usize)| r.0 == start;
    if ranges.len() > 0 {
        let front = ranges.drop_last();
        lemma_sorted_stable(front, start);
        lemma_sorted_ascending(front);
        lemma_insert(sorted_by_start(front), ranges.last(), start);
        assert(ranges =~= front.push(ranges.last()));
        front.lemma_filter_push(ranges.last(), starts_at);
    }
}

/// Ranges that are given in ascending order come out as they went in.
pub proof fn lemma_sorted_keeps_ascending(ranges: Seq<(usize, usize)>)
    requires
        ascending(ranges),
    ensures
        sorted_by_start(ranges) == ranges,
    decreases ranges.len(),
{
    if ranges.len() > 0 {
        lemma_sorted_keeps_ascending(ranges.drop_last());
    }
}

/// Sorting twice is sorting once.
pub proof fn lemma_sorted_idempotent(ranges: Seq<(usize, usize)>)
    ensures
        sorted_by_start(sorted_by_start(ranges)) == sorted_by_start(ranges),
{
    lemma_sorted_ascending(ranges);
    lemma_sorted_keeps_ascending(sorted_by_start(ranges));
}

/// Where `range` goes: before the ranges from `at` on, which all start later,
/// and behind the one before `at`, which does not.
proof fn lemma_insert_position(sorted: Seq<(usize, usize)>, range: (usize, usize), at: int)
    requires
        0 <= at <= sorted.len(),
        forall|k: int| at <= k < sorted.len() ==> sorted[k].0 > range.0,
        at > 0 ==> sorted[at - 1].0 <= range.0,
    ensures
        insert_by_start(sorted, range) == sorted.insert(at, range),
    decreases sorted.len(),
{
    if at < sorted.len() {
        lemma_insert_position(sorted.drop_last(), range, at);
    }
}

/// Sorts the ranges by their starts, keeping the given order among ranges
/// that start together.
pub fn sort_by_start(ranges: &Vec<(usize, usize)>) -> (sorted: Vec<(usize, usize)>)
    ensures
        sorted@ == sorted_by_start(ranges@),
{
    let mut sorted: Vec<(usize, usize)> = Vec::new();
    let mut done: usize = 0;
    while done < ranges.len()
        invariant
            done <= ranges.len(),
            sorted@ == sorted_by_start(ranges@.take(done as int)),
            sorted.len() == done,
        decreases ranges.len() - done,
    {
        let range = ranges[done];
        let mut at: usize = sorted.len();
        while at > 0 && sorted[at - 1].0 > range.0
            invariant
                at <= sorted.len(),
                forall|k: int| at <= k < sorted.len() ==> sorted@[k].0 > range.0,
            decreases at,
        {
            at -= 1;
        }
        proof {
            lemma_insert_position(sorted@, range, at as int);
            let taken = ranges@.take(done as int + 1);
            assert(taken.drop_last() =~= ranges@.take(done as int));
        }
        sorted.insert(at, range);
        done += 1;
    }
    proof {
        assert(ranges@.take(done as int) =~= ranges@);
    }
    sorted
}

} // verus!
