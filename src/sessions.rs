//! Sessions of one day as `(start, end)` instants: sorting, and detection of
//! the breaks between consecutive sessions.

use crate::calendar::{in_time_range, TIME_LIMIT};
use vstd::prelude::*;

verus! {

/// Largest number of events that one aggregation takes.
pub const EVENT_LIMIT: usize = 16_777_216;

/// A gap between sessions counts as a break only when it is longer than this
/// many seconds (ten minutes).
pub const BREAK_THRESHOLD: i64 = 600;

/// An idle gap between two consecutive sessions of one day.
#[derive(Clone, Copy, Debug, PartialEq, Eq, Structural)]
pub struct Break {
    pub start: i64,
    pub end: i64,
    pub duration: i64,
}

/// Sessions are ordered by start, then by end.
pub open spec fn session_le(a: (i64, i64), b: (i64, i64)) -> bool {
    a.0 < b.0 || (a.0 == b.0 && a.1 <= b.1)
}

pub open spec fn is_sorted(s: Seq<(i64, i64)>) -> bool {
    forall|i: int, j: int| 0 <= i < j < s.len() ==> session_le(#[trigger] s[i], #[trigger] s[j])
}

pub open spec fn sessions_in_range(s: Seq<(i64, i64)>) -> bool {
    forall|k: int| 0 <= k < s.len() ==> in_time_range(#[trigger] s[k].0 as int) && in_time_range(s[k].1 as int)
}

pub open spec fn breaks_in_range(b: Seq<Break>) -> bool {
    forall|i: int| 0 <= i < b.len() ==> in_time_range((#[trigger] b[i]).start as int) && in_time_range(b[i].end as int)
}

/// The breaks of a sequence of sessions, in the order of the sequence: one
/// for each adjacent pair whose gap exceeds the threshold.
pub open spec fn breaks_of(s: Seq<(i64, i64)>) -> Seq<Break>
    decreases s.len(),
{
    if s.len() < 2 {
        seq![]
    } else {
        let prev = breaks_of(s.drop_last());
        let a = s[s.len() - 2];
        let b = s[s.len() - 1];
        if b.0 - a.1 > BREAK_THRESHOLD {
            prev.push(Break { start: a.1, end: b.0, duration: (b.0 - a.1) as i64 })
        } else {
            prev
        }
    }
}

/// The summed duration of a sequence of breaks.
pub open spec fn break_total(b: Seq<Break>) -> int
    decreases b.len(),
{
    if b.len() == 0 {
        0
    } else {
        break_total(b.drop_last()) + b.last().duration
    }
}

/// Sorts sessions by start, then by end.
pub fn sort_sessions(v: &Vec<(i64, i64)>) -> (r: Vec<(i64, i64)>)
    ensures
        is_sorted(r@),
        r@.to_multiset() == v@.to_multiset(),
        forall|k: int| 0 <= k < r@.len() ==> v@.contains(#[trigger] r@[k]),
{
    let mut r: Vec<(i64, i64)> = Vec::new();
    let n = v.len();
    assert(r@ =~= v@.take(0));
    for i in 0..n
        invariant
            n == v.len(),
            is_sorted(r@),
            r@.to_multiset() == v@.take(i as int).to_multiset(),
            forall|k: int| 0 <= k < r@.len() ==> v@.take(i as int).contains(#[trigger] r@[k]),
    {
        let x = v[i];
        let mut p: usize = 0;
        while p < r.len() && (r[p].0 < x.0 || (r[p].0 == x.0 && r[p].1 <= x.1))
            invariant
                p <= r.len(),
                forall|k: int| 0 <= k < p ==> session_le(#[trigger] r@[k], x),
            decreases r.len() - p,
        {
            p = p + 1;
        }
        let ghost old_r = r@;
        r.insert(p, x);
        proof {
            assert(v@.take(i + 1) =~= v@.take(i as int).push(x));
            vstd::seq_lib::to_multiset_insert(old_r, p as int, x);
            vstd::seq_lib::to_multiset_build(v@.take(i as int), x);
            assert forall|a: int, b: int| 0 <= a < b < r@.len() implies session_le(
                #[trigger] r@[a],
                #[trigger] r@[b],
            ) by {
                if b < p {
                    assert(session_le(old_r[a], old_r[b]));
                } else if b == p {
                    assert(session_le(old_r[a], x));
                } else if a == p {
                    assert(session_le(x, old_r[p as int]));
                    assert(session_le(old_r[p as int], old_r[b - 1]));
                } else if a < p {
                    assert(session_le(old_r[a], x));
                    assert(session_le(x, old_r[p as int]));
                    assert(session_le(old_r[p as int], old_r[b - 1]));
                } else {
                    assert(session_le(old_r[a - 1], old_r[b - 1]));
                }
            }
            assert forall|k: int| 0 <= k < r@.len() implies v@.take(i + 1).contains(#[trigger] r@[k]) by {
                if k < p {
                    assert(v@.take(i as int).contains(old_r[k]));
                } else if k == p {
                    assert(v@.take(i + 1)[i as int] == x);
                } else {
                    assert(v@.take(i as int).contains(old_r[k - 1]));
                }
            }
        }
    }
    assert(v@.take(n as int) =~= v@);
    r
}

/// The breaks between consecutive sessions, in the order given, and their
/// summed duration.
pub fn find_breaks(s: &Vec<(i64, i64)>) -> (r: (Vec<Break>, i64))
    requires
        sessions_in_range(s@),
        s.len() <= EVENT_LIMIT,
    ensures
        r.0@ == breaks_of(s@),
        r.1 as int == break_total(r.0@),
        0 <= r.1 <= s.len() * 2 * TIME_LIMIT,
        breaks_in_range(r.0@),
{
    let mut breaks: Vec<Break> = Vec::new();
    let mut total: i64 = 0;
    let n = s.len();
    if n < 2 {
        assert(s@.len() < 2);
        assert(breaks@ =~= seq![]);
        return (breaks, total);
    }
    let mut i: usize = 1;
    assert(s@.take(1).drop_last() =~= s@.take(0));
    assert(breaks@ =~= seq![]);
    while i < n
        invariant
            1 <= i <= n,
            n == s.len(),
            n <= EVENT_LIMIT,
            sessions_in_range(s@),
            breaks@ == breaks_of(s@.take(i as int)),
            total as int == break_total(breaks@),
            0 <= total <= i * 2 * TIME_LIMIT,
            breaks_in_range(breaks@),
        decreases n - i,
    {
        let (_, prev_end) = s[i - 1];
        let (next_start, _) = s[i];
        assert(in_time_range(s@[i - 1].0 as int) && in_time_range(s@[i as int].0 as int));
        let gap: i64 = next_start - prev_end;
        proof {
            assert(s@.take(i + 1).drop_last() =~= s@.take(i as int));
        }
        if gap > BREAK_THRESHOLD {
            let ghost old_breaks = breaks@;
            breaks.push(Break { start: prev_end, end: next_start, duration: gap });
            assert(breaks@.drop_last() =~= old_breaks);
            total = total + gap;
        }
        i = i + 1;
    }
    assert(s@.take(n as int) =~= s@);
    (breaks, total)
}

/// Breaks found among sorted sessions, none of which ends before it starts,
/// come in time order, do not overlap, and each lasts longer than the
/// threshold: from its start to its end.
pub proof fn lemma_breaks_ordered(s: Seq<(i64, i64)>)
    requires
        is_sorted(s),
        sessions_in_range(s),
        forall|k: int| 0 <= k < s.len() ==> (#[trigger] s[k]).0 <= s[k].1,
    ensures
        forall|i: int|
            0 <= i < breaks_of(s).len() ==> {
                let b = #[trigger] breaks_of(s)[i];
                &&& b.duration > BREAK_THRESHOLD
                &&& b.duration == b.end - b.start
            },
        forall|i: int, j: int|
            0 <= i < j < breaks_of(s).len() ==> (#[trigger] breaks_of(s)[i]).end <= (
            #[trigger] breaks_of(s)[j]).start,
        s.len() > 0 ==> forall|i: int|
            0 <= i < breaks_of(s).len() ==> (#[trigger] breaks_of(s)[i]).end <= s[s.len() - 1].0,
    decreases s.len(),
{
    if s.len() >= 2 {
        let t = s.drop_last();
        assert forall|i: int, j: int| 0 <= i < j < t.len() implies session_le(#[trigger] t[i], #[trigger] t[j]) by {
            assert(session_le(s[i], s[j]));
        }
        assert forall|k: int| 0 <= k < t.len() implies (#[trigger] t[k]).0 <= t[k].1 by {
            assert(s[k].0 <= s[k].1);
        }
        assert forall|k: int| 0 <= k < t.len() implies in_time_range(#[trigger] t[k].0 as int) && in_time_range(
            t[k].1 as int,
        ) by {
            assert(in_time_range(s[k].0 as int));
        }
        lemma_breaks_ordered(t);
        assert(in_time_range(s[s.len() - 1].0 as int) && in_time_range(s[s.len() - 2].1 as int));
        assert(session_le(s[s.len() - 2], s[s.len() - 1]));
        assert(s[s.len() - 2].0 <= s[s.len() - 2].1);
        let prev = breaks_of(t);
        let a = s[s.len() - 2];
        let b = s[s.len() - 1];
        assert(t[t.len() - 1] == a);
        if b.0 - a.1 > BREAK_THRESHOLD {
            let nb = Break { start: a.1, end: b.0, duration: (b.0 - a.1) as i64 };
            assert(breaks_of(s) == prev.push(nb));
            assert forall|i: int, j: int| 0 <= i < j < breaks_of(s).len() implies (#[trigger] breaks_of(s)[i]).end <= (
            #[trigger] breaks_of(s)[j]).start by {
                if j < prev.len() {
                    assert(prev[i].end <= prev[j].start);
                } else {
                    assert(prev[i].end <= a.0);
                }
            }
        } else {
            assert(breaks_of(s) == prev);
        }
    }
}

} // verus!
