use crate::types::TimeSlot;
use vstd::prelude::*;

verus! {

/// How many of the first `n` end slots lie at or before `deadline`.
pub open spec fn count_leq_upto(ends: Seq<TimeSlot>, n: int, deadline: int) -> int
    decreases n,
{
    if n <= 0 {
        0
    } else {
        count_leq_upto(ends, n - 1, deadline) + if ends[n - 1] <= deadline {
            1int
        } else {
            0int
        }
    }
}

/// Total duration of the events (pairs of end slot and duration) whose
/// end lies at or before `deadline`.
pub open spec fn dur_sum_leq(events: Seq<(TimeSlot, u16)>, deadline: int) -> int
    decreases events.len(),
{
    if events.len() == 0 {
        0
    } else {
        dur_sum_leq(events.drop_last(), deadline) + if events.last().0 <= deadline {
            events.last().1 as int
        } else {
            0int
        }
    }
}

/// Total duration of the first `n` events, regardless of deadline.
pub open spec fn dur_prefix(events: Seq<(TimeSlot, u16)>, n: int) -> int
    decreases n,
{
    if n <= 0 {
        0
    } else {
        dur_prefix(events, n - 1) + events[n - 1].1 as int
    }
}

/// Stable insertion into a run sorted by end slot.
pub open spec fn insert_by_end(s: Seq<(TimeSlot, u16)>, e: (TimeSlot, u16)) -> Seq<(TimeSlot, u16)>
    decreases s.len(),
{
    if s.len() == 0 {
        seq![e]
    } else if e.0 < s.last().0 {
        insert_by_end(s.drop_last(), e).push(s.last())
    } else {
        s.push(e)
    }
}

/// Stable sort by end slot, defined by repeated insertion.
pub open spec fn sort_by_end(s: Seq<(TimeSlot, u16)>) -> Seq<(TimeSlot, u16)>
    decreases s.len(),
{
    if s.len() == 0 {
        s
    } else {
        insert_by_end(sort_by_end(s.drop_last()), s.last())
    }
}

pub open spec fn sorted_by_end(s: Seq<(TimeSlot, u16)>) -> bool {
    forall|i: int, j: int| 0 <= i < j < s.len() ==> s[i].0 <= s[j].0
}

/// A prefix-sum index over event end slots: `ends` ascending, and
/// `prefix_sum[i]` the total duration of the first `i + 1` events.
pub struct DurationPrefixIndex {
    pub ends: Vec<TimeSlot>,
    pub prefix_sum: Vec<u32>,
}

proof fn lemma_insert_by_end_props(s: Seq<(TimeSlot, u16)>, e: (TimeSlot, u16), deadline: int)
    requires
        sorted_by_end(s),
    ensures
        sorted_by_end(insert_by_end(s, e)),
        insert_by_end(s, e).len() == s.len() + 1,
        dur_sum_leq(insert_by_end(s, e), deadline) == dur_sum_leq(s, deadline) + if e.0
            <= deadline {
            e.1 as int
        } else {
            0int
        },
    decreases s.len(),
{
    if s.len() == 0 {
        assert(insert_by_end(s, e) =~= seq![e]);
        assert(seq![e].drop_last() =~= s);
    } else if e.0 < s.last().0 {
        assert(sorted_by_end(s.drop_last()));
        lemma_insert_by_end_props(s.drop_last(), e, deadline);
        let inner = insert_by_end(s.drop_last(), e);
        let cur = insert_by_end(s, e);
        assert(cur == inner.push(s.last()));
        assert(cur.drop_last() =~= inner);
        assert(cur.last() == s.last());
        assert forall|i: int, j: int| 0 <= i < j < cur.len() implies cur[i].0 <= cur[j].0 by {
            if j < inner.len() {
            } else {
                if i < inner.len() {
                    assert(cur[j] == s.last());
                    if inner[i] == e {
                        assert(cur[i].0 <= cur[j].0);
                    } else {
                        lemma_insert_membership(s.drop_last(), e, i);
                    }
                }
            }
        }
    } else {
        let cur = s.push(e);
        assert(cur.drop_last() =~= s);
        assert(cur.last() == e);
        assert forall|i: int, j: int| 0 <= i < j < cur.len() implies cur[i].0 <= cur[j].0 by {
            if j == s.len() {
                if i < s.len() {
                    assert(cur[i] == s[i]);
                    if s.len() >= 1 && i < s.len() - 1 {
                        assert(s[i].0 <= s[s.len() - 1].0);
                    }
                    assert(s.last().0 <= e.0);
                }
            }
        }
    }
}

/// Every element of an insertion result is either the inserted element or
/// an element of the run it was inserted into.
proof fn lemma_insert_membership(s: Seq<(TimeSlot, u16)>, e: (TimeSlot, u16), i: int)
    requires
        0 <= i < insert_by_end(s, e).len(),
    ensures
        insert_by_end(s, e)[i] == e || exists|j: int|
            0 <= j < s.len() && s[j] == insert_by_end(s, e)[i],
    decreases s.len(),
{
    if s.len() == 0 {
    } else if e.0 < s.last().0 {
        let inner = insert_by_end(s.drop_last(), e);
        if i < inner.len() {
            lemma_insert_membership(s.drop_last(), e, i);
            if inner[i] != e {
                let j = choose|j: int| 0 <= j < s.drop_last().len() && s.drop_last()[j] == inner[i];
                assert(s[j] == inner[i]);
            }
        } else {
            assert(insert_by_end(s, e)[i] == s.last());
            assert(s[s.len() - 1] == s.last());
        }
    } else {
        if i < s.len() {
        } else {
            assert(insert_by_end(s, e)[i] == e);
        }
    }
}

proof fn lemma_sort_by_end_props(s: Seq<(TimeSlot, u16)>, deadline: int)
    ensures
        sorted_by_end(sort_by_end(s)),
        sort_by_end(s).len() == s.len(),
        dur_sum_leq(sort_by_end(s), deadline) == dur_sum_leq(s, deadline),
    decreases s.len(),
{
    if s.len() > 0 {
        lemma_sort_by_end_props(s.drop_last(), deadline);
        lemma_insert_by_end_props(sort_by_end(s.drop_last()), s.last(), deadline);
    }
}

/// On a sorted run split at `k` (everything before at or under the
/// deadline, everything from `k` on above it), the deadline count is `k`.
proof fn lemma_count_split(ends: Seq<TimeSlot>, n: int, k: int, deadline: int)
    requires
        0 <= k <= ends.len(),
        0 <= n <= ends.len(),
        forall|i: int| 0 <= i < k ==> ends[i] <= deadline,
        forall|i: int| k <= i < ends.len() ==> ends[i] > deadline,
    ensures
        count_leq_upto(ends, n, deadline) == if n <= k {
            n
        } else {
            k
        },
    decreases n,
{
    if n > 0 {
        lemma_count_split(ends, n - 1, k, deadline);
    }
}

/// On a sorted event run, the deadline-gated duration sum equals the
/// plain prefix sum over exactly the events counted by the deadline.
proof fn lemma_sorted_sum_is_prefix(s: Seq<(TimeSlot, u16)>, deadline: int)
    requires
        sorted_by_end(s),
    ensures
        count_leq_upto(s.map_values(|p: (TimeSlot, u16)| p.0), s.len() as int, deadline) <= s.len(),
        dur_sum_leq(s, deadline) == dur_prefix(
            s,
            count_leq_upto(s.map_values(|p: (TimeSlot, u16)| p.0), s.len() as int, deadline),
        ),
    decreases s.len(),
{
    let ends = s.map_values(|p: (TimeSlot, u16)| p.0);
    lemma_count_nonneg(ends, s.len() as int, deadline);
    if s.len() == 0 {
    } else {
        let pre = s.drop_last();
        assert(sorted_by_end(pre));
        lemma_sorted_sum_is_prefix(pre, deadline);
        let pre_ends = pre.map_values(|p: (TimeSlot, u16)| p.0);
        assert(pre_ends =~= ends.take(s.len() - 1));
        lemma_count_prefix_agrees(ends, pre_ends, s.len() - 1, deadline);
        let cnt_pre = count_leq_upto(pre_ends, pre.len() as int, deadline);
        let cnt = count_leq_upto(ends, s.len() as int, deadline);
        assert(ends[s.len() - 1] == s.last().0);
        if s.last().0 <= deadline {
            assert(forall|i: int| 0 <= i < pre.len() ==> pre[i].0 <= deadline);
            lemma_count_all(pre_ends, pre.len() as int, deadline);
            assert(cnt_pre == pre.len());
            assert(cnt == s.len());
            lemma_dur_prefix_drop(s, s.len() - 1);
            assert(dur_prefix(s, s.len() as int) == dur_prefix(s, s.len() - 1) + s.last().1);
        } else {
            assert(cnt == cnt_pre);
            lemma_dur_prefix_drop(s, cnt);
        }
    }
}

proof fn lemma_count_nonneg(ends: Seq<TimeSlot>, n: int, deadline: int)
    ensures
        0 <= count_leq_upto(ends, n, deadline) <= if n >= 0 {
            n
        } else {
            0
        },
    decreases n,
{
    if n > 0 {
        lemma_count_nonneg(ends, n - 1, deadline);
    }
}

proof fn lemma_count_prefix_agrees(ends: Seq<TimeSlot>, pre: Seq<TimeSlot>, n: int, deadline: int)
    requires
        0 <= n <= pre.len(),
        n <= ends.len(),
        forall|i: int| 0 <= i < n ==> ends[i] == pre[i],
    ensures
        count_leq_upto(ends, n, deadline) == count_leq_upto(pre, n, deadline),
    decreases n,
{
    if n > 0 {
        lemma_count_prefix_agrees(ends, pre, n - 1, deadline);
    }
}

proof fn lemma_count_all(ends: Seq<TimeSlot>, n: int, deadline: int)
    requires
        0 <= n <= ends.len(),
        forall|i: int| 0 <= i < n ==> ends[i] <= deadline,
    ensures
        count_leq_upto(ends, n, deadline) == n,
    decreases n,
{
    if n > 0 {
        lemma_count_all(ends, n - 1, deadline);
    }
}

proof fn lemma_dur_prefix_drop(s: Seq<(TimeSlot, u16)>, n: int)
    requires
        0 <= n < s.len(),
    ensures
        dur_prefix(s, n) == dur_prefix(s.drop_last(), n),
    decreases n,
{
    if n > 0 {
        lemma_dur_prefix_drop(s, n - 1);
    }
}

/// Number of entries of a sorted run of end slots lying at or before the
/// deadline, found by binary partition.
pub fn count_ends_leq(sorted_ends: &[TimeSlot], deadline: TimeSlot) -> (r: u32)
    requires
        forall|i: int, j: int|
            0 <= i < j < sorted_ends@.len() ==> sorted_ends@[i] <= sorted_ends@[j],
        sorted_ends@.len() <= u32::MAX,
    ensures
        r == count_leq_upto(sorted_ends@, sorted_ends@.len() as int, deadline as int),
        r <= sorted_ends@.len(),
{
    let mut lo: usize = 0;
    let mut hi: usize = sorted_ends.len();
    while lo < hi
        invariant
            lo <= hi <= sorted_ends@.len(),
            forall|i: int, j: int|
                0 <= i < j < sorted_ends@.len() ==> sorted_ends@[i] <= sorted_ends@[j],
            forall|i: int| 0 <= i < lo ==> sorted_ends@[i] <= deadline,
            forall|i: int| hi <= i < sorted_ends@.len() ==> sorted_ends@[i] > deadline,
        decreases hi - lo,
    {
        let mid = lo + (hi - lo) / 2;
        if sorted_ends[mid] <= deadline {
            proof {
                assert forall|i: int| 0 <= i < mid + 1 implies sorted_ends@[i] <= deadline by {
                    if i < mid {
                        assert(sorted_ends@[i] <= sorted_ends@[mid as int]);
                    }
                }
            }
            lo = mid + 1;
        } else {
            proof {
                assert forall|i: int| mid <= i < sorted_ends@.len() implies sorted_ends@[i]
                    > deadline by {
                    if i > mid {
                        assert(sorted_ends@[mid as int] <= sorted_ends@[i]);
                    }
                }
            }
            hi = mid;
        }
    }
    proof {
        lemma_count_split(sorted_ends@, sorted_ends@.len() as int, lo as int, deadline as int);
    }
    lo as u32
}

impl DurationPrefixIndex {
    /// The index is coherent: ends ascend and each prefix entry is the
    /// running duration total up to that position.
    pub open spec fn wf(self) -> bool {
        &&& self.prefix_sum@.len() == self.ends@.len()
        &&& forall|i: int, j: int| 0 <= i < j < self.ends@.len() ==> self.ends@[i] <= self.ends@[j]
    }

    /// What `sum_leq` answers, as a function of the stored columns.
    pub open spec fn sum_leq_spec(self, deadline: int) -> int {
        let cnt = count_leq_upto(self.ends@, self.ends@.len() as int, deadline);
        if cnt == 0 {
            0
        } else {
            self.prefix_sum@[cnt - 1] as int
        }
    }

    /// Build the index from `(end_slot, duration)` events: sort by end
    /// slot and accumulate a running duration total. Afterwards
    /// `sum_leq(d)` answers the total duration of the given events ending
    /// at or before `d`.
    pub fn from_events(events: Vec<(TimeSlot, u16)>) -> (r: DurationPrefixIndex)
        requires
            events@.len() <= 0x10000,
        ensures
            r.wf(),
            forall|deadline: int| r.sum_leq_spec(deadline) == dur_sum_leq(events@, deadline),
    {
        let mut sorted: Vec<(TimeSlot, u16)> = Vec::new();
        let mut i: usize = 0;
        while i < events.len()
            invariant
                i <= events@.len(),
                sorted@ == sort_by_end(events@.take(i as int)),
            decreases events@.len() - i,
        {
            insert_sorted_pair(&mut sorted, events[i]);
            proof {
                assert(events@.take(i + 1).drop_last() =~= events@.take(i as int));
                assert(events@.take(i + 1).last() == events@[i as int]);
            }
            i += 1;
        }
        proof {
            assert(events@.take(events@.len() as int) =~= events@);
        }
        let ghost sorted_seq = sorted@;
        let mut ends: Vec<TimeSlot> = Vec::new();
        let mut prefix_sum: Vec<u32> = Vec::new();
        let mut running_total: u32 = 0;
        let mut j: usize = 0;
        proof {
            lemma_sort_by_end_props(events@, 0);
            lemma_dur_prefix_bound(sorted_seq, sorted_seq.len() as int);
        }
        while j < sorted.len()
            invariant
                j <= sorted@.len(),
                sorted@ == sorted_seq,
                sorted_seq.len() <= 0x10000,
                ends@.len() == j,
                prefix_sum@.len() == j,
                running_total == dur_prefix(sorted_seq, j as int),
                forall|q: int| 0 <= q < j ==> ends@[q] == sorted_seq[q].0,
                forall|q: int| 0 <= q < j ==> prefix_sum@[q] == dur_prefix(sorted_seq, q + 1),
            decreases sorted@.len() - j,
        {
            proof {
                lemma_dur_prefix_bound(sorted_seq, j + 1);
                lemma_dur_prefix_nonneg(sorted_seq, j as int);
            }
            let (end, duration) = sorted[j];
            ends.push(end);
            running_total = running_total + duration as u32;
            prefix_sum.push(running_total);
            j += 1;
        }
        let r = DurationPrefixIndex { ends, prefix_sum };
        proof {
            assert(r.ends@ =~= sorted_seq.map_values(|p: (TimeSlot, u16)| p.0));
            assert forall|deadline: int| r.sum_leq_spec(deadline) == dur_sum_leq(
                events@,
                deadline,
            ) by {
                lemma_sort_by_end_props(events@, deadline);
                lemma_sorted_sum_is_prefix(sorted_seq, deadline);
                lemma_count_nonneg(r.ends@, r.ends@.len() as int, deadline);
            }
        }
        r
    }

    /// Total duration of the indexed events ending at or before the
    /// deadline, via binary partition over the sorted end column.
    pub fn sum_leq(&self, deadline: TimeSlot) -> (r: u32)
        requires
            self.wf(),
            self.ends@.len() <= u32::MAX,
        ensures
            r == self.sum_leq_spec(deadline as int),
    {
        let idx = count_ends_leq(self.ends.as_slice(), deadline);
        if idx == 0 {
            0
        } else {
            self.prefix_sum[(idx - 1) as usize]
        }
    }
}

proof fn lemma_dur_prefix_nonneg(s: Seq<(TimeSlot, u16)>, n: int)
    ensures
        dur_prefix(s, n) >= 0,
    decreases n,
{
    if n > 0 {
        lemma_dur_prefix_nonneg(s, n - 1);
    }
}

proof fn lemma_dur_prefix_bound(s: Seq<(TimeSlot, u16)>, n: int)
    requires
        0 <= n <= s.len(),
        s.len() <= 0x10000,
    ensures
        dur_prefix(s, n) <= n * 0xFFFF,
    decreases n,
{
    if n > 0 {
        lemma_dur_prefix_bound(s, n - 1);
    }
}

fn insert_sorted_pair(v: &mut Vec<(TimeSlot, u16)>, e: (TimeSlot, u16))
    ensures
        final(v)@ == insert_by_end(old(v)@, e),
{
    let mut pos = v.len();
    while pos > 0 && v[pos - 1].0 > e.0
        invariant
            pos <= v@.len(),
            forall|j: int| pos <= j < v@.len() ==> v@[j].0 > e.0,
        decreases pos,
    {
        pos -= 1;
    }
    proof {
        lemma_pair_insert_shape(v@, e, pos as int);
    }
    v.insert(pos, e);
}

proof fn lemma_pair_insert_shape(s: Seq<(TimeSlot, u16)>, e: (TimeSlot, u16), pos: int)
    requires
        0 <= pos <= s.len(),
        forall|j: int| pos <= j < s.len() ==> s[j].0 > e.0,
        pos > 0 ==> s[pos - 1].0 <= e.0,
    ensures
        insert_by_end(s, e) == s.insert(pos, e),
    decreases s.len(),
{
    if s.len() == 0 {
        assert(insert_by_end(s, e) =~= s.insert(0, e));
    } else if e.0 < s.last().0 {
        assert(pos < s.len());
        lemma_pair_insert_shape(s.drop_last(), e, pos);
        assert(insert_by_end(s, e) =~= s.insert(pos, e));
    } else {
        assert(pos == s.len());
        assert(insert_by_end(s, e) =~= s.insert(pos, e));
    }
}

} // verus!
