use crate::types::{Problem, SLOTS_PER_DAY, SLOTS_PER_WEEK, TimeSlot};
use vstd::prelude::*;

verus! {

/// One occurrence placed on the timeline: the activity at index `act_idx`
/// of the problem's activity table, starting at slot `start`.
#[derive(Clone, Copy, PartialEq, Eq, Structural, Debug)]
pub struct ScheduledItem {
    pub act_idx: usize,
    pub start: TimeSlot,
}

/// Every item points at a real activity of the problem.
pub open spec fn events_wf(p: Problem, es: Seq<ScheduledItem>) -> bool {
    forall|j: int| 0 <= j < es.len() ==> (#[trigger] es[j]).act_idx < p.activities@.len()
}

pub open spec fn ev_id(p: Problem, e: ScheduledItem) -> int {
    p.activities@[e.act_idx as int].id as int
}

pub open spec fn ev_cat(p: Problem, e: ScheduledItem) -> int {
    p.activities@[e.act_idx as int].category_id as int
}

pub open spec fn ev_dur(p: Problem, e: ScheduledItem) -> int {
    p.activities@[e.act_idx as int].duration_slots as int
}

pub open spec fn ev_end(p: Problem, e: ScheduledItem) -> int {
    e.start + ev_dur(p, e)
}

/// End slot clamped to the horizon, as used by every deadline query.
pub open spec fn ev_capped_end(p: Problem, e: ScheduledItem) -> int {
    if ev_end(p, e) <= p.total_slots {
        ev_end(p, e)
    } else {
        p.total_slots as int
    }
}

pub open spec fn ev_day(e: ScheduledItem) -> int {
    e.start as int / SLOTS_PER_DAY as int
}

pub open spec fn ev_week(e: ScheduledItem) -> int {
    e.start as int / SLOTS_PER_WEEK as int
}

/// Weekday index, slot 0 being a Monday (0 = Monday .. 6 = Sunday).
pub open spec fn ev_weekday(e: ScheduledItem) -> int {
    ev_day(e) % 7
}

/// Does this allele place an event? The sentinel places none, and an
/// allele beyond the floating table is ignored.
pub open spec fn allele_emits(p: Problem, allele: u16) -> bool {
    allele != p.sentinel_allele() && (allele as int) < p.floating_indices@.len()
}

/// The items placed by the first `n` genes, in gene order.
pub open spec fn gene_events(p: Problem, slots: Seq<TimeSlot>, genes: Seq<u16>, n: int) -> Seq<
    ScheduledItem,
>
    decreases n,
{
    if n <= 0 {
        Seq::empty()
    } else {
        let pre = gene_events(p, slots, genes, n - 1);
        if allele_emits(p, genes[n - 1]) {
            pre.push(
                ScheduledItem {
                    act_idx: p.floating_indices@[genes[n - 1] as int],
                    start: slots[n - 1],
                },
            )
        } else {
            pre
        }
    }
}

/// The items contributed by the first `n` fixed indices, in table order.
/// A fixed activity without an assigned start contributes nothing.
pub open spec fn fixed_events(p: Problem, n: int) -> Seq<ScheduledItem>
    decreases n,
{
    if n <= 0 {
        Seq::empty()
    } else {
        let pre = fixed_events(p, n - 1);
        let idx = p.fixed_indices@[n - 1];
        match p.activities@[idx as int].assigned_start {
            Some(s) => pre.push(ScheduledItem { act_idx: idx, start: s }),
            None => pre,
        }
    }
}

/// Number of genes the evaluator reads: alleles beyond the candidate-slot
/// list are ignored.
pub open spec fn genes_read(slots: Seq<TimeSlot>, genes: Seq<u16>) -> int {
    if genes.len() <= slots.len() {
        genes.len() as int
    } else {
        slots.len() as int
    }
}

/// The full registration sequence: chromosome items in gene order, then
/// all fixed items in table order.
pub open spec fn all_events(p: Problem, slots: Seq<TimeSlot>, genes: Seq<u16>) -> Seq<
    ScheduledItem,
> {
    gene_events(p, slots, genes, genes_read(slots, genes)) + fixed_events(
        p,
        p.fixed_indices@.len() as int,
    )
}

/// How many of the first `n` genes carry the no-activity sentinel.
pub open spec fn sentinel_count(p: Problem, genes: Seq<u16>, n: int) -> int
    decreases n,
{
    if n <= 0 {
        0
    } else {
        sentinel_count(p, genes, n - 1) + if genes[n - 1] == p.sentinel_allele() {
            1int
        } else {
            0int
        }
    }
}

proof fn lemma_gene_events_wf(p: Problem, slots: Seq<TimeSlot>, genes: Seq<u16>, n: int)
    requires
        p.wf(),
        0 <= n <= genes.len(),
        n <= slots.len(),
    ensures
        events_wf(p, gene_events(p, slots, genes, n)),
        gene_events(p, slots, genes, n).len() <= n,
    decreases n,
{
    if n > 0 {
        lemma_gene_events_wf(p, slots, genes, n - 1);
        let pre = gene_events(p, slots, genes, n - 1);
        if allele_emits(p, genes[n - 1]) {
            let e = ScheduledItem {
                act_idx: p.floating_indices@[genes[n - 1] as int],
                start: slots[n - 1],
            };
            assert(e.act_idx < p.activities@.len());
            assert(gene_events(p, slots, genes, n) == pre.push(e));
            assert forall|j: int| 0 <= j < pre.push(e).len() implies (#[trigger] pre.push(e)[
                j]).act_idx < p.activities@.len() by {
                if j < pre.len() {
                    assert(pre.push(e)[j] == pre[j]);
                } else {
                    assert(pre.push(e)[j] == e);
                }
            }
        }
    }
}

proof fn lemma_fixed_events_wf(p: Problem, n: int)
    requires
        p.wf(),
        0 <= n <= p.fixed_indices@.len(),
    ensures
        events_wf(p, fixed_events(p, n)),
        fixed_events(p, n).len() <= n,
    decreases n,
{
    if n > 0 {
        lemma_fixed_events_wf(p, n - 1);
        let pre = fixed_events(p, n - 1);
        let idx = p.fixed_indices@[n - 1];
        assert(idx < p.activities@.len());
        match p.activities@[idx as int].assigned_start {
            Some(s) => {
                let e = ScheduledItem { act_idx: idx, start: s };
                assert(fixed_events(p, n) == pre.push(e));
                assert forall|j: int| 0 <= j < pre.push(e).len() implies (#[trigger] pre.push(e)[
                    j]).act_idx < p.activities@.len() by {
                    if j < pre.len() {
                        assert(pre.push(e)[j] == pre[j]);
                    } else {
                        assert(pre.push(e)[j] == e);
                    }
                }
            },
            None => {},
        }
    }
}

/// The registration sequence of a well-formed problem is well-formed and
/// no longer than the gene count plus the fixed count.
pub proof fn lemma_all_events_wf(p: Problem, slots: Seq<TimeSlot>, genes: Seq<u16>)
    requires
        p.wf(),
    ensures
        events_wf(p, all_events(p, slots, genes)),
        all_events(p, slots, genes).len() <= slots.len() + p.fixed_indices@.len(),
{
    lemma_gene_events_wf(p, slots, genes, genes_read(slots, genes));
    lemma_fixed_events_wf(p, p.fixed_indices@.len() as int);
}

/// Decode a chromosome: place an item for every non-sentinel allele within
/// the floating table, then append every fixed activity that has an
/// assigned start. Also reports how many genes carried the sentinel.
pub fn decode_events(problem: &Problem, slots: &Vec<TimeSlot>, genes: &Vec<u16>) -> (r: (
    Vec<ScheduledItem>,
    usize,
))
    requires
        problem.wf(),
    ensures
        r.0@ == all_events(*problem, slots@, genes@),
        r.1 == sentinel_count(*problem, genes@, genes_read(slots@, genes@)),
        events_wf(*problem, r.0@),
{
    let floating_count = problem.floating_indices.len();
    let sentinel: u16 = if floating_count <= u16::MAX as usize {
        floating_count as u16
    } else {
        u16::MAX
    };
    let read_len = if genes.len() <= slots.len() {
        genes.len()
    } else {
        slots.len()
    };
    let mut items: Vec<ScheduledItem> = Vec::new();
    let mut sentinels: usize = 0;
    let mut g: usize = 0;
    while g < read_len
        invariant
            problem.wf(),
            floating_count == problem.floating_indices@.len(),
            sentinel == problem.sentinel_allele(),
            read_len == genes_read(slots@, genes@),
            g <= read_len,
            read_len <= genes@.len(),
            read_len <= slots@.len(),
            items@ == gene_events(*problem, slots@, genes@, g as int),
            sentinels == sentinel_count(*problem, genes@, g as int),
            sentinels <= g,
        decreases read_len - g,
    {
        let allele = genes[g];
        if allele == sentinel {
            sentinels += 1;
        } else if (allele as usize) < floating_count {
            let act_idx = problem.floating_indices[allele as usize];
            items.push(ScheduledItem { act_idx, start: slots[g] });
        }
        g += 1;
    }
    let mut f: usize = 0;
    let ghost chromosome_items = items@;
    while f < problem.fixed_indices.len()
        invariant
            problem.wf(),
            f <= problem.fixed_indices@.len(),
            items@ == chromosome_items + fixed_events(*problem, f as int),
        decreases problem.fixed_indices@.len() - f,
    {
        let act_idx = problem.fixed_indices[f];
        if let Some(start) = problem.activities[act_idx].assigned_start {
            items.push(ScheduledItem { act_idx, start });
        }
        f += 1;
    }
    proof {
        lemma_all_events_wf(*problem, slots@, genes@);
    }
    (items, sentinels)
}

/// Stable insertion of `e` into a run sorted by `start`: `e` goes before
/// every strictly later item and after every item at most as late.
pub open spec fn insert_by_start(s: Seq<ScheduledItem>, e: ScheduledItem) -> Seq<ScheduledItem>
    decreases s.len(),
{
    if s.len() == 0 {
        seq![e]
    } else if e.start < s.last().start {
        insert_by_start(s.drop_last(), e).push(s.last())
    } else {
        s.push(e)
    }
}

/// Stable sort by `start`, defined by repeated insertion.
pub open spec fn sort_by_start(s: Seq<ScheduledItem>) -> Seq<ScheduledItem>
    decreases s.len(),
{
    if s.len() == 0 {
        s
    } else {
        insert_by_start(sort_by_start(s.drop_last()), s.last())
    }
}

proof fn lemma_insert_shape(s: Seq<ScheduledItem>, e: ScheduledItem, pos: int)
    requires
        0 <= pos <= s.len(),
        forall|j: int| pos <= j < s.len() ==> s[j].start > e.start,
        pos > 0 ==> s[pos - 1].start <= e.start,
    ensures
        insert_by_start(s, e) == s.insert(pos, e),
    decreases s.len(),
{
    if s.len() == 0 {
        assert(insert_by_start(s, e) =~= s.insert(0, e));
    } else if e.start < s.last().start {
        assert(pos < s.len());
        lemma_insert_shape(s.drop_last(), e, pos);
        assert(insert_by_start(s, e) =~= s.insert(pos, e));
    } else {
        assert(pos == s.len());
        assert(insert_by_start(s, e) =~= s.insert(pos, e));
    }
}

fn insert_sorted(v: &mut Vec<ScheduledItem>, e: ScheduledItem)
    ensures
        final(v)@ == insert_by_start(old(v)@, e),
{
    let mut pos = v.len();
    while pos > 0 && v[pos - 1].start > e.start
        invariant
            pos <= v@.len(),
            forall|j: int| pos <= j < v@.len() ==> v@[j].start > e.start,
        decreases pos,
    {
        pos -= 1;
    }
    proof {
        lemma_insert_shape(v@, e, pos as int);
    }
    v.insert(pos, e);
}

/// Order the registration sequence by start slot (stable).
pub fn sort_events(v: &mut Vec<ScheduledItem>)
    ensures
        final(v)@ == sort_by_start(old(v)@),
        sorted_by_start(final(v)@),
{
    proof {
        lemma_sort_by_start_sorted(v@);
    }
    let mut sorted: Vec<ScheduledItem> = Vec::new();
    let mut i: usize = 0;
    while i < v.len()
        invariant
            i <= v@.len(),
            v@ == old(v)@,
            sorted@ == sort_by_start(v@.take(i as int)),
        decreases v@.len() - i,
    {
        insert_sorted(&mut sorted, v[i]);
        proof {
            assert(v@.take(i + 1).drop_last() =~= v@.take(i as int));
            assert(v@.take(i + 1).last() == v@[i as int]);
        }
        i += 1;
    }
    proof {
        assert(v@.take(v@.len() as int) =~= v@);
    }
    *v = sorted;
}

/// The sweep order really is by start slot: stable insertion keeps a run
/// sorted.
pub open spec fn sorted_by_start(s: Seq<ScheduledItem>) -> bool {
    forall|i: int, j: int| 0 <= i < j < s.len() ==> s[i].start <= s[j].start
}

proof fn lemma_insert_member(s: Seq<ScheduledItem>, e: ScheduledItem, i: int)
    requires
        0 <= i < insert_by_start(s, e).len(),
    ensures
        insert_by_start(s, e)[i] == e || exists|j: int|
            0 <= j < s.len() && s[j] == insert_by_start(s, e)[i],
    decreases s.len(),
{
    if s.len() == 0 {
    } else if e.start < s.last().start {
        let inner = insert_by_start(s.drop_last(), e);
        if i < inner.len() {
            lemma_insert_member(s.drop_last(), e, i);
            if inner[i] != e {
                let j = choose|j: int|
                    0 <= j < s.drop_last().len() && s.drop_last()[j] == inner[i];
                assert(s[j] == inner[i]);
            }
        } else {
            assert(insert_by_start(s, e)[i] == s.last());
            assert(s[s.len() - 1] == s.last());
        }
    } else {
        if i >= s.len() {
            assert(insert_by_start(s, e)[i] == e);
        }
    }
}

proof fn lemma_insert_keeps_sorted(s: Seq<ScheduledItem>, e: ScheduledItem)
    requires
        sorted_by_start(s),
    ensures
        sorted_by_start(insert_by_start(s, e)),
    decreases s.len(),
{
    if s.len() == 0 {
    } else if e.start < s.last().start {
        assert(sorted_by_start(s.drop_last()));
        lemma_insert_keeps_sorted(s.drop_last(), e);
        let inner = insert_by_start(s.drop_last(), e);
        let cur = insert_by_start(s, e);
        assert(cur == inner.push(s.last()));
        assert forall|i: int, j: int| 0 <= i < j < cur.len() implies cur[i].start
            <= cur[j].start by {
            if j < inner.len() {
            } else {
                if i < inner.len() {
                    assert(cur[j] == s.last());
                    if inner[i] == e {
                    } else {
                        lemma_insert_member(s.drop_last(), e, i);
                    }
                }
            }
        }
    } else {
        let cur = s.push(e);
        assert forall|i: int, j: int| 0 <= i < j < cur.len() implies cur[i].start
            <= cur[j].start by {
            if j == s.len() && i < s.len() {
                if s.len() >= 1 && i < s.len() - 1 {
                    assert(s[i].start <= s[s.len() - 1].start);
                }
                assert(s.last().start <= e.start);
            }
        }
    }
}

/// The sequential sweep runs over a start-ordered schedule, so within one
/// day or week bucket the already-run counts grow item by item exactly as
/// counters reset at bucket boundaries would.
pub proof fn lemma_sort_by_start_sorted(s: Seq<ScheduledItem>)
    ensures
        sorted_by_start(sort_by_start(s)),
    decreases s.len(),
{
    if s.len() > 0 {
        lemma_sort_by_start_sorted(s.drop_last());
        lemma_insert_keeps_sorted(sort_by_start(s.drop_last()), s.last());
    }
}

/// Sorting preserves membership of the problem's activity table.
pub proof fn lemma_insert_wf(p: Problem, s: Seq<ScheduledItem>, e: ScheduledItem)
    requires
        events_wf(p, s),
        e.act_idx < p.activities@.len(),
    ensures
        events_wf(p, insert_by_start(s, e)),
        insert_by_start(s, e).len() == s.len() + 1,
    decreases s.len(),
{
    if s.len() == 0 {
    } else if e.start < s.last().start {
        assert(events_wf(p, s.drop_last()));
        lemma_insert_wf(p, s.drop_last(), e);
    }
}

pub proof fn lemma_sort_wf(p: Problem, s: Seq<ScheduledItem>)
    requires
        events_wf(p, s),
    ensures
        events_wf(p, sort_by_start(s)),
        sort_by_start(s).len() == s.len(),
    decreases s.len(),
{
    if s.len() > 0 {
        assert(events_wf(p, s.drop_last()));
        lemma_sort_wf(p, s.drop_last());
        lemma_insert_wf(p, sort_by_start(s.drop_last()), s.last());
    }
}

} // verus!
