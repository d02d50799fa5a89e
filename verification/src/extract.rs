use crate::events::{allele_emits, genes_read};
use crate::types::{ActivityId, Problem, TimeSlot};
use vstd::prelude::*;

verus! {

/// The `(activity_id, start_slot)` pairs decoded from the first `n` genes
/// of a chromosome: one pair per non-sentinel allele within the floating
/// table, in gene order. Fixed activities are not emitted.
pub open spec fn decoded_pairs(p: Problem, slots: Seq<TimeSlot>, genes: Seq<u16>, n: int) -> Seq<
    (ActivityId, TimeSlot),
>
    decreases n,
{
    if n <= 0 {
        Seq::empty()
    } else {
        let pre = decoded_pairs(p, slots, genes, n - 1);
        if allele_emits(p, genes[n - 1]) {
            pre.push(
                (
                    p.activities@[p.floating_indices@[genes[n - 1] as int] as int].id,
                    slots[n - 1],
                ),
            )
        } else {
            pre
        }
    }
}

/// The full decoded schedule of a chromosome.
pub open spec fn extract_spec(p: Problem, slots: Seq<TimeSlot>, genes: Seq<u16>) -> Seq<
    (ActivityId, TimeSlot),
> {
    decoded_pairs(p, slots, genes, genes_read(slots, genes))
}

/// A strictly ascending candidate-slot list (as the preprocessor builds).
pub open spec fn slots_strictly_increasing(slots: Seq<TimeSlot>) -> bool {
    forall|i: int, j: int| 0 <= i < j < slots.len() ==> slots[i] < slots[j]
}

proof fn lemma_decoded_pairs_sorted(p: Problem, slots: Seq<TimeSlot>, genes: Seq<u16>, n: int)
    requires
        slots_strictly_increasing(slots),
        0 <= n <= genes.len(),
        n <= slots.len(),
    ensures
        forall|i: int, j: int|
            0 <= i < j < decoded_pairs(p, slots, genes, n).len() ==> decoded_pairs(
                p,
                slots,
                genes,
                n,
            )[i].1 <= decoded_pairs(p, slots, genes, n)[j].1,
        n > 0 ==> forall|i: int|
            0 <= i < decoded_pairs(p, slots, genes, n).len() ==> (#[trigger] decoded_pairs(
                p,
                slots,
                genes,
                n,
            )[i]).1 <= slots[n - 1],
    decreases n,
{
    if n > 0 {
        lemma_decoded_pairs_sorted(p, slots, genes, n - 1);
        let pre = decoded_pairs(p, slots, genes, n - 1);
        let cur = decoded_pairs(p, slots, genes, n);
        if n >= 2 {
            assert(slots[n - 2] < slots[n - 1]);
        }
        if allele_emits(p, genes[n - 1]) {
            assert(cur == pre.push(
                (p.activities@[p.floating_indices@[genes[n - 1] as int] as int].id, slots[n - 1]),
            ));
        }
    }
}

/// Decode the best chromosome into its output schedule: for each gene
/// with a non-sentinel allele within the floating table, emit the
/// template's activity id at that gene's candidate slot. The output is
/// ordered by start slot because the candidate list ascends.
pub fn extract_schedule(problem: &Problem, slots: &Vec<TimeSlot>, genes: &Vec<u16>) -> (r: Vec<
    (ActivityId, TimeSlot),
>)
    requires
        problem.wf(),
        slots_strictly_increasing(slots@),
    ensures
        r@ == extract_spec(*problem, slots@, genes@),
        forall|i: int, j: int| 0 <= i < j < r@.len() ==> r@[i].1 <= r@[j].1,
{
    let floating_count = problem.floating_indices.len();
    let sentinel: u16 = if floating_count <= u16::MAX as usize {
        floating_count as u16
    } else {
        u16::MAX
    };
    let read_len = if genes.len() <= slots.len() {
        genes.len()
    } else {
        slots.len()
    };
    let mut result: Vec<(ActivityId, TimeSlot)> = Vec::new();
    let mut g: usize = 0;
    while g < read_len
        invariant
            problem.wf(),
            floating_count == problem.floating_indices@.len(),
            sentinel == problem.sentinel_allele(),
            read_len == genes_read(slots@, genes@),
            g <= read_len,
            read_len <= genes@.len(),
            read_len <= slots@.len(),
            result@ == decoded_pairs(*problem, slots@, genes@, g as int),
        decreases read_len - g,
    {
        let allele = genes[g];
        if allele != sentinel && (allele as usize) < floating_count {
            let act_idx = problem.floating_indices[allele as usize];
            let activity_id = problem.activities[act_idx].id;
            result.push((activity_id, slots[g]));
        }
        g += 1;
    }
    proof {
        lemma_decoded_pairs_sorted(*problem, slots@, genes@, read_len as int);
    }
    result
}

/// How many decoded pairs start at slot `t`.
pub open spec fn pairs_at_slot(pairs: Seq<(ActivityId, TimeSlot)>, t: TimeSlot) -> int
    decreases pairs.len(),
{
    if pairs.len() == 0 {
        0
    } else {
        pairs_at_slot(pairs.drop_last(), t) + if pairs.last().1 == t {
            1int
        } else {
            0int
        }
    }
}

proof fn lemma_pairs_at_slot_push(pairs: Seq<(ActivityId, TimeSlot)>, pr: (ActivityId, TimeSlot), t: TimeSlot)
    ensures
        pairs_at_slot(pairs.push(pr), t) == pairs_at_slot(pairs, t) + if pr.1 == t {
            1int
        } else {
            0int
        },
{
    assert(pairs.push(pr).drop_last() =~= pairs);
    assert(pairs.push(pr).last() == pr);
}

proof fn lemma_nonsentinel_emits_upto(
    p: Problem,
    slots: Seq<TimeSlot>,
    genes: Seq<u16>,
    g: int,
    n: int,
)
    requires
        slots_strictly_increasing(slots),
        0 <= g < n,
        n <= genes.len(),
        n <= slots.len(),
        allele_emits(p, genes[g]),
    ensures
        pairs_at_slot(decoded_pairs(p, slots, genes, n), slots[g]) == 1,
        forall|i: int|
            0 <= i < decoded_pairs(p, slots, genes, n).len() && (#[trigger] decoded_pairs(
                p,
                slots,
                genes,
                n,
            )[i]).1 == slots[g] ==> decoded_pairs(p, slots, genes, n)[i] == (
            p.activities@[p.floating_indices@[genes[g] as int] as int].id,
            slots[g],
        ),
    decreases n,
{
    let pre = decoded_pairs(p, slots, genes, n - 1);
    let cur = decoded_pairs(p, slots, genes, n);
    if g == n - 1 {
        lemma_decoded_pairs_sorted(p, slots, genes, n - 1);
        assert(cur == pre.push(
            (p.activities@[p.floating_indices@[genes[g] as int] as int].id, slots[g]),
        ));
        lemma_pairs_at_slot_push(
            pre,
            (p.activities@[p.floating_indices@[genes[g] as int] as int].id, slots[g]),
            slots[g],
        );
        lemma_no_pair_at_unvisited(p, slots, genes, n - 1, g);
    } else {
        lemma_nonsentinel_emits_upto(p, slots, genes, g, n - 1);
        if allele_emits(p, genes[n - 1]) {
            let pr = (p.activities@[p.floating_indices@[genes[n - 1] as int] as int].id, slots[n
                - 1]);
            assert(cur == pre.push(pr));
            lemma_pairs_at_slot_push(pre, pr, slots[g]);
            assert(slots[g] < slots[n - 1]);
        }
    }
}

/// No decoded pair among the first `n` genes starts at the slot of a gene
/// at or past `n`.
proof fn lemma_no_pair_at_unvisited(
    p: Problem,
    slots: Seq<TimeSlot>,
    genes: Seq<u16>,
    n: int,
    g: int,
)
    requires
        slots_strictly_increasing(slots),
        0 <= n <= g,
        g < slots.len(),
        n <= genes.len(),
    ensures
        pairs_at_slot(decoded_pairs(p, slots, genes, n), slots[g]) == 0,
    decreases n,
{
    if n > 0 {
        lemma_no_pair_at_unvisited(p, slots, genes, n - 1, g);
        let pre = decoded_pairs(p, slots, genes, n - 1);
        if allele_emits(p, genes[n - 1]) {
            let pr = (p.activities@[p.floating_indices@[genes[n - 1] as int] as int].id, slots[n
                - 1]);
            lemma_pairs_at_slot_push(pre, pr, slots[g]);
            assert(slots[n - 1] < slots[g]);
        }
    }
}

/// Non-sentinel alleles produce events: a gene whose allele selects a
/// floating template yields exactly one output pair, carrying that
/// template's activity id at that gene's candidate slot.
pub proof fn lemma_nonsentinel_allele_emits(
    p: Problem,
    slots: Seq<TimeSlot>,
    genes: Seq<u16>,
    g: int,
)
    requires
        slots_strictly_increasing(slots),
        0 <= g < genes_read(slots, genes),
        allele_emits(p, genes[g]),
    ensures
        pairs_at_slot(extract_spec(p, slots, genes), slots[g]) == 1,
        forall|i: int|
            0 <= i < extract_spec(p, slots, genes).len() && (#[trigger] extract_spec(
                p,
                slots,
                genes,
            )[i]).1 == slots[g] ==> extract_spec(p, slots, genes)[i] == (
            p.activities@[p.floating_indices@[genes[g] as int] as int].id,
            slots[g],
        ),
{
    lemma_nonsentinel_emits_upto(p, slots, genes, g, genes_read(slots, genes));
}

/// Sentinel alleles produce no events: a chromosome of sentinels (or of
/// alleles outside the floating table) decodes to an empty schedule.
pub proof fn lemma_sentinel_alleles_silent(p: Problem, slots: Seq<TimeSlot>, genes: Seq<u16>)
    requires
        forall|g: int| 0 <= g < genes_read(slots, genes) ==> !allele_emits(p, genes[g]),
    ensures
        extract_spec(p, slots, genes).len() == 0,
{
    lemma_sentinel_upto(p, slots, genes, genes_read(slots, genes));
}

proof fn lemma_sentinel_upto(p: Problem, slots: Seq<TimeSlot>, genes: Seq<u16>, n: int)
    requires
        forall|g: int| 0 <= g < n ==> !allele_emits(p, genes[g]),
    ensures
        decoded_pairs(p, slots, genes, n).len() == 0,
    decreases n,
{
    if n > 0 {
        lemma_sentinel_upto(p, slots, genes, n - 1);
    }
}

} // verus!
