use crate::types::{GlobalConstraint, Problem, TimeSlot};
use vstd::prelude::*;

verus! {

/// Does the forbidden-zone constraint `gc` cover slot `t`?
/// Intervals are half-open; an empty interval covers nothing.
pub open spec fn in_zone(gc: GlobalConstraint, t: int) -> bool {
    match gc {
        GlobalConstraint::ForbiddenZone { start, end } => start <= t < end,
        GlobalConstraint::CumulativeTime { .. } => false,
    }
}

/// Slot `t` lies inside some forbidden zone of the problem.
pub open spec fn slot_forbidden(p: Problem, t: int) -> bool {
    exists|i: int|
        0 <= i < p.global_constraints@.len() && in_zone(#[trigger] p.global_constraints@[i], t)
}

/// The fixed activity selected by `p.fixed_indices[i]` covers slot `t`
/// (only meaningful for `t < p.total_slots`; spans are clamped there).
pub open spec fn occupied_by_fixed(p: Problem, i: int, t: int) -> bool {
    let idx = p.fixed_indices@[i] as int;
    &&& idx < p.activities@.len()
    &&& match p.activities@[idx].assigned_start {
        Some(s) => s < p.total_slots && s <= t < s + p.activities@[idx].duration_slots,
        None => false,
    }
}

/// Slot `t` is covered by some fixed activity's span.
pub open spec fn slot_fixed_occupied(p: Problem, t: int) -> bool {
    exists|i: int| 0 <= i < p.fixed_indices@.len() && #[trigger] occupied_by_fixed(p, i, t)
}

/// A legal start slot: inside the horizon, in no forbidden zone, and not
/// occupied by a fixed activity.
pub open spec fn slot_open(p: Problem, t: int) -> bool {
    &&& 0 <= t < p.total_slots
    &&& !slot_forbidden(p, t)
    &&& !slot_fixed_occupied(p, t)
}

/// The open slots below `n`, ascending.
pub open spec fn candidates_upto(p: Problem, n: int) -> Seq<TimeSlot>
    decreases n,
{
    if n <= 0 {
        Seq::empty()
    } else if slot_open(p, n - 1) {
        candidates_upto(p, n - 1).push((n - 1) as TimeSlot)
    } else {
        candidates_upto(p, n - 1)
    }
}

/// The ordered list of legal start slots of the problem.
pub open spec fn candidate_slots_spec(p: Problem) -> Seq<TimeSlot> {
    candidates_upto(p, p.total_slots as int)
}

fn build_forbidden_slot_mask(problem: &Problem) -> (mask: Vec<bool>)
    ensures
        mask@.len() == problem.total_slots,
        forall|t: int| 0 <= t < mask@.len() ==> mask@[t] == slot_forbidden(*problem, t),
{
    let total_slots = problem.total_slots as usize;
    let mut mask: Vec<bool> = vec![false; total_slots];
    let mut k: usize = 0;
    while k < problem.global_constraints.len()
        invariant
            mask@.len() == total_slots,
            total_slots == problem.total_slots,
            k <= problem.global_constraints@.len(),
            forall|t: int|
                0 <= t < mask@.len() ==> mask@[t] == exists|i: int|
                    0 <= i < k && in_zone(#[trigger] problem.global_constraints@[i], t),
        decreases problem.global_constraints@.len() - k,
    {
        match problem.global_constraints[k] {
            GlobalConstraint::ForbiddenZone { start, end } => {
                let start_idx = if (start as usize) < total_slots {
                    start as usize
                } else {
                    total_slots
                };
                let end_idx = if (end as usize) < total_slots {
                    end as usize
                } else {
                    total_slots
                };
                let mut j = start_idx;
                while j < end_idx
                    invariant
                        mask@.len() == total_slots,
                        total_slots == problem.total_slots,
                        k < problem.global_constraints@.len(),
                        start_idx <= j,
                        end_idx <= total_slots,
                        problem.global_constraints@[k as int] == (GlobalConstraint::ForbiddenZone {
                            start,
                            end,
                        }),
                        start_idx == if start < problem.total_slots {
                            start as int
                        } else {
                            problem.total_slots as int
                        },
                        end_idx == if end < problem.total_slots {
                            end as int
                        } else {
                            problem.total_slots as int
                        },
                        forall|t: int|
                            0 <= t < mask@.len() ==> mask@[t] == ((exists|i: int|
                                0 <= i < k && in_zone(
                                    #[trigger] problem.global_constraints@[i],
                                    t,
                                )) || (start_idx <= t < j && t < end_idx)),
                    decreases end_idx - j,
                {
                    mask[j] = true;
                    j += 1;
                }
                proof {
                    assert forall|t: int| 0 <= t < mask@.len() implies mask@[t] == exists|i: int|
                        0 <= i < k + 1 && in_zone(#[trigger] problem.global_constraints@[i], t) by {
                        let covered_now = start_idx <= t < end_idx;
                        assert(covered_now == in_zone(problem.global_constraints@[k as int], t));
                        if mask@[t] {
                            if !covered_now {
                                let w = choose|i: int|
                                    0 <= i < k && in_zone(
                                        #[trigger] problem.global_constraints@[i],
                                        t,
                                    );
                                assert(0 <= w < k + 1 && in_zone(
                                    problem.global_constraints@[w],
                                    t,
                                ));
                            }
                        } else {
                            if exists|i: int|
                                0 <= i < k + 1 && in_zone(
                                    #[trigger] problem.global_constraints@[i],
                                    t,
                                ) {
                                let w = choose|i: int|
                                    0 <= i < k + 1 && in_zone(
                                        #[trigger] problem.global_constraints@[i],
                                        t,
                                    );
                                assert(w == k);
                                assert(false);
                            }
                        }
                    }
                }
            },
            GlobalConstraint::CumulativeTime { .. } => {
                proof {
                    assert forall|t: int| 0 <= t < mask@.len() implies mask@[t] == exists|i: int|
                        0 <= i < k + 1 && in_zone(#[trigger] problem.global_constraints@[i], t) by {
                        assert(!in_zone(problem.global_constraints@[k as int], t));
                        if mask@[t] {
                            let w = choose|i: int|
                                0 <= i < k && in_zone(#[trigger] problem.global_constraints@[i], t);
                            assert(0 <= w < k + 1 && in_zone(problem.global_constraints@[w], t));
                        } else {
                            if exists|i: int|
                                0 <= i < k + 1 && in_zone(
                                    #[trigger] problem.global_constraints@[i],
                                    t,
                                ) {
                                let w = choose|i: int|
                                    0 <= i < k + 1 && in_zone(
                                        #[trigger] problem.global_constraints@[i],
                                        t,
                                    );
                                assert(w == k);
                                assert(false);
                            }
                        }
                    }
                }
            },
        }
        k += 1;
    }
    mask
}

fn build_fixed_occupancy_mask(problem: &Problem) -> (mask: Vec<bool>)
    ensures
        mask@.len() == problem.total_slots,
        forall|t: int| 0 <= t < mask@.len() ==> mask@[t] == slot_fixed_occupied(*problem, t),
{
    let total_slots = problem.total_slots as usize;
    let mut mask: Vec<bool> = vec![false; total_slots];
    let mut k: usize = 0;
    while k < problem.fixed_indices.len()
        invariant
            mask@.len() == total_slots,
            total_slots == problem.total_slots,
            k <= problem.fixed_indices@.len(),
            forall|t: int|
                0 <= t < mask@.len() ==> mask@[t] == exists|i: int|
                    0 <= i < k && #[trigger] occupied_by_fixed(*problem, i, t),
        decreases problem.fixed_indices@.len() - k,
    {
        let act_idx = problem.fixed_indices[k];
        let ghost prev_mask = mask@;
        if act_idx < problem.activities.len() {
            let activity = &problem.activities[act_idx];
            if let Some(start) = activity.assigned_start {
                if (start as usize) < total_slots {
                    let start_time = start as usize;
                    let end_sum = start_time + activity.duration_slots as usize;
                    let end_time = if end_sum < total_slots {
                        end_sum
                    } else {
                        total_slots
                    };
                    let mut j = start_time;
                    while j < end_time
                        invariant
                            mask@.len() == total_slots,
                            total_slots == problem.total_slots,
                            k < problem.fixed_indices@.len(),
                            start_time <= j,
                            end_time <= total_slots,
                            act_idx == problem.fixed_indices@[k as int],
                            act_idx < problem.activities@.len(),
                            problem.activities@[act_idx as int].assigned_start == Some(start),
                            start == start_time < total_slots,
                            end_time == if start_time + problem.activities@[
                                act_idx as int
                            ].duration_slots < total_slots {
                                start_time + problem.activities@[act_idx as int].duration_slots
                            } else {
                                total_slots as int
                            },
                            forall|t: int|
                                0 <= t < mask@.len() ==> mask@[t] == ((exists|i: int|
                                    0 <= i < k && #[trigger] occupied_by_fixed(*problem, i, t)) || (
                                start_time <= t < j && t < end_time)),
                        decreases end_time - j,
                    {
                        mask[j] = true;
                        j += 1;
                    }
                    proof {
                        assert forall|t: int| 0 <= t < mask@.len() implies mask@[t] == exists|i: int|
                            0 <= i < k + 1 && #[trigger] occupied_by_fixed(*problem, i, t) by {
                            let covered_now = start_time <= t < end_time;
                            assert(covered_now == occupied_by_fixed(*problem, k as int, t));
                            if mask@[t] {
                                if !covered_now {
                                    let w = choose|i: int|
                                        0 <= i < k && #[trigger] occupied_by_fixed(*problem, i, t);
                                    assert(0 <= w < k + 1 && occupied_by_fixed(*problem, w, t));
                                }
                            } else {
                                if exists|i: int|
                                    0 <= i < k + 1 && #[trigger] occupied_by_fixed(*problem, i, t) {
                                    let w = choose|i: int|
                                        0 <= i < k + 1 && #[trigger] occupied_by_fixed(
                                            *problem,
                                            i,
                                            t,
                                        );
                                    assert(w == k);
                                    assert(false);
                                }
                            }
                        }
                    }
                } else {
                    proof {
                        lemma_skip_step(*problem, k as int, mask@, prev_mask);
                    }
                }
            } else {
                proof {
                    lemma_skip_step(*problem, k as int, mask@, prev_mask);
                }
            }
        } else {
            proof {
                lemma_skip_step(*problem, k as int, mask@, prev_mask);
            }
        }
        k += 1;
    }
    mask
}

/// When the `k`-th fixed index yields no span, the occupancy mask for the
/// first `k + 1` fixed indices equals the one for the first `k`.
proof fn lemma_skip_step(p: Problem, k: int, cur: Seq<bool>, prev: Seq<bool>)
    requires
        0 <= k < p.fixed_indices@.len(),
        cur == prev,
        forall|t: int| !occupied_by_fixed(p, k, t),
        forall|t: int|
            0 <= t < prev.len() ==> prev[t] == exists|i: int|
                0 <= i < k && #[trigger] occupied_by_fixed(p, i, t),
    ensures
        forall|t: int|
            0 <= t < cur.len() ==> cur[t] == exists|i: int|
                0 <= i < k + 1 && #[trigger] occupied_by_fixed(p, i, t),
{
    assert forall|t: int| 0 <= t < cur.len() implies cur[t] == exists|i: int|
        0 <= i < k + 1 && #[trigger] occupied_by_fixed(p, i, t) by {
        if cur[t] {
            let w = choose|i: int| 0 <= i < k && #[trigger] occupied_by_fixed(p, i, t);
            assert(0 <= w < k + 1 && occupied_by_fixed(p, w, t));
        } else {
            if exists|i: int| 0 <= i < k + 1 && #[trigger] occupied_by_fixed(p, i, t) {
                let w = choose|i: int| 0 <= i < k + 1 && #[trigger] occupied_by_fixed(p, i, t);
                assert(w == k);
                assert(false);
            }
        }
    }
}

/// Produce the ordered list of every slot in `[0, total_slots)` that is
/// neither inside any forbidden zone nor covered by a fixed activity's
/// span. The output is sorted ascending and has no duplicates; its length
/// becomes the gene count of the search space.
pub fn build_candidate_start_slots(problem: &Problem) -> (candidates: Vec<TimeSlot>)
    ensures
        candidates@ == candidate_slots_spec(*problem),
        forall|k: int|
            0 <= k < candidates@.len() ==> slot_open(*problem, #[trigger] candidates@[k] as int),
        forall|k1: int, k2: int|
            0 <= k1 < k2 < candidates@.len() ==> candidates@[k1] < candidates@[k2],
        forall|t: int| slot_open(*problem, t) ==> candidates@.contains(t as TimeSlot),
{
    proof {
        lemma_candidate_slots_sound(*problem);
    }
    let total_slots = problem.total_slots as usize;
    let forbidden_mask = build_forbidden_slot_mask(problem);
    let fixed_mask = build_fixed_occupancy_mask(problem);
    let mut candidates: Vec<TimeSlot> = Vec::new();
    let mut slot: usize = 0;
    while slot < total_slots
        invariant
            total_slots == problem.total_slots,
            slot <= total_slots,
            forbidden_mask@.len() == total_slots,
            fixed_mask@.len() == total_slots,
            forall|t: int|
                0 <= t < total_slots ==> forbidden_mask@[t] == slot_forbidden(*problem, t),
            forall|t: int|
                0 <= t < total_slots ==> fixed_mask@[t] == slot_fixed_occupied(*problem, t),
            candidates@ == candidates_upto(*problem, slot as int),
        decreases total_slots - slot,
    {
        if !forbidden_mask[slot] && !fixed_mask[slot] {
            candidates.push(slot as TimeSlot);
        }
        slot += 1;
    }
    candidates
}

proof fn lemma_candidates_upto_props(p: Problem, n: int)
    requires
        0 <= n <= p.total_slots,
    ensures
        forall|k: int|
            0 <= k < candidates_upto(p, n).len() ==> slot_open(
                p,
                #[trigger] candidates_upto(p, n)[k] as int,
            ) && candidates_upto(p, n)[k] < n,
        forall|k1: int, k2: int|
            0 <= k1 < k2 < candidates_upto(p, n).len() ==> candidates_upto(p, n)[k1]
                < candidates_upto(p, n)[k2],
        forall|t: int| 0 <= t < n && slot_open(p, t) ==> candidates_upto(p, n).contains(t as u16),
    decreases n,
{
    if n > 0 {
        lemma_candidates_upto_props(p, n - 1);
        let pre = candidates_upto(p, n - 1);
        let cur = candidates_upto(p, n);
        if slot_open(p, n - 1) {
            assert(cur == pre.push((n - 1) as u16));
            assert forall|t: int| 0 <= t < n && slot_open(p, t) implies cur.contains(t as u16) by {
                if t < n - 1 {
                    assert(pre.contains(t as u16));
                    let w = choose|w: int| 0 <= w < pre.len() && pre[w] == t as u16;
                    assert(cur[w] == t as u16);
                } else {
                    assert(cur[cur.len() - 1] == t as u16);
                }
            }
        } else {
            assert forall|t: int| 0 <= t < n && slot_open(p, t) implies cur.contains(t as u16) by {
                assert(pre.contains(t as u16));
                let w = choose|w: int| 0 <= w < pre.len() && pre[w] == t as u16;
                assert(cur[w] == t as u16);
            }
        }
    }
}

/// Candidate-slot soundness and completeness: every emitted slot is open —
/// inside the horizon, in no forbidden zone, not covered by any fixed
/// activity — the list ascends strictly, and every open slot is emitted.
pub proof fn lemma_candidate_slots_sound(p: Problem)
    ensures
        forall|k: int|
            0 <= k < candidate_slots_spec(p).len() ==> slot_open(
                p,
                #[trigger] candidate_slots_spec(p)[k] as int,
            ),
        forall|k1: int, k2: int|
            0 <= k1 < k2 < candidate_slots_spec(p).len() ==> candidate_slots_spec(p)[k1]
                < candidate_slots_spec(p)[k2],
        forall|t: int| slot_open(p, t) ==> candidate_slots_spec(p).contains(t as u16),
{
    lemma_candidates_upto_props(p, p.total_slots as int);
}

} // verus!
