use crate::counts::{count_id, count_id_day, count_id_day_upto, count_id_upto, count_id_week,
    count_id_week_upto};
use crate::events::{
    ScheduledItem, all_events, decode_events, ev_day, ev_end, ev_id, ev_week, ev_weekday,
    events_wf, genes_read, lemma_all_events_wf, lemma_sort_wf, sentinel_count, sort_by_start,
    sort_events,
};
use crate::freq::{
    cum_pen_upto, cumulative_pass, frequency_target_pass, ft_pen_upto, ft_score_upto,
    user_frequency_pass, uf_pen_upto,
};
use crate::lookup::{HeatmapLookup, MarkovLookup, heat_lookup, markov_lookup};
use crate::types::{
    Binding, GlobalConstraint, MAX_LIST_LEN, MAX_WEIGHT, Problem, SLOTS_PER_DAY, SLOTS_PER_WEEK,
    TimeScope, TimeSlot, WEIGHT_SCALE, Weight,
};
use vstd::prelude::*;

verus! {

/// Penalty for an item overlapping the previous one (hundredths).
pub const PENALTY_OVERLAP: Weight = 100_000_000;

/// Penalty for touching a forbidden zone or running past the horizon.
pub const PENALTY_FORBIDDEN: Weight = 100_000_000;

/// Penalty per slot of cumulative-time deviation.
pub const PENALTY_CUMULATIVE: Weight = 1_000_000;

/// Multiplier on an activity's priority reward.
pub const WEIGHT_PRIORITY: Weight = 1_000;

/// Multiplier on a heatmap affinity reward.
pub const WEIGHT_HEATMAP: Weight = 500;

/// Multiplier on a sequencing (Markov) reward.
pub const WEIGHT_MARKOV: Weight = 500;

/// Multiplier on overshoot beyond a soft frequency target.
pub const FREQUENCY_OVERSHOOT_MULTIPLIER: i64 = 6;

/// Tiny stability reward per no-activity gene (one hundredth).
pub const REWARD_NO_ACTIVITY: Weight = 1;

/// Geometric decay on repeated occurrences: 65/100 per repeat.
pub const PRIORITY_REPEAT_DECAY_NUM: i64 = 65;

/// Largest gap (in slots) between consecutive items that still earns the
/// sequencing reward.
pub const MARKOV_GAP_TOLERANCE: u16 = 2;

/// Most events an evaluation can see: one per candidate slot plus one per
/// fixed index.
pub const MAX_EVENTS: usize = 200_000;

/// Fixed-point multiplier applied to the `k`-th repeat of an activity:
/// 100 at the first occurrence, thereafter scaled by 65/100 each time,
/// rounding down.
pub open spec fn decay_multiplier(k: nat) -> int
    decreases k,
{
    if k == 0 {
        100
    } else {
        decay_multiplier((k - 1) as nat) * PRIORITY_REPEAT_DECAY_NUM as int / WEIGHT_SCALE as int
    }
}

pub proof fn lemma_decay_multiplier_bounds(k: nat)
    ensures
        0 <= decay_multiplier(k) <= 100,
    decreases k,
{
    if k > 0 {
        lemma_decay_multiplier_bounds((k - 1) as nat);
    }
}

/// Priority reward of the `k`-th occurrence of an activity (`k` earlier
/// occurrences already registered): the weighted priority scaled by the
/// decayed repeat multiplier.
pub open spec fn repeat_reward_term(priority: i64, k: nat) -> int {
    (priority * WEIGHT_PRIORITY / WEIGHT_SCALE as int) * decay_multiplier(k) / WEIGHT_SCALE as int
}

/// Total priority reward collected by the first `n` occurrences of one
/// activity scheduled alone.
pub open spec fn repeat_reward_total(priority: i64, n: nat) -> int
    decreases n,
{
    if n == 0 {
        0
    } else {
        repeat_reward_total(priority, (n - 1) as nat) + repeat_reward_term(
            priority,
            (n - 1) as nat,
        )
    }
}

/// Priority reward of the `i`-th registered item, with diminishing
/// returns over earlier occurrences of the same activity id.
pub open spec fn priority_term(p: Problem, es: Seq<ScheduledItem>, i: int) -> int {
    let a = p.activities@[es[i].act_idx as int];
    repeat_reward_term(a.priority, count_id_upto(p, es, i, a.id as int) as nat)
}

/// Heatmap reward of an item, when its `(id, start)` pair is listed.
pub open spec fn heat_term(p: Problem, e: ScheduledItem) -> int {
    match heat_lookup(p.heatmap@, ev_id(p, e), e.start as int) {
        Some(w) => w * WEIGHT_HEATMAP / WEIGHT_SCALE as int,
        None => 0,
    }
}

/// Penalty when an item runs past the end of the horizon.
pub open spec fn end_overrun_pen(p: Problem, e: ScheduledItem) -> int {
    if ev_end(p, e) > p.total_slots {
        PENALTY_FORBIDDEN as int
    } else {
        0
    }
}

/// Registration rewards of the first `n` items, in registration order.
pub open spec fn reg_score_upto(p: Problem, es: Seq<ScheduledItem>, n: int) -> int
    decreases n,
{
    if n <= 0 {
        0
    } else {
        reg_score_upto(p, es, n - 1) + priority_term(p, es, n - 1) + heat_term(p, es[n - 1])
    }
}

/// Horizon-overrun penalties of the first `n` items.
pub open spec fn reg_pen_upto(p: Problem, es: Seq<ScheduledItem>, n: int) -> int
    decreases n,
{
    if n <= 0 {
        0
    } else {
        reg_pen_upto(p, es, n - 1) + end_overrun_pen(p, es[n - 1])
    }
}

/// Forbidden-zone penalties of one item against the first `k` global
/// constraints: an item pays once per zone it intersects.
pub open spec fn zone_pen_upto(p: Problem, e: ScheduledItem, k: int) -> int
    decreases k,
{
    if k <= 0 {
        0
    } else {
        zone_pen_upto(p, e, k - 1) + match p.global_constraints@[k - 1] {
            GlobalConstraint::ForbiddenZone { start, end } => if e.start < end && ev_end(p, e)
                > start {
                PENALTY_FORBIDDEN as int
            } else {
                0
            },
            GlobalConstraint::CumulativeTime { .. } => 0,
        }
    }
}

pub open spec fn zone_pen(p: Problem, e: ScheduledItem) -> int {
    zone_pen_upto(p, e, p.global_constraints@.len() as int)
}

/// Overlap penalty of the `i`-th item of the sorted sweep against its
/// predecessor.
pub open spec fn overlap_pen(p: Problem, s: Seq<ScheduledItem>, i: int) -> int {
    if i > 0 && s[i].start < ev_end(p, s[i - 1]) {
        PENALTY_OVERLAP as int
    } else {
        0
    }
}

/// Sequencing reward: fires only when the `i`-th item starts at most
/// `MARKOV_GAP_TOLERANCE` slots after its predecessor ends (no overlap).
pub open spec fn markov_term(p: Problem, s: Seq<ScheduledItem>, i: int) -> int {
    if i > 0 && !(s[i].start < ev_end(p, s[i - 1])) && s[i].start - ev_end(p, s[i - 1])
        <= MARKOV_GAP_TOLERANCE {
        match markov_lookup(p.markov_matrix@, ev_id(p, s[i - 1]), ev_id(p, s[i])) {
            Some(w) => w * WEIGHT_MARKOV / WEIGHT_SCALE as int,
            None => 0,
        }
    } else {
        0
    }
}

/// How often the `i`-th item's scope bucket has already seen activity
/// `id` strictly before position `i` of the sorted sweep.
pub open spec fn running_count(
    p: Problem,
    s: Seq<ScheduledItem>,
    i: int,
    id: int,
    scope: TimeScope,
) -> int {
    match scope {
        TimeScope::SameDay => count_id_day_upto(p, s, i, id, ev_day(s[i])),
        TimeScope::SameWeek => count_id_week_upto(p, s, i, id, ev_week(s[i])),
        TimeScope::SameMonth => count_id_upto(p, s, i, id),
    }
}

/// Total occurrences of `id` in the `i`-th item's scope bucket, over the
/// whole schedule (out-of-range buckets count zero).
pub open spec fn total_count(
    p: Problem,
    s: Seq<ScheduledItem>,
    i: int,
    id: int,
    scope: TimeScope,
) -> int {
    match scope {
        TimeScope::SameDay => if ev_day(s[i]) < p.num_days() {
            count_id_day_upto(p, s, s.len() as int, id, ev_day(s[i]))
        } else {
            0
        },
        TimeScope::SameWeek => if ev_week(s[i]) < p.num_weeks() {
            count_id_week_upto(p, s, s.len() as int, id, ev_week(s[i]))
        } else {
            0
        },
        TimeScope::SameMonth => count_id_upto(p, s, s.len() as int, id),
    }
}

/// Is the binding enabled on weekday `wd` (bit 0 = Monday)?
pub open spec fn weekday_enabled(mask: u8, wd: u8) -> bool {
    (mask >> wd) & 1 != 0
}

/// An input conjunction is met when every required id has already run in
/// the current scope bucket.
pub open spec fn req_set_met(
    p: Problem,
    s: Seq<ScheduledItem>,
    i: int,
    set: Seq<usize>,
    scope: TimeScope,
) -> bool {
    forall|q: int| 0 <= q < set.len() ==> #[trigger] running_count(p, s, i, set[q] as int, scope)
        > 0
}

/// An input binding is met when some conjunction of its DNF is met.
pub open spec fn binding_met_in(p: Problem, s: Seq<ScheduledItem>, i: int, b: Binding) -> bool {
    exists|m: int|
        0 <= m < b.required_sets@.len() && req_set_met(
            p,
            s,
            i,
            #[trigger] b.required_sets@[m]@,
            b.time_scope,
        )
}

/// A required id still lies in the future when the bucket total exceeds
/// the already-run count plus the current item itself.
pub open spec fn req_future_met(
    p: Problem,
    s: Seq<ScheduledItem>,
    i: int,
    req: int,
    scope: TimeScope,
) -> bool {
    total_count(p, s, i, req, scope) > running_count(p, s, i, req, scope) + (if req == ev_id(
        p,
        s[i],
    ) {
        1int
    } else {
        0int
    })
}

pub open spec fn out_set_met(
    p: Problem,
    s: Seq<ScheduledItem>,
    i: int,
    set: Seq<usize>,
    scope: TimeScope,
) -> bool {
    forall|q: int| 0 <= q < set.len() ==> #[trigger] req_future_met(p, s, i, set[q] as int, scope)
}

pub open spec fn binding_met_out(p: Problem, s: Seq<ScheduledItem>, i: int, b: Binding) -> bool {
    exists|m: int|
        0 <= m < b.required_sets@.len() && out_set_met(
            p,
            s,
            i,
            #[trigger] b.required_sets@[m]@,
            b.time_scope,
        )
}

/// Input-binding penalties of the `i`-th item over its first `k` input
/// bindings: a binding enabled on the item's weekday and not met pays its
/// weight.
pub open spec fn input_pen_upto(p: Problem, s: Seq<ScheduledItem>, i: int, k: int) -> int
    decreases k,
{
    let bs = p.activities@[s[i].act_idx as int].input_bindings@;
    if k <= 0 {
        0
    } else {
        input_pen_upto(p, s, i, k - 1) + if !weekday_enabled(
            bs[k - 1].valid_weekdays,
            ev_weekday(s[i]) as u8,
        ) {
            0int
        } else if binding_met_in(p, s, i, bs[k - 1]) {
            0int
        } else {
            bs[k - 1].weight as int
        }
    }
}

pub open spec fn input_pen(p: Problem, s: Seq<ScheduledItem>, i: int) -> int {
    input_pen_upto(p, s, i, p.activities@[s[i].act_idx as int].input_bindings@.len() as int)
}

/// Output-binding penalties, evaluated on future counts.
pub open spec fn output_pen_upto(p: Problem, s: Seq<ScheduledItem>, i: int, k: int) -> int
    decreases k,
{
    let bs = p.activities@[s[i].act_idx as int].output_bindings@;
    if k <= 0 {
        0
    } else {
        output_pen_upto(p, s, i, k - 1) + if !weekday_enabled(
            bs[k - 1].valid_weekdays,
            ev_weekday(s[i]) as u8,
        ) {
            0int
        } else if binding_met_out(p, s, i, bs[k - 1]) {
            0int
        } else {
            bs[k - 1].weight as int
        }
    }
}

pub open spec fn output_pen(p: Problem, s: Seq<ScheduledItem>, i: int) -> int {
    output_pen_upto(p, s, i, p.activities@[s[i].act_idx as int].output_bindings@.len() as int)
}

/// Penalties of the sequential sweep over the first `n` sorted items.
pub open spec fn sweep_pen_upto(p: Problem, s: Seq<ScheduledItem>, n: int) -> int
    decreases n,
{
    if n <= 0 {
        0
    } else {
        sweep_pen_upto(p, s, n - 1) + zone_pen(p, s[n - 1]) + overlap_pen(p, s, n - 1) + input_pen(
            p,
            s,
            n - 1,
        ) + output_pen(p, s, n - 1)
    }
}

/// Sequencing rewards of the sweep over the first `n` sorted items.
pub open spec fn sweep_score_upto(p: Problem, s: Seq<ScheduledItem>, n: int) -> int
    decreases n,
{
    if n <= 0 {
        0
    } else {
        sweep_score_upto(p, s, n - 1) + markov_term(p, s, n - 1)
    }
}

proof fn lemma_heat_lookup_bound(entries: Seq<(usize, u16, i64)>, id: int, slot: int)
    requires
        forall|i: int| 0 <= i < entries.len() ==> 0 <= (#[trigger] entries[i]).2 <= MAX_WEIGHT,
    ensures
        match heat_lookup(entries, id, slot) {
            Some(w) => 0 <= w <= MAX_WEIGHT,
            None => true,
        },
    decreases entries.len(),
{
    if entries.len() > 0 {
        if !(entries.last().0 == id && entries.last().1 == slot) {
            assert(forall|i: int|
                0 <= i < entries.drop_last().len() ==> (#[trigger] entries.drop_last()[i])
                    == entries[i]);
            lemma_heat_lookup_bound(entries.drop_last(), id, slot);
        }
    }
}

proof fn lemma_markov_lookup_bound(entries: Seq<(usize, usize, i64)>, from: int, to: int)
    requires
        forall|i: int| 0 <= i < entries.len() ==> 0 <= (#[trigger] entries[i]).2 <= MAX_WEIGHT,
    ensures
        match markov_lookup(entries, from, to) {
            Some(w) => 0 <= w <= MAX_WEIGHT,
            None => true,
        },
    decreases entries.len(),
{
    if entries.len() > 0 {
        if !(entries.last().0 == from && entries.last().1 == to) {
            assert(forall|i: int|
                0 <= i < entries.drop_last().len() ==> (#[trigger] entries.drop_last()[i])
                    == entries[i]);
            lemma_markov_lookup_bound(entries.drop_last(), from, to);
        }
    }
}

fn decay_multiplier_exec(k: usize) -> (m: i64)
    ensures
        m == decay_multiplier(k as nat),
        0 <= m <= 100,
{
    let mut m: i64 = 100;
    let mut j: usize = 0;
    while j < k
        invariant
            j <= k,
            m == decay_multiplier(j as nat),
            0 <= m <= 100,
        decreases k - j,
    {
        m = m * PRIORITY_REPEAT_DECAY_NUM / WEIGHT_SCALE;
        j += 1;
    }
    m
}

/// Registration pass: priority rewards with diminishing returns, heatmap
/// rewards, and horizon-overrun penalties, in registration order.
fn registration_pass(p: &Problem, es: &Vec<ScheduledItem>, heat: &HeatmapLookup) -> (r: (
    u128,
    u128,
))
    requires
        p.wf(),
        events_wf(*p, es@),
        es@.len() <= MAX_EVENTS,
        heat.entries@ == p.heatmap@,
    ensures
        r.0 == reg_score_upto(*p, es@, es@.len() as int),
        r.1 == reg_pen_upto(*p, es@, es@.len() as int),
        r.0 <= es@.len() * 20_000_000_000,
        r.1 <= es@.len() * (PENALTY_FORBIDDEN as int),
{
    let mut score: u128 = 0;
    let mut pen: u128 = 0;
    let mut i: usize = 0;
    while i < es.len()
        invariant
            p.wf(),
            events_wf(*p, es@),
            es@.len() <= MAX_EVENTS,
            heat.entries@ == p.heatmap@,
            i <= es@.len(),
            score == reg_score_upto(*p, es@, i as int),
            pen == reg_pen_upto(*p, es@, i as int),
            score <= i * 20_000_000_000,
            pen <= i * (PENALTY_FORBIDDEN as int),
        decreases es@.len() - i,
    {
        let e = es[i];
        let a = &p.activities[e.act_idx];
        proof {
            assert(p.activities@[e.act_idx as int].wf());
        }
        let occurrences = count_id(p, es, i, a.id);
        let m = decay_multiplier_exec(occurrences);
        let base = a.priority * WEIGHT_PRIORITY / WEIGHT_SCALE;
        proof {
            assert(0 <= base <= 10_000_000_000);
            assert(0 <= base * m <= 1_000_000_000_000) by (nonlinear_arith)
                requires
                    0 <= base <= 10_000_000_000,
                    0 <= m <= 100,
            ;
        }
        let pterm = base * m / WEIGHT_SCALE;
        proof {
            assert(pterm == priority_term(*p, es@, i as int));
            assert(0 <= pterm <= 10_000_000_000);
        }
        score += pterm as u128;
        let hterm: i64 = match heat.get(a.id, e.start) {
            Some(w) => {
                proof {
                    lemma_heat_lookup_bound(p.heatmap@, ev_id(*p, e), e.start as int);
                }
                w * WEIGHT_HEATMAP / WEIGHT_SCALE
            },
            None => 0,
        };
        proof {
            assert(hterm == heat_term(*p, e));
            assert(0 <= hterm <= 10_000_000_000);
        }
        score += hterm as u128;
        let end = e.start as u32 + a.duration_slots as u32;
        if end > p.total_slots as u32 {
            pen += PENALTY_FORBIDDEN as u128;
        }
        i += 1;
    }
    (score, pen)
}

/// Forbidden-zone penalties of one item against every global constraint.
fn zone_penalty(p: &Problem, e: &ScheduledItem) -> (r: u64)
    requires
        e.act_idx < p.activities@.len(),
        p.global_constraints@.len() <= MAX_LIST_LEN,
    ensures
        r == zone_pen(*p, *e),
        r <= MAX_LIST_LEN * (PENALTY_FORBIDDEN as int),
{
    let mut r: u64 = 0;
    let mut k: usize = 0;
    let end = e.start as u32 + p.activities[e.act_idx].duration_slots as u32;
    while k < p.global_constraints.len()
        invariant
            e.act_idx < p.activities@.len(),
            p.global_constraints@.len() <= MAX_LIST_LEN,
            k <= p.global_constraints@.len(),
            end == ev_end(*p, *e),
            r == zone_pen_upto(*p, *e, k as int),
            r <= k * (PENALTY_FORBIDDEN as int),
        decreases p.global_constraints@.len() - k,
    {
        match p.global_constraints[k] {
            GlobalConstraint::ForbiddenZone { start, end: zend } => {
                if (e.start as u32) < zend as u32 && end > start as u32 {
                    r += PENALTY_FORBIDDEN as u64;
                }
            },
            GlobalConstraint::CumulativeTime { .. } => {},
        }
        k += 1;
    }
    r
}

/// Already-run occurrences of `id` in the scope bucket of item `i`.
fn running_count_exec(
    p: &Problem,
    s: &Vec<ScheduledItem>,
    i: usize,
    id: usize,
    scope: TimeScope,
) -> (r: usize)
    requires
        events_wf(*p, s@),
        i < s@.len(),
    ensures
        r == running_count(*p, s@, i as int, id as int, scope),
        r <= i,
{
    let e = s[i];
    match scope {
        TimeScope::SameDay => count_id_day(p, s, i, id, (e.start / SLOTS_PER_DAY) as usize),
        TimeScope::SameWeek => count_id_week(p, s, i, id, (e.start / SLOTS_PER_WEEK) as usize),
        TimeScope::SameMonth => count_id(p, s, i, id),
    }
}

/// Bucket total of `id` in the scope bucket of item `i` over the whole
/// schedule.
fn total_count_exec(p: &Problem, s: &Vec<ScheduledItem>, i: usize, id: usize, scope: TimeScope) -> (
    r: usize)
    requires
        events_wf(*p, s@),
        i < s@.len(),
    ensures
        r == total_count(*p, s@, i as int, id as int, scope),
        r <= s@.len(),
{
    let e = s[i];
    let num_days = (p.total_slots / SLOTS_PER_DAY) as usize + 1;
    let num_weeks = (p.total_slots / SLOTS_PER_WEEK) as usize + 1;
    match scope {
        TimeScope::SameDay => {
            let day = (e.start / SLOTS_PER_DAY) as usize;
            if day < num_days {
                count_id_day(p, s, s.len(), id, day)
            } else {
                0
            }
        },
        TimeScope::SameWeek => {
            let week = (e.start / SLOTS_PER_WEEK) as usize;
            if week < num_weeks {
                count_id_week(p, s, s.len(), id, week)
            } else {
                0
            }
        },
        TimeScope::SameMonth => count_id(p, s, s.len(), id),
    }
}

/// Input-binding penalties of the `i`-th sorted item.
fn input_binding_penalty(p: &Problem, s: &Vec<ScheduledItem>, i: usize) -> (r: u64)
    requires
        p.wf(),
        events_wf(*p, s@),
        i < s@.len(),
    ensures
        r == input_pen(*p, s@, i as int),
        r <= MAX_LIST_LEN * (MAX_WEIGHT as int),
{
    let e = s[i];
    let a = &p.activities[e.act_idx];
    proof {
        assert(p.activities@[e.act_idx as int].wf());
    }
    let weekday = ((e.start / SLOTS_PER_DAY) as usize % 7) as u8;
    proof {
        assert(weekday == ev_weekday(s@[i as int]) as u8);
    }
    let mut r: u64 = 0;
    let mut k: usize = 0;
    while k < a.input_bindings.len()
        invariant
            p.wf(),
            events_wf(*p, s@),
            i < s@.len(),
            *a == p.activities@[s@[i as int].act_idx as int],
            a.wf(),
            weekday == ev_weekday(s@[i as int]) as u8,
            k <= a.input_bindings@.len(),
            r == input_pen_upto(*p, s@, i as int, k as int),
            r <= k * (MAX_WEIGHT as int),
        decreases a.input_bindings@.len() - k,
    {
        let b = &a.input_bindings[k];
        proof {
            assert(a.input_bindings@[k as int].wf());
        }
        if (b.valid_weekdays >> weekday) & 1 != 0 {
            let mut met = false;
            let mut m: usize = 0;
            while m < b.required_sets.len()
                invariant
                    p.wf(),
                    events_wf(*p, s@),
                    i < s@.len(),
                    *b == p.activities@[s@[i as int].act_idx as int].input_bindings@[k as int],
                    k < p.activities@[s@[i as int].act_idx as int].input_bindings@.len(),
                    m <= b.required_sets@.len(),
                    met == exists|m0: int|
                        0 <= m0 < m && req_set_met(
                            *p,
                            s@,
                            i as int,
                            #[trigger] b.required_sets@[m0]@,
                            b.time_scope,
                        ),
                decreases b.required_sets@.len() - m,
            {
                if !met {
                    let set = &b.required_sets[m];
                    let mut all = true;
                    let mut q: usize = 0;
                    while q < set.len()
                        invariant
                            p.wf(),
                            events_wf(*p, s@),
                            i < s@.len(),
                            *set == p.activities@[s@[i as int].act_idx as int].input_bindings@[
                                k as int].required_sets@[m as int],
                            *b == p.activities@[s@[i as int].act_idx as int].input_bindings@[
                                k as int],
                            q <= set@.len(),
                            all == forall|q0: int|
                                0 <= q0 < q ==> #[trigger] running_count(
                                    *p,
                                    s@,
                                    i as int,
                                    set@[q0] as int,
                                    b.time_scope,
                                ) > 0,
                        decreases set@.len() - q,
                    {
                        let req = set[q];
                        let c = running_count_exec(p, s, i, req, b.time_scope);
                        if c == 0 {
                            all = false;
                        }
                        q += 1;
                    }
                    if all {
                        met = true;
                        proof {
                            assert(req_set_met(
                                *p,
                                s@,
                                i as int,
                                b.required_sets@[m as int]@,
                                b.time_scope,
                            ));
                        }
                    }
                }
                m += 1;
            }
            proof {
                assert(met == binding_met_in(*p, s@, i as int, *b));
            }
            if !met {
                proof {
                    assert(0 <= b.weight <= MAX_WEIGHT);
                }
                r += b.weight as u64;
            }
        }
        k += 1;
    }
    r
}

/// Output-binding penalties of the `i`-th sorted item, on future counts.
fn output_binding_penalty(p: &Problem, s: &Vec<ScheduledItem>, i: usize) -> (r: u64)
    requires
        p.wf(),
        events_wf(*p, s@),
        i < s@.len(),
    ensures
        r == output_pen(*p, s@, i as int),
        r <= MAX_LIST_LEN * (MAX_WEIGHT as int),
{
    let e = s[i];
    let a = &p.activities[e.act_idx];
    proof {
        assert(p.activities@[e.act_idx as int].wf());
    }
    let weekday = ((e.start / SLOTS_PER_DAY) as usize % 7) as u8;
    proof {
        assert(weekday == ev_weekday(s@[i as int]) as u8);
    }
    let mut r: u64 = 0;
    let mut k: usize = 0;
    while k < a.output_bindings.len()
        invariant
            p.wf(),
            events_wf(*p, s@),
            i < s@.len(),
            *a == p.activities@[s@[i as int].act_idx as int],
            a.wf(),
            e == s@[i as int],
            weekday == ev_weekday(s@[i as int]) as u8,
            k <= a.output_bindings@.len(),
            r == output_pen_upto(*p, s@, i as int, k as int),
            r <= k * (MAX_WEIGHT as int),
        decreases a.output_bindings@.len() - k,
    {
        let b = &a.output_bindings[k];
        proof {
            assert(a.output_bindings@[k as int].wf());
        }
        if (b.valid_weekdays >> weekday) & 1 != 0 {
            let mut met = false;
            let mut m: usize = 0;
            while m < b.required_sets.len()
                invariant
                    p.wf(),
                    events_wf(*p, s@),
                    i < s@.len(),
                    *b == p.activities@[s@[i as int].act_idx as int].output_bindings@[k as int],
                    k < p.activities@[s@[i as int].act_idx as int].output_bindings@.len(),
                    e == s@[i as int],
                    m <= b.required_sets@.len(),
                    met == exists|m0: int|
                        0 <= m0 < m && out_set_met(
                            *p,
                            s@,
                            i as int,
                            #[trigger] b.required_sets@[m0]@,
                            b.time_scope,
                        ),
                decreases b.required_sets@.len() - m,
            {
                if !met {
                    let set = &b.required_sets[m];
                    let mut all = true;
                    let mut q: usize = 0;
                    while q < set.len()
                        invariant
                            p.wf(),
                            events_wf(*p, s@),
                            i < s@.len(),
                            *set == p.activities@[s@[i as int].act_idx as int].output_bindings@[
                                k as int].required_sets@[m as int],
                            *b == p.activities@[s@[i as int].act_idx as int].output_bindings@[
                                k as int],
                            e == s@[i as int],
                            q <= set@.len(),
                            all == forall|q0: int|
                                0 <= q0 < q ==> #[trigger] req_future_met(
                                    *p,
                                    s@,
                                    i as int,
                                    set@[q0] as int,
                                    b.time_scope,
                                ),
                        decreases set@.len() - q,
                    {
                        let req = set[q];
                        let total = total_count_exec(p, s, i, req, b.time_scope);
                        let running = running_count_exec(p, s, i, req, b.time_scope);
                        let current_is_req: u128 = if req == p.activities[e.act_idx].id {
                            1
                        } else {
                            0
                        };
                        let future_ok = (total as u128) > (running as u128) + current_is_req;
                        proof {
                            assert(future_ok == req_future_met(
                                *p,
                                s@,
                                i as int,
                                set@[q as int] as int,
                                b.time_scope,
                            ));
                        }
                        if !future_ok {
                            all = false;
                        }
                        q += 1;
                    }
                    if all {
                        met = true;
                        proof {
                            assert(out_set_met(
                                *p,
                                s@,
                                i as int,
                                b.required_sets@[m as int]@,
                                b.time_scope,
                            ));
                        }
                    }
                }
                m += 1;
            }
            proof {
                assert(met == binding_met_out(*p, s@, i as int, *b));
            }
            if !met {
                proof {
                    assert(0 <= b.weight <= MAX_WEIGHT);
                }
                r += b.weight as u64;
            }
        }
        k += 1;
    }
    r
}

/// Sequential sweep over the sorted schedule: forbidden zones, overlaps,
/// sequencing rewards and both binding directions.
fn sweep_pass(p: &Problem, s: &Vec<ScheduledItem>, markov: &MarkovLookup) -> (r: (u128, u128))
    requires
        p.wf(),
        events_wf(*p, s@),
        s@.len() <= MAX_EVENTS,
        markov.entries@ == p.markov_matrix@,
    ensures
        r.0 == sweep_score_upto(*p, s@, s@.len() as int),
        r.1 == sweep_pen_upto(*p, s@, s@.len() as int),
        r.0 <= s@.len() * 10_000_000_000,
        r.1 <= s@.len() * 300_000_000_000_000,
{
    let mut score: u128 = 0;
    let mut pen: u128 = 0;
    let mut i: usize = 0;
    while i < s.len()
        invariant
            p.wf(),
            events_wf(*p, s@),
            s@.len() <= MAX_EVENTS,
            markov.entries@ == p.markov_matrix@,
            i <= s@.len(),
            score == sweep_score_upto(*p, s@, i as int),
            pen == sweep_pen_upto(*p, s@, i as int),
            score <= i * 10_000_000_000,
            pen <= i * 300_000_000_000_000,
        decreases s@.len() - i,
    {
        let e = s[i];
        let zp = zone_penalty(p, &e);
        let mut step_pen: u64 = zp;
        let mut step_score: i64 = 0;
        if i > 0 {
            let prev = s[i - 1];
            let prev_end = prev.start as u32 + p.activities[prev.act_idx].duration_slots as u32;
            if (e.start as u32) < prev_end {
                step_pen += PENALTY_OVERLAP as u64;
            } else if e.start as u32 - prev_end <= MARKOV_GAP_TOLERANCE as u32 {
                let prev_id = p.activities[prev.act_idx].id;
                let curr_id = p.activities[e.act_idx].id;
                match markov.get(prev_id, curr_id) {
                    Some(w) => {
                        proof {
                            lemma_markov_lookup_bound(
                                p.markov_matrix@,
                                ev_id(*p, s@[i - 1]),
                                ev_id(*p, s@[i as int]),
                            );
                        }
                        step_score = w * WEIGHT_MARKOV / WEIGHT_SCALE;
                    },
                    None => {},
                }
            }
        }
        proof {
            assert(step_score == markov_term(*p, s@, i as int));
            assert(0 <= step_score <= 10_000_000_000);
        }
        let ip = input_binding_penalty(p, s, i);
        let op = output_binding_penalty(p, s, i);
        step_pen += ip;
        step_pen += op;
        proof {
            assert(step_pen == zone_pen(*p, s@[i as int]) + overlap_pen(*p, s@, i as int)
                + input_pen(*p, s@, i as int) + output_pen(*p, s@, i as int));
            assert(step_pen <= 300_000_000_000_000);
        }
        score += step_score as u128;
        pen += step_pen as u128;
        i += 1;
    }
    (score, pen)
}

/// Every reward the evaluator grants a chromosome: registration rewards
/// in gene order, the per-sentinel stability reward, sequencing rewards
/// over the sorted sweep, and soft frequency-target rewards.
pub open spec fn fitness_reward(p: Problem, slots: Seq<TimeSlot>, genes: Seq<u16>) -> int {
    let es = all_events(p, slots, genes);
    let s = sort_by_start(es);
    reg_score_upto(p, es, es.len() as int) + REWARD_NO_ACTIVITY * sentinel_count(
        p,
        genes,
        genes_read(slots, genes),
    ) + sweep_score_upto(p, s, s.len() as int) + ft_score_upto(p, s, p.activities@.len() as int)
}

/// Every penalty the evaluator charges: horizon overruns, forbidden
/// zones, overlaps, unmet bindings, frequency overshoots, user frequency
/// constraints and cumulative-time constraints.
pub open spec fn fitness_penalty(p: Problem, slots: Seq<TimeSlot>, genes: Seq<u16>) -> int {
    let es = all_events(p, slots, genes);
    let s = sort_by_start(es);
    reg_pen_upto(p, es, es.len() as int) + sweep_pen_upto(p, s, s.len() as int) + ft_pen_upto(
        p,
        s,
        p.activities@.len() as int,
    ) + uf_pen_upto(p, s, p.activities@.len() as int) + cum_pen_upto(
        p,
        s,
        p.global_constraints@.len() as int,
    )
}

/// The fitness of a chromosome: rewards minus penalties, truncated from
/// hundredths to whole score units (toward zero). Higher is better.
pub open spec fn fitness_spec(p: Problem, slots: Seq<TimeSlot>, genes: Seq<u16>) -> int {
    let reward = fitness_reward(p, slots, genes);
    let penalty = fitness_penalty(p, slots, genes);
    if reward >= penalty {
        (reward - penalty) / (WEIGHT_SCALE as int)
    } else {
        -((penalty - reward) / (WEIGHT_SCALE as int))
    }
}

/// The fitness evaluator: a problem, its candidate start slots, the
/// no-activity sentinel allele, and the two prebuilt lookup tables.
#[derive(Clone, Debug)]
pub struct DiemFitness {
    pub problem: Problem,
    pub candidate_start_slots: Vec<TimeSlot>,
    pub no_activity_allele: u16,
    pub heatmap_lookup: HeatmapLookup,
    pub markov_lookup: MarkovLookup,
}

impl DiemFitness {
    /// The evaluator is usable: the problem is well-formed, the candidate
    /// list has at most one entry per possible slot, the sentinel matches
    /// the floating count and the lookup tables mirror the problem.
    pub open spec fn wf(self) -> bool {
        &&& self.problem.wf()
        &&& self.candidate_start_slots@.len() <= 0x10000
        &&& self.no_activity_allele == self.problem.sentinel_allele()
        &&& self.heatmap_lookup.entries@ == self.problem.heatmap@
        &&& self.markov_lookup.entries@ == self.problem.markov_matrix@
    }

    /// Build the evaluator for a problem and its candidate start slots.
    pub fn new(problem: Problem, candidate_start_slots: Vec<TimeSlot>) -> (r: DiemFitness)
        requires
            problem.wf(),
            candidate_start_slots@.len() <= 0x10000,
        ensures
            r.wf(),
            r.problem == problem,
            r.candidate_start_slots == candidate_start_slots,
    {
        let no_activity_allele: u16 = if problem.floating_indices.len() <= u16::MAX as usize {
            problem.floating_indices.len() as u16
        } else {
            u16::MAX
        };
        let (heatmap_lookup, markov_lookup) = problem.build_lookup_maps();
        DiemFitness {
            problem,
            candidate_start_slots,
            no_activity_allele,
            heatmap_lookup,
            markov_lookup,
        }
    }

    /// Score a chromosome: decode it against the candidate slots, add the
    /// fixed activities, and run every scoring pass. Returns the exact
    /// fixed-point fitness, truncated to whole score units.
    pub fn calculate_for_chromosome(&self, genes: &Vec<u16>) -> (r: Option<i128>)
        requires
            self.wf(),
        ensures
            r matches Some(v) && v as int == fitness_spec(
                self.problem,
                self.candidate_start_slots@,
                genes@,
            ),
    {
        let p = &self.problem;
        let (mut items, sentinels) = decode_events(p, &self.candidate_start_slots, genes);
        proof {
            lemma_all_events_wf(*p, self.candidate_start_slots@, genes@);
            assert(items@.len() <= MAX_EVENTS);
        }
        let (reg_score, reg_pen) = registration_pass(p, &items, &self.heatmap_lookup);
        let ghost es = items@;
        sort_events(&mut items);
        proof {
            lemma_sort_wf(*p, es);
        }
        let (sweep_score, sweep_pen) = sweep_pass(p, &items, &self.markov_lookup);
        let (ft_score, ft_pen) = frequency_target_pass(p, &items);
        let uf_pen = user_frequency_pass(p, &items);
        let cum_pen = cumulative_pass(p, &items);
        let reward: u128 = reg_score + (sentinels as u128) * (REWARD_NO_ACTIVITY as u128)
            + sweep_score + ft_score;
        let penalty: u128 = reg_pen + sweep_pen + ft_pen + uf_pen + cum_pen;
        proof {
            assert(reward as int == fitness_reward(
                self.problem,
                self.candidate_start_slots@,
                genes@,
            ));
            assert(penalty as int == fitness_penalty(
                self.problem,
                self.candidate_start_slots@,
                genes@,
            ));
        }
        let result: i128 = if reward >= penalty {
            ((reward - penalty) / (WEIGHT_SCALE as u128)) as i128
        } else {
            -(((penalty - reward) / (WEIGHT_SCALE as u128)) as i128)
        };
        Some(result)
    }
}

} // verus!
