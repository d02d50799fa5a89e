use crate::counts::{
    count_id_day_deadline_upto, count_id_deadline_upto, count_id_upto, count_id_week_deadline_upto,
};
use crate::events::{
    ScheduledItem, all_events, ev_capped_end, ev_end, ev_id, ev_weekday, events_wf, fixed_events,
    gene_events, genes_read, sentinel_count, sort_by_start,
};
use crate::freq::{
    cum_applies, cum_bucket_term, cum_buckets_upto, cum_pen_upto, ft_act_pen_upto,
    ft_act_score_upto, ft_day_pen_upto, ft_day_score_upto, ft_pen_upto, ft_score_upto,
    ft_week_pen_upto, ft_week_score_upto, uf_act_upto, uf_day_upto, uf_pen_upto, uf_week_upto,
};
use crate::types::{GlobalConstraint, TimeSlot, UserFrequencyConstraint};
use crate::fitness::{
    MARKOV_GAP_TOLERANCE, PENALTY_OVERLAP, REWARD_NO_ACTIVITY, WEIGHT_MARKOV, WEIGHT_PRIORITY,
    decay_multiplier, fitness_spec, input_pen_upto, lemma_decay_multiplier_bounds, markov_term,
    output_pen_upto, overlap_pen, reg_score_upto, repeat_reward_term, repeat_reward_total,
    sweep_pen_upto, weekday_enabled, zone_pen_upto,
};
use crate::types::WEIGHT_SCALE;
use crate::lookup::markov_lookup;
use crate::types::Problem;
use vstd::prelude::*;

verus! {


/// A user frequency constraint that demands no minimum count.
pub open spec fn no_minimum(c: UserFrequencyConstraint) -> bool {
    match c.min_count {
        Some(mn) => mn == 0,
        None => true,
    }
}

/// A cumulative constraint that owes nothing on an empty schedule: either
/// periodic (empty buckets pay nothing), inapplicable, or with a zero
/// deadline minimum.
pub open spec fn no_empty_obligation(p: Problem, gc: GlobalConstraint) -> bool {
    match gc {
        GlobalConstraint::ForbiddenZone { .. } => true,
        GlobalConstraint::CumulativeTime { activity_id, category_id, min_duration, deadline_end, .. } => {
            match deadline_end {
                Some(_) => min_duration == 0 || !cum_applies(p, activity_id, category_id),
                None => true,
            }
        },
    }
}

proof fn lemma_ft_zero_on_empty(p: Problem, s: Seq<ScheduledItem>, n: int)
    requires
        s.len() == 0,
        0 <= n <= p.activities@.len(),
    ensures
        ft_score_upto(p, s, n) == 0,
        ft_pen_upto(p, s, n) == 0,
    decreases n,
{
    if n > 0 {
        lemma_ft_zero_on_empty(p, s, n - 1);
        lemma_ft_act_zero_on_empty(p, s, n - 1, p.activities@[n - 1].frequency_targets@.len() as int);
    }
}

proof fn lemma_ft_act_zero_on_empty(p: Problem, s: Seq<ScheduledItem>, ai: int, k: int)
    requires
        s.len() == 0,
        0 <= ai < p.activities@.len(),
        0 <= k <= p.activities@[ai].frequency_targets@.len(),
    ensures
        ft_act_score_upto(p, s, ai, k) == 0,
        ft_act_pen_upto(p, s, ai, k) == 0,
    decreases k,
{
    if k > 0 {
        lemma_ft_act_zero_on_empty(p, s, ai, k - 1);
        let t = p.activities@[ai].frequency_targets@[k - 1];
        let id = p.activities@[ai].id as int;
        lemma_ft_day_zero_on_empty(p, s, id, t, p.num_days());
        lemma_ft_week_zero_on_empty(p, s, id, t, p.num_weeks());
        assert(count_id_upto(p, s, s.len() as int, id) == 0);
        if t.target_count != 0 {
            assert(t.weight * 0int == 0) by (nonlinear_arith);
            assert(t.weight * 0int / (t.target_count as int) == 0);
        }
    }
}

proof fn lemma_ft_day_zero_on_empty(
    p: Problem,
    s: Seq<ScheduledItem>,
    id: int,
    t: crate::types::FrequencyTarget,
    d: int,
)
    requires
        s.len() == 0,
        0 <= d,
    ensures
        ft_day_score_upto(p, s, id, t, d) == 0,
        ft_day_pen_upto(p, s, id, t, d) == 0,
    decreases d,
{
    if d > 0 {
        lemma_ft_day_zero_on_empty(p, s, id, t, d - 1);
    }
}

proof fn lemma_ft_week_zero_on_empty(
    p: Problem,
    s: Seq<ScheduledItem>,
    id: int,
    t: crate::types::FrequencyTarget,
    w: int,
)
    requires
        s.len() == 0,
        0 <= w,
    ensures
        ft_week_score_upto(p, s, id, t, w) == 0,
        ft_week_pen_upto(p, s, id, t, w) == 0,
    decreases w,
{
    if w > 0 {
        lemma_ft_week_zero_on_empty(p, s, id, t, w - 1);
    }
}

proof fn lemma_uf_zero_on_empty(p: Problem, s: Seq<ScheduledItem>, n: int)
    requires
        s.len() == 0,
        0 <= n <= p.activities@.len(),
        forall|i: int, j: int|
            0 <= i < p.activities@.len() && 0 <= j
                < p.activities@[i].user_frequency_constraints@.len() ==> no_minimum(
                #[trigger] p.activities@[i].user_frequency_constraints@[j],
            ),
    ensures
        uf_pen_upto(p, s, n) == 0,
    decreases n,
{
    if n > 0 {
        lemma_uf_zero_on_empty(p, s, n - 1);
        lemma_uf_act_zero_on_empty(
            p,
            s,
            n - 1,
            p.activities@[n - 1].user_frequency_constraints@.len() as int,
        );
    }
}

proof fn lemma_uf_act_zero_on_empty(p: Problem, s: Seq<ScheduledItem>, ai: int, k: int)
    requires
        s.len() == 0,
        0 <= ai < p.activities@.len(),
        0 <= k <= p.activities@[ai].user_frequency_constraints@.len(),
        forall|j: int|
            0 <= j < p.activities@[ai].user_frequency_constraints@.len() ==> no_minimum(
                #[trigger] p.activities@[ai].user_frequency_constraints@[j],
            ),
    ensures
        uf_act_upto(p, s, ai, k) == 0,
    decreases k,
{
    if k > 0 {
        lemma_uf_act_zero_on_empty(p, s, ai, k - 1);
        let c = p.activities@[ai].user_frequency_constraints@[k - 1];
        let id = p.activities@[ai].id as int;
        lemma_uf_day_zero_on_empty(p, s, id, c, p.num_days());
        lemma_uf_week_zero_on_empty(p, s, id, c, p.num_weeks());
    }
}

proof fn lemma_uf_day_zero_on_empty(
    p: Problem,
    s: Seq<ScheduledItem>,
    id: int,
    c: UserFrequencyConstraint,
    d: int,
)
    requires
        s.len() == 0,
        no_minimum(c),
        0 <= d,
    ensures
        uf_day_upto(p, s, id, c, d) == 0,
    decreases d,
{
    if d > 0 {
        lemma_uf_day_zero_on_empty(p, s, id, c, d - 1);
    }
}

proof fn lemma_uf_week_zero_on_empty(
    p: Problem,
    s: Seq<ScheduledItem>,
    id: int,
    c: UserFrequencyConstraint,
    w: int,
)
    requires
        s.len() == 0,
        no_minimum(c),
        0 <= w,
    ensures
        uf_week_upto(p, s, id, c, w) == 0,
    decreases w,
{
    if w > 0 {
        lemma_uf_week_zero_on_empty(p, s, id, c, w - 1);
    }
}

proof fn lemma_cum_zero_on_empty(p: Problem, s: Seq<ScheduledItem>, k: int)
    requires
        s.len() == 0,
        0 <= k <= p.global_constraints@.len(),
        forall|i: int|
            0 <= i < p.global_constraints@.len() ==> no_empty_obligation(
                p,
                #[trigger] p.global_constraints@[i],
            ),
    ensures
        cum_pen_upto(p, s, k) == 0,
    decreases k,
{
    if k > 0 {
        lemma_cum_zero_on_empty(p, s, k - 1);
        match p.global_constraints@[k - 1] {
            GlobalConstraint::ForbiddenZone { .. } => {},
            GlobalConstraint::CumulativeTime {
                activity_id,
                category_id,
                period_slots,
                min_duration,
                max_duration,
                deadline_end,
            } => {
                if deadline_end is None {
                    lemma_cum_buckets_zero_on_empty(
                        p,
                        s,
                        crate::freq::cum_selector(activity_id, category_id),
                        period_slots as int,
                        min_duration as int,
                        max_duration as int,
                        crate::freq::num_buckets(period_slots as int, p.total_slots as int),
                    );
                }
            },
        }
    }
}

proof fn lemma_cum_buckets_zero_on_empty(
    p: Problem,
    s: Seq<ScheduledItem>,
    sel: crate::counts::CumulativeSelector,
    period: int,
    mn: int,
    mx: int,
    b: int,
)
    requires
        s.len() == 0,
    ensures
        cum_buckets_upto(p, s, sel, period, mn, mx, b) == 0,
    decreases b,
{
    if b > 0 {
        lemma_cum_buckets_zero_on_empty(p, s, sel, period, mn, mx, b - 1);
        assert(cum_bucket_term(p, s, sel, period, mn, mx, b - 1) == 0);
    }
}

proof fn lemma_all_sentinel_genes_empty(p: Problem, slots: Seq<TimeSlot>, genes: Seq<u16>, n: int)
    requires
        0 <= n,
        forall|g: int| 0 <= g < n ==> genes[g] == p.sentinel_allele(),
    ensures
        gene_events(p, slots, genes, n).len() == 0,
        sentinel_count(p, genes, n) == n,
    decreases n,
{
    if n > 0 {
        lemma_all_sentinel_genes_empty(p, slots, genes, n - 1);
    }
}

/// Sentinel reward: on a problem with no fixed activities, no minimum
/// user-frequency counts and no deadline-gated cumulative minimums, a
/// chromosome of sentinels scores exactly one hundredth per gene read —
/// positive before truncation, and positive as a whole unit from one
/// hundred candidate slots on.
pub proof fn lemma_all_sentinel_score(p: Problem, slots: Seq<TimeSlot>, genes: Seq<u16>)
    requires
        p.fixed_indices@.len() == 0,
        forall|g: int| 0 <= g < genes_read(slots, genes) ==> genes[g] == p.sentinel_allele(),
        forall|i: int, j: int|
            0 <= i < p.activities@.len() && 0 <= j
                < p.activities@[i].user_frequency_constraints@.len() ==> no_minimum(
                #[trigger] p.activities@[i].user_frequency_constraints@[j],
            ),
        forall|i: int|
            0 <= i < p.global_constraints@.len() ==> no_empty_obligation(
                p,
                #[trigger] p.global_constraints@[i],
            ),
    ensures
        fitness_spec(p, slots, genes) == REWARD_NO_ACTIVITY * genes_read(slots, genes) / 100,
{
    let n = genes_read(slots, genes);
    lemma_all_sentinel_genes_empty(p, slots, genes, n);
    let es = all_events(p, slots, genes);
    assert(fixed_events(p, 0) =~= Seq::<ScheduledItem>::empty());
    assert(es.len() == 0);
    let s = sort_by_start(es);
    assert(s.len() == 0);
    lemma_ft_zero_on_empty(p, s, p.activities@.len() as int);
    lemma_uf_zero_on_empty(p, s, p.activities@.len() as int);
    lemma_cum_zero_on_empty(p, s, p.global_constraints@.len() as int);
}

/// Priority diminishing returns: while the decayed multiplier is still
/// positive and the priority is at least a tenth of a score unit, every
/// further occurrence strictly raises the total priority reward, and the
/// marginal reward of an occurrence is strictly below its predecessor's.
pub proof fn lemma_priority_diminishing_returns(priority: i64, n: nat)
    requires
        10 <= priority,
        1 <= n,
        decay_multiplier((n - 1) as nat) >= 1,
    ensures
        repeat_reward_total(priority, n) > repeat_reward_total(priority, (n - 1) as nat),
        n >= 2 ==> repeat_reward_term(priority, (n - 1) as nat) < repeat_reward_term(
            priority,
            (n - 2) as nat,
        ),
{
    let p10 = priority * WEIGHT_PRIORITY / WEIGHT_SCALE as int;
    assert(p10 == priority * 10) by (nonlinear_arith)
        requires
            priority >= 10,
            WEIGHT_PRIORITY == 1_000i64,
            WEIGHT_SCALE == 100i64,
            p10 == priority * WEIGHT_PRIORITY / WEIGHT_SCALE as int,
    ;
    assert(p10 >= 100);
    let m1 = decay_multiplier((n - 1) as nat);
    lemma_decay_multiplier_bounds((n - 1) as nat);
    assert(p10 * m1 >= 100) by (nonlinear_arith)
        requires
            p10 >= 100,
            m1 >= 1,
    ;
    assert(p10 * m1 / 100 >= 1) by (nonlinear_arith)
        requires
            p10 * m1 >= 100,
    ;
    assert(repeat_reward_term(priority, (n - 1) as nat) >= 1);
    if n >= 2 {
        let m0 = decay_multiplier((n - 2) as nat);
        lemma_decay_multiplier_bounds((n - 2) as nat);
        assert(m1 == m0 * 65 / 100);
        assert(m0 >= 1) by (nonlinear_arith)
            requires
                m1 == m0 * 65 / 100,
                m1 >= 1,
                m0 >= 0,
        ;
        assert(m1 <= m0 - 1) by (nonlinear_arith)
            requires
                m1 == m0 * 65 / 100,
                1 <= m0 <= 100,
        ;
        assert(p10 * m1 + 100 <= p10 * m0) by (nonlinear_arith)
            requires
                m1 <= m0 - 1,
                p10 >= 100,
        ;
        assert(p10 * m1 / 100 < p10 * m0 / 100) by (nonlinear_arith)
            requires
                p10 * m1 + 100 <= p10 * m0,
                p10 * m1 >= 0,
        ;
    }
}

proof fn lemma_count_uniform(p: Problem, es: Seq<ScheduledItem>, n: int, ai: usize)
    requires
        0 <= n <= es.len(),
        ai < p.activities@.len(),
        forall|j: int| 0 <= j < es.len() ==> (#[trigger] es[j]).act_idx == ai,
    ensures
        count_id_upto(p, es, n, p.activities@[ai as int].id as int) == n,
    decreases n,
{
    if n > 0 {
        lemma_count_uniform(p, es, n - 1, ai);
    }
}

/// The registration score of a schedule of `n` occurrences of one
/// activity, on a problem without heatmap entries, is exactly the decayed
/// repeat-reward total of that activity's priority: the ground the
/// diminishing-returns law stands on.
pub proof fn lemma_uniform_schedule_reward(p: Problem, es: Seq<ScheduledItem>, n: int, ai: usize)
    requires
        0 <= n <= es.len(),
        ai < p.activities@.len(),
        forall|j: int| 0 <= j < es.len() ==> (#[trigger] es[j]).act_idx == ai,
        p.heatmap@.len() == 0,
    ensures
        reg_score_upto(p, es, n) == repeat_reward_total(p.activities@[ai as int].priority, n as nat),
    decreases n,
{
    if n > 0 {
        lemma_uniform_schedule_reward(p, es, n - 1, ai);
        lemma_count_uniform(p, es, n - 1, ai);
    }
}

/// Weekday-mask neutrality for input bindings: a binding whose mask
/// excludes the item's weekday contributes nothing to the penalty sum,
/// whatever its DNF would say.
pub proof fn lemma_weekday_mask_neutral_input(p: Problem, s: Seq<ScheduledItem>, i: int, k: int)
    requires
        0 <= i < s.len(),
        0 <= k < p.activities@[s[i].act_idx as int].input_bindings@.len(),
        !weekday_enabled(
            p.activities@[s[i].act_idx as int].input_bindings@[k].valid_weekdays,
            ev_weekday(s[i]) as u8,
        ),
    ensures
        input_pen_upto(p, s, i, k + 1) == input_pen_upto(p, s, i, k),
{
}

/// Weekday-mask neutrality for output bindings.
pub proof fn lemma_weekday_mask_neutral_output(p: Problem, s: Seq<ScheduledItem>, i: int, k: int)
    requires
        0 <= i < s.len(),
        0 <= k < p.activities@[s[i].act_idx as int].output_bindings@.len(),
        !weekday_enabled(
            p.activities@[s[i].act_idx as int].output_bindings@[k].valid_weekdays,
            ev_weekday(s[i]) as u8,
        ),
    ensures
        output_pen_upto(p, s, i, k + 1) == output_pen_upto(p, s, i, k),
{
}

/// Markov gap cutoff: the sequencing reward of the `i`-th sorted item is
/// non-zero only when the gap to its predecessor lies in
/// `[0, MARKOV_GAP_TOLERANCE]`, and inside that window it equals exactly
/// the weighted matrix entry for the pair of ids.
pub proof fn lemma_markov_gap_cutoff(p: Problem, s: Seq<ScheduledItem>, i: int)
    requires
        0 < i < s.len(),
    ensures
        markov_term(p, s, i) != 0 ==> 0 <= s[i].start - ev_end(p, s[i - 1])
            <= MARKOV_GAP_TOLERANCE,
        (0 <= s[i].start - ev_end(p, s[i - 1]) <= MARKOV_GAP_TOLERANCE) ==> markov_term(p, s, i)
            == (match markov_lookup(p.markov_matrix@, ev_id(p, s[i - 1]), ev_id(p, s[i])) {
            Some(w) => w * WEIGHT_MARKOV / WEIGHT_SCALE as int,
            None => 0,
        }),
{
}

proof fn lemma_count_id_deadline_push(
    p: Problem,
    es: Seq<ScheduledItem>,
    e: ScheduledItem,
    n: int,
    id: int,
    dl: int,
)
    requires
        0 <= n <= es.len(),
    ensures
        count_id_deadline_upto(p, es.push(e), n, id, dl) == count_id_deadline_upto(
            p,
            es,
            n,
            id,
            dl,
        ),
    decreases n,
{
    if n > 0 {
        lemma_count_id_deadline_push(p, es, e, n - 1, id, dl);
        assert(es.push(e)[n - 1] == es[n - 1]);
    }
}

proof fn lemma_count_id_day_deadline_push(
    p: Problem,
    es: Seq<ScheduledItem>,
    e: ScheduledItem,
    n: int,
    id: int,
    day: int,
    dl: int,
)
    requires
        0 <= n <= es.len(),
    ensures
        count_id_day_deadline_upto(p, es.push(e), n, id, day, dl) == count_id_day_deadline_upto(
            p,
            es,
            n,
            id,
            day,
            dl,
        ),
    decreases n,
{
    if n > 0 {
        lemma_count_id_day_deadline_push(p, es, e, n - 1, id, day, dl);
        assert(es.push(e)[n - 1] == es[n - 1]);
    }
}

proof fn lemma_count_id_week_deadline_push(
    p: Problem,
    es: Seq<ScheduledItem>,
    e: ScheduledItem,
    n: int,
    id: int,
    week: int,
    dl: int,
)
    requires
        0 <= n <= es.len(),
    ensures
        count_id_week_deadline_upto(p, es.push(e), n, id, week, dl) == count_id_week_deadline_upto(
            p,
            es,
            n,
            id,
            week,
            dl,
        ),
    decreases n,
{
    if n > 0 {
        lemma_count_id_week_deadline_push(p, es, e, n - 1, id, week, dl);
        assert(es.push(e)[n - 1] == es[n - 1]);
    }
}

proof fn lemma_zone_pen_nonneg(p: Problem, e: ScheduledItem, k: int)
    ensures
        zone_pen_upto(p, e, k) >= 0,
    decreases k,
{
    if k > 0 {
        lemma_zone_pen_nonneg(p, e, k - 1);
    }
}

proof fn lemma_input_pen_nonneg(p: Problem, s: Seq<ScheduledItem>, i: int, k: int)
    requires
        p.wf(),
        events_wf(p, s),
        0 <= i < s.len(),
        k <= p.activities@[s[i].act_idx as int].input_bindings@.len(),
    ensures
        input_pen_upto(p, s, i, k) >= 0,
    decreases k,
{
    if k > 0 {
        lemma_input_pen_nonneg(p, s, i, k - 1);
        assert(s[i].act_idx < p.activities@.len());
        assert(p.activities@[s[i].act_idx as int].wf());
        assert(p.activities@[s[i].act_idx as int].input_bindings@[k - 1].wf());
    }
}

proof fn lemma_output_pen_nonneg(p: Problem, s: Seq<ScheduledItem>, i: int, k: int)
    requires
        p.wf(),
        events_wf(p, s),
        0 <= i < s.len(),
        k <= p.activities@[s[i].act_idx as int].output_bindings@.len(),
    ensures
        output_pen_upto(p, s, i, k) >= 0,
    decreases k,
{
    if k > 0 {
        lemma_output_pen_nonneg(p, s, i, k - 1);
        assert(s[i].act_idx < p.activities@.len());
        assert(p.activities@[s[i].act_idx as int].wf());
        assert(p.activities@[s[i].act_idx as int].output_bindings@[k - 1].wf());
    }
}

/// On a well-formed problem no sweep step credits the penalty side: the
/// penalty sum of the sorted sweep never shrinks as items are added.
pub proof fn lemma_sweep_pen_monotone(p: Problem, s: Seq<ScheduledItem>, n: int)
    requires
        p.wf(),
        events_wf(p, s),
        0 <= n <= s.len(),
    ensures
        sweep_pen_upto(p, s, n) >= 0,
        forall|i: int|
            0 <= i < n ==> sweep_pen_upto(p, s, n) >= sweep_pen_upto(p, s, i + 1)
                && sweep_pen_upto(p, s, i + 1) >= sweep_pen_upto(p, s, i) + overlap_pen(p, s, i),
    decreases n,
{
    if n > 0 {
        lemma_sweep_pen_monotone(p, s, n - 1);
        lemma_zone_pen_nonneg(p, s[n - 1], p.global_constraints@.len() as int);
        lemma_input_pen_nonneg(
            p,
            s,
            n - 1,
            p.activities@[s[n - 1].act_idx as int].input_bindings@.len() as int,
        );
        lemma_output_pen_nonneg(
            p,
            s,
            n - 1,
            p.activities@[s[n - 1].act_idx as int].output_bindings@.len() as int,
        );
    }
}

/// Overlap charging: each item of the sorted sweep that starts before its
/// predecessor ends charges at least the full overlap penalty to the
/// chromosome's penalty side, whatever else the schedule contains.
pub proof fn lemma_overlap_is_charged(p: Problem, s: Seq<ScheduledItem>, i: int)
    requires
        p.wf(),
        events_wf(p, s),
        0 < i < s.len(),
        s[i].start < ev_end(p, s[i - 1]),
    ensures
        sweep_pen_upto(p, s, s.len() as int) >= PENALTY_OVERLAP,
{
    lemma_sweep_pen_monotone(p, s, s.len() as int);
    assert(overlap_pen(p, s, i) == PENALTY_OVERLAP as int);
    assert(sweep_pen_upto(p, s, s.len() as int) >= sweep_pen_upto(p, s, i + 1));
    assert(sweep_pen_upto(p, s, i + 1) >= sweep_pen_upto(p, s, i) + overlap_pen(p, s, i));
    assert(sweep_pen_upto(p, s, i) >= 0) by {
        lemma_sweep_pen_monotone(p, s, i);
    }
}

/// Deadline frequency: an occurrence whose clamped end falls after the
/// deadline adds nothing to any deadline-gated count, in every scope.
pub proof fn lemma_deadline_excludes_late(
    p: Problem,
    es: Seq<ScheduledItem>,
    e: ScheduledItem,
    id: int,
    day: int,
    week: int,
    dl: int,
)
    requires
        ev_capped_end(p, e) > dl,
    ensures
        count_id_deadline_upto(p, es.push(e), es.len() as int + 1, id, dl) == count_id_deadline_upto(
            p,
            es,
            es.len() as int,
            id,
            dl,
        ),
        count_id_day_deadline_upto(p, es.push(e), es.len() as int + 1, id, day, dl)
            == count_id_day_deadline_upto(p, es, es.len() as int, id, day, dl),
        count_id_week_deadline_upto(p, es.push(e), es.len() as int + 1, id, week, dl)
            == count_id_week_deadline_upto(p, es, es.len() as int, id, week, dl),
{
    let n = es.len() as int;
    assert(es.push(e)[n] == e);
    lemma_count_id_deadline_push(p, es, e, n, id, dl);
    lemma_count_id_day_deadline_push(p, es, e, n, id, day, dl);
    lemma_count_id_week_deadline_push(p, es, e, n, id, week, dl);
}

} // verus!
