use crate::counts::{
    CumulativeSelector, bucket_count_upto, bucket_dur_upto, bucket_stats, count_id, count_id_day,
    count_id_day_deadline, count_id_day_deadline_upto, count_id_day_upto, count_id_deadline,
    count_id_deadline_upto, count_id_upto, count_id_week, count_id_week_deadline,
    count_id_week_deadline_upto, count_id_week_upto, dur_sum_deadline, dur_sum_deadline_upto,
};
use crate::events::{ScheduledItem, events_wf};
use crate::fitness::{FREQUENCY_OVERSHOOT_MULTIPLIER, MAX_EVENTS, PENALTY_CUMULATIVE};
use crate::types::{
    FrequencyTarget, GlobalConstraint, MAX_LIST_LEN, MAX_WEIGHT, Problem, SLOTS_PER_DAY,
    SLOTS_PER_WEEK, TimeScope, UserFrequencyConstraint,
};
use vstd::prelude::*;

verus! {

/// Reward of a soft frequency target for one bucket: proportional to
/// coverage up to the target count. A zero target rewards nothing.
pub open spec fn ft_reward(t: FrequencyTarget, actual: int) -> int {
    if t.target_count == 0 {
        0
    } else {
        t.weight * (if actual <= t.target_count {
            actual
        } else {
            t.target_count as int
        }) / (t.target_count as int)
    }
}

/// Overshoot penalty for a daily bucket: full weight per excess occurrence.
pub open spec fn ft_overshoot_day(t: FrequencyTarget, actual: int) -> int {
    if actual > t.target_count {
        t.weight * FREQUENCY_OVERSHOOT_MULTIPLIER as int * (actual - t.target_count)
    } else {
        0
    }
}

/// Overshoot penalty for a weekly bucket: excess normalized per day.
pub open spec fn ft_overshoot_week(t: FrequencyTarget, actual: int) -> int {
    if actual > t.target_count {
        t.weight * FREQUENCY_OVERSHOOT_MULTIPLIER as int * (actual - t.target_count) / 7
    } else {
        0
    }
}

/// Overshoot penalty for the monthly bucket: excess normalized by the
/// horizon length in days (at least one day).
pub open spec fn ft_overshoot_month(p: Problem, t: FrequencyTarget, actual: int) -> int {
    if actual > t.target_count {
        let excess = actual - t.target_count;
        if p.total_slots >= SLOTS_PER_DAY {
            t.weight * FREQUENCY_OVERSHOOT_MULTIPLIER as int * excess * SLOTS_PER_DAY as int
                / p.total_slots as int
        } else {
            t.weight * FREQUENCY_OVERSHOOT_MULTIPLIER as int * excess
        }
    } else {
        0
    }
}

/// Rewards of a daily target over day buckets `0..d`.
pub open spec fn ft_day_score_upto(
    p: Problem,
    s: Seq<ScheduledItem>,
    id: int,
    t: FrequencyTarget,
    d: int,
) -> int
    decreases d,
{
    if d <= 0 {
        0
    } else {
        ft_day_score_upto(p, s, id, t, d - 1) + ft_reward(
            t,
            count_id_day_upto(p, s, s.len() as int, id, d - 1),
        )
    }
}

pub open spec fn ft_day_pen_upto(
    p: Problem,
    s: Seq<ScheduledItem>,
    id: int,
    t: FrequencyTarget,
    d: int,
) -> int
    decreases d,
{
    if d <= 0 {
        0
    } else {
        ft_day_pen_upto(p, s, id, t, d - 1) + ft_overshoot_day(
            t,
            count_id_day_upto(p, s, s.len() as int, id, d - 1),
        )
    }
}

pub open spec fn ft_week_score_upto(
    p: Problem,
    s: Seq<ScheduledItem>,
    id: int,
    t: FrequencyTarget,
    w: int,
) -> int
    decreases w,
{
    if w <= 0 {
        0
    } else {
        ft_week_score_upto(p, s, id, t, w - 1) + ft_reward(
            t,
            count_id_week_upto(p, s, s.len() as int, id, w - 1),
        )
    }
}

pub open spec fn ft_week_pen_upto(
    p: Problem,
    s: Seq<ScheduledItem>,
    id: int,
    t: FrequencyTarget,
    w: int,
) -> int
    decreases w,
{
    if w <= 0 {
        0
    } else {
        ft_week_pen_upto(p, s, id, t, w - 1) + ft_overshoot_week(
            t,
            count_id_week_upto(p, s, s.len() as int, id, w - 1),
        )
    }
}

/// Reward of one target over every bucket of its scope.
pub open spec fn ft_target_score(
    p: Problem,
    s: Seq<ScheduledItem>,
    id: int,
    t: FrequencyTarget,
) -> int {
    match t.scope {
        TimeScope::SameDay => ft_day_score_upto(p, s, id, t, p.num_days()),
        TimeScope::SameWeek => ft_week_score_upto(p, s, id, t, p.num_weeks()),
        TimeScope::SameMonth => ft_reward(t, count_id_upto(p, s, s.len() as int, id)),
    }
}

pub open spec fn ft_target_pen(
    p: Problem,
    s: Seq<ScheduledItem>,
    id: int,
    t: FrequencyTarget,
) -> int {
    match t.scope {
        TimeScope::SameDay => ft_day_pen_upto(p, s, id, t, p.num_days()),
        TimeScope::SameWeek => ft_week_pen_upto(p, s, id, t, p.num_weeks()),
        TimeScope::SameMonth => ft_overshoot_month(p, t, count_id_upto(p, s, s.len() as int, id)),
    }
}

/// Rewards of the first `k` targets of the activity at index `ai`.
pub open spec fn ft_act_score_upto(p: Problem, s: Seq<ScheduledItem>, ai: int, k: int) -> int
    decreases k,
{
    let a = p.activities@[ai];
    if k <= 0 {
        0
    } else {
        ft_act_score_upto(p, s, ai, k - 1) + ft_target_score(
            p,
            s,
            a.id as int,
            a.frequency_targets@[k - 1],
        )
    }
}

pub open spec fn ft_act_pen_upto(p: Problem, s: Seq<ScheduledItem>, ai: int, k: int) -> int
    decreases k,
{
    let a = p.activities@[ai];
    if k <= 0 {
        0
    } else {
        ft_act_pen_upto(p, s, ai, k - 1) + ft_target_pen(
            p,
            s,
            a.id as int,
            a.frequency_targets@[k - 1],
        )
    }
}

/// Soft-frequency rewards of the first `n` activities.
pub open spec fn ft_score_upto(p: Problem, s: Seq<ScheduledItem>, n: int) -> int
    decreases n,
{
    if n <= 0 {
        0
    } else {
        ft_score_upto(p, s, n - 1) + ft_act_score_upto(
            p,
            s,
            n - 1,
            p.activities@[n - 1].frequency_targets@.len() as int,
        )
    }
}

pub open spec fn ft_pen_upto(p: Problem, s: Seq<ScheduledItem>, n: int) -> int
    decreases n,
{
    if n <= 0 {
        0
    } else {
        ft_pen_upto(p, s, n - 1) + ft_act_pen_upto(
            p,
            s,
            n - 1,
            p.activities@[n - 1].frequency_targets@.len() as int,
        )
    }
}

/// Shortfall and overshoot penalty of one user frequency constraint
/// against the actual count of one bucket.
pub open spec fn uf_pen_amount(c: UserFrequencyConstraint, actual: int) -> int {
    (match c.min_count {
        Some(mn) => if actual < mn {
            (mn - actual) * c.penalty_weight
        } else {
            0
        },
        None => 0,
    }) + (match c.max_count {
        Some(mx) => if actual > mx {
            (actual - mx) * c.penalty_weight
        } else {
            0
        },
        None => 0,
    })
}

/// Actual count of one day bucket: deadline-gated when a deadline is set.
pub open spec fn uf_day_actual(
    p: Problem,
    s: Seq<ScheduledItem>,
    id: int,
    c: UserFrequencyConstraint,
    d: int,
) -> int {
    match c.deadline_end {
        Some(dl) => count_id_day_deadline_upto(p, s, s.len() as int, id, d, dl as int),
        None => count_id_day_upto(p, s, s.len() as int, id, d),
    }
}

/// A day bucket starting after the deadline is skipped entirely.
pub open spec fn uf_day_term(
    p: Problem,
    s: Seq<ScheduledItem>,
    id: int,
    c: UserFrequencyConstraint,
    d: int,
) -> int {
    match c.deadline_end {
        Some(dl) => if d * SLOTS_PER_DAY as int > dl {
            0
        } else {
            uf_pen_amount(c, uf_day_actual(p, s, id, c, d))
        },
        None => uf_pen_amount(c, uf_day_actual(p, s, id, c, d)),
    }
}

pub open spec fn uf_day_upto(
    p: Problem,
    s: Seq<ScheduledItem>,
    id: int,
    c: UserFrequencyConstraint,
    d: int,
) -> int
    decreases d,
{
    if d <= 0 {
        0
    } else {
        uf_day_upto(p, s, id, c, d - 1) + uf_day_term(p, s, id, c, d - 1)
    }
}

pub open spec fn uf_week_actual(
    p: Problem,
    s: Seq<ScheduledItem>,
    id: int,
    c: UserFrequencyConstraint,
    w: int,
) -> int {
    match c.deadline_end {
        Some(dl) => count_id_week_deadline_upto(p, s, s.len() as int, id, w, dl as int),
        None => count_id_week_upto(p, s, s.len() as int, id, w),
    }
}

pub open spec fn uf_week_term(
    p: Problem,
    s: Seq<ScheduledItem>,
    id: int,
    c: UserFrequencyConstraint,
    w: int,
) -> int {
    match c.deadline_end {
        Some(dl) => if w * SLOTS_PER_WEEK as int > dl {
            0
        } else {
            uf_pen_amount(c, uf_week_actual(p, s, id, c, w))
        },
        None => uf_pen_amount(c, uf_week_actual(p, s, id, c, w)),
    }
}

pub open spec fn uf_week_upto(
    p: Problem,
    s: Seq<ScheduledItem>,
    id: int,
    c: UserFrequencyConstraint,
    w: int,
) -> int
    decreases w,
{
    if w <= 0 {
        0
    } else {
        uf_week_upto(p, s, id, c, w - 1) + uf_week_term(p, s, id, c, w - 1)
    }
}

pub open spec fn uf_month_actual(
    p: Problem,
    s: Seq<ScheduledItem>,
    id: int,
    c: UserFrequencyConstraint,
) -> int {
    match c.deadline_end {
        Some(dl) => count_id_deadline_upto(p, s, s.len() as int, id, dl as int),
        None => count_id_upto(p, s, s.len() as int, id),
    }
}

/// Penalty of one user frequency constraint over every bucket of its
/// scope.
pub open spec fn uf_constraint_pen(
    p: Problem,
    s: Seq<ScheduledItem>,
    id: int,
    c: UserFrequencyConstraint,
) -> int {
    match c.scope {
        TimeScope::SameDay => uf_day_upto(p, s, id, c, p.num_days()),
        TimeScope::SameWeek => uf_week_upto(p, s, id, c, p.num_weeks()),
        TimeScope::SameMonth => uf_pen_amount(c, uf_month_actual(p, s, id, c)),
    }
}

pub open spec fn uf_act_upto(p: Problem, s: Seq<ScheduledItem>, ai: int, k: int) -> int
    decreases k,
{
    let a = p.activities@[ai];
    if k <= 0 {
        0
    } else {
        uf_act_upto(p, s, ai, k - 1) + uf_constraint_pen(
            p,
            s,
            a.id as int,
            a.user_frequency_constraints@[k - 1],
        )
    }
}

/// User-frequency penalties of the first `n` activities.
pub open spec fn uf_pen_upto(p: Problem, s: Seq<ScheduledItem>, n: int) -> int
    decreases n,
{
    if n <= 0 {
        0
    } else {
        uf_pen_upto(p, s, n - 1) + uf_act_upto(
            p,
            s,
            n - 1,
            p.activities@[n - 1].user_frequency_constraints@.len() as int,
        )
    }
}

/// Which events a cumulative constraint selects: an activity id wins over
/// a category; neither selects everything.
pub open spec fn cum_selector(aid: Option<usize>, cid: Option<usize>) -> CumulativeSelector {
    match aid {
        Some(a) => CumulativeSelector::ById(a),
        None => match cid {
            Some(c) => CumulativeSelector::ByCategory(c),
            None => CumulativeSelector::All,
        },
    }
}

/// When both an activity and a category are named, the constraint applies
/// only if that activity really carries that category.
pub open spec fn cum_applies(p: Problem, aid: Option<usize>, cid: Option<usize>) -> bool {
    match aid {
        Some(a) => match cid {
            Some(c) => a < p.activities@.len() && p.activities@[a as int].category_id == c,
            None => true,
        },
        None => true,
    }
}

/// Deviation penalty of one period bucket; an empty bucket pays nothing.
pub open spec fn cum_bucket_term(
    p: Problem,
    s: Seq<ScheduledItem>,
    sel: CumulativeSelector,
    period: int,
    mn: int,
    mx: int,
    b: int,
) -> int {
    if bucket_count_upto(p, s, s.len() as int, sel, period, p.total_slots as int, b) > 0 {
        let tot = bucket_dur_upto(p, s, s.len() as int, sel, period, p.total_slots as int, b);
        PENALTY_CUMULATIVE as int * ((if tot < mn {
            mn - tot
        } else {
            0int
        }) + (if tot > mx {
            tot - mx
        } else {
            0int
        }))
    } else {
        0
    }
}

pub open spec fn cum_buckets_upto(
    p: Problem,
    s: Seq<ScheduledItem>,
    sel: CumulativeSelector,
    period: int,
    mn: int,
    mx: int,
    b: int,
) -> int
    decreases b,
{
    if b <= 0 {
        0
    } else {
        cum_buckets_upto(p, s, sel, period, mn, mx, b - 1) + cum_bucket_term(
            p,
            s,
            sel,
            period,
            mn,
            mx,
            b - 1,
        )
    }
}

/// Number of period buckets that can hold any event start.
pub open spec fn num_buckets(period: int, total: int) -> int {
    if period >= total {
        1
    } else {
        u16::MAX as int / period + 1
    }
}

/// Penalty of one global constraint: deadline mode sums matching durations
/// ending by the deadline once; periodic mode checks every occupied
/// bucket.
pub open spec fn cum_constraint_pen(p: Problem, s: Seq<ScheduledItem>, gc: GlobalConstraint) -> int {
    match gc {
        GlobalConstraint::ForbiddenZone { .. } => 0,
        GlobalConstraint::CumulativeTime {
            activity_id,
            category_id,
            period_slots,
            min_duration,
            max_duration,
            deadline_end,
        } => {
            if !cum_applies(p, activity_id, category_id) {
                0
            } else {
                let sel = cum_selector(activity_id, category_id);
                match deadline_end {
                    Some(dl) => {
                        let tot = dur_sum_deadline_upto(p, s, s.len() as int, sel, dl as int);
                        PENALTY_CUMULATIVE as int * ((if tot < min_duration {
                            min_duration - tot
                        } else {
                            0int
                        }) + (if tot > max_duration {
                            tot - max_duration
                        } else {
                            0int
                        }))
                    },
                    None => cum_buckets_upto(
                        p,
                        s,
                        sel,
                        period_slots as int,
                        min_duration as int,
                        max_duration as int,
                        num_buckets(period_slots as int, p.total_slots as int),
                    ),
                }
            }
        },
    }
}

/// Cumulative-time penalties of the first `k` global constraints.
pub open spec fn cum_pen_upto(p: Problem, s: Seq<ScheduledItem>, k: int) -> int
    decreases k,
{
    if k <= 0 {
        0
    } else {
        cum_pen_upto(p, s, k - 1) + cum_constraint_pen(p, s, p.global_constraints@[k - 1])
    }
}

/// Soft frequency targets: bucket rewards plus overshoot penalties, per
/// activity and target.
pub fn frequency_target_pass(p: &Problem, s: &Vec<ScheduledItem>) -> (r: (u128, u128))
    requires
        p.wf(),
        events_wf(*p, s@),
        s@.len() <= MAX_EVENTS,
    ensures
        r.0 == ft_score_upto(*p, s@, p.activities@.len() as int),
        r.1 == ft_pen_upto(*p, s@, p.activities@.len() as int),
        r.0 <= 2_000_000_000_000_000_000_000_000_000,
        r.1 <= 10_000_000_000_000_000_000_000_000_000,
{
    let num_days = (p.total_slots / SLOTS_PER_DAY) as usize + 1;
    let num_weeks = (p.total_slots / SLOTS_PER_WEEK) as usize + 1;
    let mut score: u128 = 0;
    let mut pen: u128 = 0;
    let mut ai: usize = 0;
    while ai < p.activities.len()
        invariant
            p.wf(),
            events_wf(*p, s@),
            s@.len() <= MAX_EVENTS,
            num_days == p.num_days(),
            num_weeks == p.num_weeks(),
            ai <= p.activities@.len(),
            score == ft_score_upto(*p, s@, ai as int),
            pen == ft_pen_upto(*p, s@, ai as int),
            score <= ai * 20_000_000_000_000_000_000_000,
            pen <= ai * 100_000_000_000_000_000_000_000,
        decreases p.activities@.len() - ai,
    {
        let a = &p.activities[ai];
        proof {
            assert(p.activities@[ai as int].wf());
        }
        let mut act_score: u128 = 0;
        let mut act_pen: u128 = 0;
        let mut k: usize = 0;
        while k < a.frequency_targets.len()
            invariant
                p.wf(),
                events_wf(*p, s@),
                s@.len() <= MAX_EVENTS,
                num_days == p.num_days(),
                num_weeks == p.num_weeks(),
                ai < p.activities@.len(),
                *a == p.activities@[ai as int],
                a.wf(),
                k <= a.frequency_targets@.len(),
                act_score == ft_act_score_upto(*p, s@, ai as int, k as int),
                act_pen == ft_act_pen_upto(*p, s@, ai as int, k as int),
                act_score <= k * 200_000_000_000_000_000,
                act_pen <= k * 1_000_000_000_000_000_000,
            decreases a.frequency_targets@.len() - k,
        {
            let t = &a.frequency_targets[k];
            proof {
                assert(0 <= a.frequency_targets@[k as int].weight <= MAX_WEIGHT);
            }
            let (t_score, t_pen) = target_score_pen(p, s, a.id, t, num_days, num_weeks);
            act_score += t_score as u128;
            act_pen += t_pen as u128;
            k += 1;
        }
        score += act_score;
        pen += act_pen;
        ai += 1;
    }
    (score, pen)
}

/// Rewards and penalties of a single frequency target across its scope.
fn target_score_pen(
    p: &Problem,
    s: &Vec<ScheduledItem>,
    id: usize,
    t: &FrequencyTarget,
    num_days: usize,
    num_weeks: usize,
) -> (r: (u64, u64))
    requires
        p.wf(),
        events_wf(*p, s@),
        s@.len() <= MAX_EVENTS,
        0 <= t.weight <= MAX_WEIGHT,
        num_days == p.num_days(),
        num_weeks == p.num_weeks(),
    ensures
        r.0 == ft_target_score(*p, s@, id as int, *t),
        r.1 == ft_target_pen(*p, s@, id as int, *t),
        r.0 <= 200_000_000_000_000_000,
        r.1 <= 1_000_000_000_000_000_000,
{
    match t.scope {
        TimeScope::SameDay => {
            let mut score: u64 = 0;
            let mut pen: u64 = 0;
            let mut d: usize = 0;
            while d < num_days
                invariant
                    p.wf(),
                    events_wf(*p, s@),
                    s@.len() <= MAX_EVENTS,
                    0 <= t.weight <= MAX_WEIGHT,
                    d <= num_days,
                    num_days <= 684,
                    score == ft_day_score_upto(*p, s@, id as int, *t, d as int),
                    pen == ft_day_pen_upto(*p, s@, id as int, *t, d as int),
                    score <= d * 200_000_000_000_000,
                    pen <= d * 1_200_000_000_000_000,
                decreases num_days - d,
            {
                let actual = count_id_day(p, s, s.len(), id, d);
                let (b_score, b_pen) = bucket_reward_day(t, actual);
                score += b_score;
                pen += b_pen;
                d += 1;
            }
            (score, pen)
        },
        TimeScope::SameWeek => {
            let mut score: u64 = 0;
            let mut pen: u64 = 0;
            let mut w: usize = 0;
            while w < num_weeks
                invariant
                    p.wf(),
                    events_wf(*p, s@),
                    s@.len() <= MAX_EVENTS,
                    0 <= t.weight <= MAX_WEIGHT,
                    w <= num_weeks,
                    num_weeks <= 98,
                    score == ft_week_score_upto(*p, s@, id as int, *t, w as int),
                    pen == ft_week_pen_upto(*p, s@, id as int, *t, w as int),
                    score <= w * 200_000_000_000_000,
                    pen <= w * 1_200_000_000_000_000,
                decreases num_weeks - w,
            {
                let actual = count_id_week(p, s, s.len(), id, w);
                let (b_score, b_pen) = bucket_reward_week(t, actual);
                score += b_score;
                pen += b_pen;
                w += 1;
            }
            (score, pen)
        },
        TimeScope::SameMonth => {
            let actual = count_id(p, s, s.len(), id);
            let b_score = reward_exec(t, actual);
            let b_pen = overshoot_month_exec(p, t, actual);
            (b_score, b_pen)
        },
    }
}

/// Coverage reward of one bucket.
fn reward_exec(t: &FrequencyTarget, actual: usize) -> (r: u64)
    requires
        0 <= t.weight <= MAX_WEIGHT,
        actual <= MAX_EVENTS,
    ensures
        r == ft_reward(*t, actual as int),
        r <= 200_000_000_000_000,
{
    if t.target_count == 0 {
        0
    } else {
        let covered: i64 = if actual <= t.target_count as usize {
            actual as i64
        } else {
            t.target_count as i64
        };
        proof {
            assert(0 <= t.weight * covered <= 200_000_000_000_000) by (nonlinear_arith)
                requires
                    0 <= t.weight <= 1_000_000_000,
                    0 <= covered <= 200_000,
            ;
        }
        (t.weight * covered / (t.target_count as i64)) as u64
    }
}

/// Day-bucket reward and overshoot penalty.
fn bucket_reward_day(t: &FrequencyTarget, actual: usize) -> (r: (u64, u64))
    requires
        0 <= t.weight <= MAX_WEIGHT,
        actual <= MAX_EVENTS,
    ensures
        r.0 == ft_reward(*t, actual as int),
        r.1 == ft_overshoot_day(*t, actual as int),
        r.0 <= 200_000_000_000_000,
        r.1 <= 1_200_000_000_000_000,
{
    let score = reward_exec(t, actual);
    let pen: u64 = if actual > t.target_count as usize {
        let excess: i64 = actual as i64 - t.target_count as i64;
        proof {
            assert(0 <= t.weight * FREQUENCY_OVERSHOOT_MULTIPLIER * excess
                <= 1_200_000_000_000_000) by (nonlinear_arith)
                requires
                    0 <= t.weight <= 1_000_000_000,
                    0 <= excess <= 200_000,
                    FREQUENCY_OVERSHOOT_MULTIPLIER == 6,
            ;
        }
        (t.weight * FREQUENCY_OVERSHOOT_MULTIPLIER * excess) as u64
    } else {
        0
    };
    (score, pen)
}

/// Week-bucket reward and overshoot penalty (normalized per day).
fn bucket_reward_week(t: &FrequencyTarget, actual: usize) -> (r: (u64, u64))
    requires
        0 <= t.weight <= MAX_WEIGHT,
        actual <= MAX_EVENTS,
    ensures
        r.0 == ft_reward(*t, actual as int),
        r.1 == ft_overshoot_week(*t, actual as int),
        r.0 <= 200_000_000_000_000,
        r.1 <= 1_200_000_000_000_000,
{
    let score = reward_exec(t, actual);
    let pen: u64 = if actual > t.target_count as usize {
        let excess: i64 = actual as i64 - t.target_count as i64;
        proof {
            assert(0 <= t.weight * FREQUENCY_OVERSHOOT_MULTIPLIER * excess
                <= 1_200_000_000_000_000) by (nonlinear_arith)
                requires
                    0 <= t.weight <= 1_000_000_000,
                    0 <= excess <= 200_000,
                    FREQUENCY_OVERSHOOT_MULTIPLIER == 6,
            ;
        }
        (t.weight * FREQUENCY_OVERSHOOT_MULTIPLIER * excess / 7) as u64
    } else {
        0
    };
    (score, pen)
}

/// Month overshoot penalty (normalized by horizon days, at least one).
fn overshoot_month_exec(p: &Problem, t: &FrequencyTarget, actual: usize) -> (r: u64)
    requires
        0 <= t.weight <= MAX_WEIGHT,
        actual <= MAX_EVENTS,
    ensures
        r == ft_overshoot_month(*p, *t, actual as int),
        r <= 1_200_000_000_000_000,
{
    if actual > t.target_count as usize {
        let excess: i64 = actual as i64 - t.target_count as i64;
        proof {
            assert(0 <= t.weight * FREQUENCY_OVERSHOOT_MULTIPLIER * excess
                <= 1_200_000_000_000_000) by (nonlinear_arith)
                requires
                    0 <= t.weight <= 1_000_000_000,
                    0 <= excess <= 200_000,
                    FREQUENCY_OVERSHOOT_MULTIPLIER == 6,
            ;
        }
        let raw = t.weight * FREQUENCY_OVERSHOOT_MULTIPLIER * excess;
        if p.total_slots >= SLOTS_PER_DAY {
            proof {
                assert(0 <= (raw as int) * (SLOTS_PER_DAY as int) / (p.total_slots as int)
                    <= raw as int) by (nonlinear_arith)
                    requires
                        0 <= raw as int,
                        96 <= p.total_slots as int,
                        SLOTS_PER_DAY == 96u16,
                ;
            }
            (raw * SLOTS_PER_DAY as i64 / p.total_slots as i64) as u64
        } else {
            raw as u64
        }
    } else {
        0
    }
}

/// Shortfall and overshoot penalty of one bucket of a user constraint.
fn uf_pen_amount_exec(c: &UserFrequencyConstraint, actual: usize) -> (r: u64)
    requires
        0 <= c.penalty_weight <= MAX_WEIGHT,
        actual <= MAX_EVENTS,
    ensures
        r == uf_pen_amount(*c, actual as int),
        r <= 300_000_000_000_000,
{
    let mut r: u64 = 0;
    if let Some(mn) = c.min_count {
        if actual < mn as usize {
            let short: i64 = mn as i64 - actual as i64;
            proof {
                assert(0 <= short * c.penalty_weight <= 65_535_000_000_000) by (nonlinear_arith)
                    requires
                        0 <= c.penalty_weight <= 1_000_000_000,
                        0 <= short <= 65_535,
                ;
            }
            r += (short * c.penalty_weight) as u64;
        }
    }
    if let Some(mx) = c.max_count {
        if actual > mx as usize {
            let over: i64 = actual as i64 - mx as i64;
            proof {
                assert(0 <= over * c.penalty_weight <= 200_000_000_000_000) by (nonlinear_arith)
                    requires
                        0 <= c.penalty_weight <= 1_000_000_000,
                        0 <= over <= 200_000,
                ;
            }
            r += (over * c.penalty_weight) as u64;
        }
    }
    r
}

/// Penalty of one user frequency constraint across its scope buckets.
fn uf_constraint_pen_exec(
    p: &Problem,
    s: &Vec<ScheduledItem>,
    id: usize,
    c: &UserFrequencyConstraint,
    num_days: usize,
    num_weeks: usize,
) -> (r: u64)
    requires
        p.wf(),
        events_wf(*p, s@),
        s@.len() <= MAX_EVENTS,
        0 <= c.penalty_weight <= MAX_WEIGHT,
        num_days == p.num_days(),
        num_weeks == p.num_weeks(),
    ensures
        r == uf_constraint_pen(*p, s@, id as int, *c),
        r <= 300_000_000_000_000_000,
{
    match c.scope {
        TimeScope::SameDay => {
            let mut pen: u64 = 0;
            let mut d: usize = 0;
            while d < num_days
                invariant
                    p.wf(),
                    events_wf(*p, s@),
                    s@.len() <= MAX_EVENTS,
                    0 <= c.penalty_weight <= MAX_WEIGHT,
                    d <= num_days,
                    num_days <= 684,
                    pen == uf_day_upto(*p, s@, id as int, *c, d as int),
                    pen <= d * 300_000_000_000_000,
                decreases num_days - d,
            {
                let term: u64 = match c.deadline_end {
                    Some(dl) => {
                        proof {
                            assert((d as int) * (SLOTS_PER_DAY as int) <= 65664)
                                by (nonlinear_arith)
                                requires
                                    0 <= d as int <= 684,
                                    SLOTS_PER_DAY == 96u16,
                            ;
                        }
                        let bucket_start = (d as u32) * (SLOTS_PER_DAY as u32);
                        if bucket_start > dl as u32 {
                            0
                        } else {
                            let actual = count_id_day_deadline(p, s, id, d, dl);
                            uf_pen_amount_exec(c, actual)
                        }
                    },
                    None => {
                        let actual = count_id_day(p, s, s.len(), id, d);
                        uf_pen_amount_exec(c, actual)
                    },
                };
                proof {
                    assert(term == uf_day_term(*p, s@, id as int, *c, d as int));
                }
                pen += term;
                d += 1;
            }
            pen
        },
        TimeScope::SameWeek => {
            let mut pen: u64 = 0;
            let mut w: usize = 0;
            while w < num_weeks
                invariant
                    p.wf(),
                    events_wf(*p, s@),
                    s@.len() <= MAX_EVENTS,
                    0 <= c.penalty_weight <= MAX_WEIGHT,
                    w <= num_weeks,
                    num_weeks <= 98,
                    pen == uf_week_upto(*p, s@, id as int, *c, w as int),
                    pen <= w * 300_000_000_000_000,
                decreases num_weeks - w,
            {
                let term: u64 = match c.deadline_end {
                    Some(dl) => {
                        proof {
                            assert((w as int) * (SLOTS_PER_WEEK as int) <= 65856)
                                by (nonlinear_arith)
                                requires
                                    0 <= w as int <= 98,
                                    SLOTS_PER_WEEK == 672u16,
                            ;
                        }
                        let bucket_start = (w as u32) * (SLOTS_PER_WEEK as u32);
                        if bucket_start > dl as u32 {
                            0
                        } else {
                            let actual = count_id_week_deadline(p, s, id, w, dl);
                            uf_pen_amount_exec(c, actual)
                        }
                    },
                    None => {
                        let actual = count_id_week(p, s, s.len(), id, w);
                        uf_pen_amount_exec(c, actual)
                    },
                };
                proof {
                    assert(term == uf_week_term(*p, s@, id as int, *c, w as int));
                }
                pen += term;
                w += 1;
            }
            pen
        },
        TimeScope::SameMonth => {
            let actual = match c.deadline_end {
                Some(dl) => count_id_deadline(p, s, id, dl),
                None => count_id(p, s, s.len(), id),
            };
            uf_pen_amount_exec(c, actual)
        },
    }
}

/// Quasi-hard user frequency constraints, per activity and constraint.
pub fn user_frequency_pass(p: &Problem, s: &Vec<ScheduledItem>) -> (r: u128)
    requires
        p.wf(),
        events_wf(*p, s@),
        s@.len() <= MAX_EVENTS,
    ensures
        r == uf_pen_upto(*p, s@, p.activities@.len() as int),
        r <= 3_000_000_000_000_000_000_000_000_000,
{
    let num_days = (p.total_slots / SLOTS_PER_DAY) as usize + 1;
    let num_weeks = (p.total_slots / SLOTS_PER_WEEK) as usize + 1;
    let mut pen: u128 = 0;
    let mut ai: usize = 0;
    while ai < p.activities.len()
        invariant
            p.wf(),
            events_wf(*p, s@),
            s@.len() <= MAX_EVENTS,
            num_days == p.num_days(),
            num_weeks == p.num_weeks(),
            ai <= p.activities@.len(),
            pen == uf_pen_upto(*p, s@, ai as int),
            pen <= ai * 30_000_000_000_000_000_000_000,
        decreases p.activities@.len() - ai,
    {
        let a = &p.activities[ai];
        proof {
            assert(p.activities@[ai as int].wf());
        }
        let mut act_pen: u128 = 0;
        let mut k: usize = 0;
        while k < a.user_frequency_constraints.len()
            invariant
                p.wf(),
                events_wf(*p, s@),
                s@.len() <= MAX_EVENTS,
                num_days == p.num_days(),
                num_weeks == p.num_weeks(),
                ai < p.activities@.len(),
                *a == p.activities@[ai as int],
                a.wf(),
                k <= a.user_frequency_constraints@.len(),
                act_pen == uf_act_upto(*p, s@, ai as int, k as int),
                act_pen <= k * 300_000_000_000_000_000,
            decreases a.user_frequency_constraints@.len() - k,
        {
            let c = &a.user_frequency_constraints[k];
            proof {
                assert(0 <= a.user_frequency_constraints@[k as int].penalty_weight <= MAX_WEIGHT);
            }
            let c_pen = uf_constraint_pen_exec(p, s, a.id, c, num_days, num_weeks);
            act_pen += c_pen as u128;
            k += 1;
        }
        pen += act_pen;
        ai += 1;
    }
    pen
}

/// Deviation penalty given a bucket or deadline total duration.
fn cum_deviation_pen(tot: u64, mn: u16, mx: u16) -> (r: u64)
    requires
        tot <= 0x1000000000,
    ensures
        r == PENALTY_CUMULATIVE as int * ((if (tot as int) < mn {
            mn - tot
        } else {
            0int
        }) + (if (tot as int) > mx {
            tot - mx
        } else {
            0int
        })),
        r <= 100_000_000_000_000_000,
{
    let mut dev: u64 = 0;
    if tot < mn as u64 {
        dev += mn as u64 - tot;
    }
    if tot > mx as u64 {
        dev += tot - mx as u64;
    }
    proof {
        assert(dev <= 0x1000010000);
        assert((dev as int) * (PENALTY_CUMULATIVE as int) <= 0x1000010000 * 1_000_000)
            by (nonlinear_arith)
            requires
                0 <= dev as int <= 0x1000010000,
                PENALTY_CUMULATIVE == 1_000_000i64,
        ;
    }
    dev * (PENALTY_CUMULATIVE as u64)
}

/// Cumulative-time constraints: deadline totals or per-bucket totals.
pub fn cumulative_pass(p: &Problem, s: &Vec<ScheduledItem>) -> (r: u128)
    requires
        p.wf(),
        events_wf(*p, s@),
        s@.len() <= MAX_EVENTS,
    ensures
        r == cum_pen_upto(*p, s@, p.global_constraints@.len() as int),
        r <= 1_000_000_000_000_000_000_000_000_000,
{
    let mut pen: u128 = 0;
    let mut k: usize = 0;
    while k < p.global_constraints.len()
        invariant
            p.wf(),
            events_wf(*p, s@),
            s@.len() <= MAX_EVENTS,
            k <= p.global_constraints@.len(),
            pen == cum_pen_upto(*p, s@, k as int),
            pen <= k * 10_000_000_000_000_000_000_000,
        decreases p.global_constraints@.len() - k,
    {
        let gc = &p.global_constraints[k];
        let c_pen: u128 = match *gc {
            GlobalConstraint::ForbiddenZone { .. } => 0,
            GlobalConstraint::CumulativeTime {
                activity_id,
                category_id,
                period_slots,
                min_duration,
                max_duration,
                deadline_end,
            } => {
                let applies: bool = match (activity_id, category_id) {
                    (Some(a), Some(c)) => a < p.activities.len() && p.activities[a].category_id
                        == c,
                    _ => true,
                };
                if !applies {
                    0
                } else {
                    let sel: CumulativeSelector = match (activity_id, category_id) {
                        (Some(a), _) => CumulativeSelector::ById(a),
                        (None, Some(c)) => CumulativeSelector::ByCategory(c),
                        (None, None) => CumulativeSelector::All,
                    };
                    proof {
                        assert(sel == cum_selector(activity_id, category_id));
                        assert(applies == cum_applies(*p, activity_id, category_id));
                    }
                    match deadline_end {
                        Some(dl) => {
                            let tot = dur_sum_deadline(p, s, sel, dl);
                            cum_deviation_pen(tot, min_duration, max_duration) as u128
                        },
                        None => {
                            proof {
                                assert(p.global_constraints@[k as int].wf(p.total_slots));
                            }
                            let nb: usize = if period_slots >= p.total_slots {
                                1
                            } else {
                                (u16::MAX / period_slots) as usize + 1
                            };
                            let mut bpen: u128 = 0;
                            let mut b: usize = 0;
                            while b < nb
                                invariant
                                    p.wf(),
                                    events_wf(*p, s@),
                                    s@.len() <= MAX_EVENTS,
                                    b <= nb,
                                    nb <= 0x10000,
                                    nb == num_buckets(period_slots as int, p.total_slots as int),
                                    period_slots > 0 || period_slots >= p.total_slots,
                                    bpen == cum_buckets_upto(
                                        *p,
                                        s@,
                                        sel,
                                        period_slots as int,
                                        min_duration as int,
                                        max_duration as int,
                                        b as int,
                                    ),
                                    bpen <= b * 100_000_000_000_000_000,
                                decreases nb - b,
                            {
                                let (cnt, tot) = bucket_stats(p, s, sel, period_slots, b);
                                if cnt > 0 {
                                    let term = cum_deviation_pen(tot, min_duration, max_duration);
                                    bpen += term as u128;
                                }
                                b += 1;
                            }
                            bpen
                        },
                    }
                }
            },
        };
        proof {
            assert(c_pen == cum_constraint_pen(*p, s@, p.global_constraints@[k as int]));
        }
        pen += c_pen;
        k += 1;
    }
    pen
}

} // verus!
