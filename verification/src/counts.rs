use crate::events::{
    ScheduledItem, ev_capped_end, ev_cat, ev_day, ev_dur, ev_id, ev_week, events_wf,
};
use crate::types::{Problem, SLOTS_PER_DAY, SLOTS_PER_WEEK};
use vstd::prelude::*;

verus! {

/// Which events a cumulative-time constraint selects.
#[derive(Clone, Copy, PartialEq, Eq, Structural, Debug)]
pub enum CumulativeSelector {
    /// Events whose activity id equals the given id.
    ById(usize),
    /// Events whose activity's category equals the given id.
    ByCategory(usize),
    /// Every event.
    All,
}

pub open spec fn sel_matches(p: Problem, e: ScheduledItem, sel: CumulativeSelector) -> bool {
    match sel {
        CumulativeSelector::ById(id) => ev_id(p, e) == id,
        CumulativeSelector::ByCategory(c) => ev_cat(p, e) == c,
        CumulativeSelector::All => true,
    }
}

/// Period bucket of an event: single bucket when the period spans the
/// whole horizon, else the start slot divided by the period length.
pub open spec fn ev_bucket(e: ScheduledItem, period: int, total: int) -> int {
    if period >= total {
        0
    } else {
        e.start as int / period
    }
}

/// Occurrences of activity `id` among the first `n` events.
pub open spec fn count_id_upto(p: Problem, es: Seq<ScheduledItem>, n: int, id: int) -> int
    decreases n,
{
    if n <= 0 {
        0
    } else {
        count_id_upto(p, es, n - 1, id) + if ev_id(p, es[n - 1]) == id {
            1int
        } else {
            0int
        }
    }
}

/// Occurrences of activity `id` on day `day` among the first `n` events.
pub open spec fn count_id_day_upto(
    p: Problem,
    es: Seq<ScheduledItem>,
    n: int,
    id: int,
    day: int,
) -> int
    decreases n,
{
    if n <= 0 {
        0
    } else {
        count_id_day_upto(p, es, n - 1, id, day) + if ev_id(p, es[n - 1]) == id && ev_day(es[n - 1])
            == day {
            1int
        } else {
            0int
        }
    }
}

/// Occurrences of activity `id` in week `week` among the first `n` events.
pub open spec fn count_id_week_upto(
    p: Problem,
    es: Seq<ScheduledItem>,
    n: int,
    id: int,
    week: int,
) -> int
    decreases n,
{
    if n <= 0 {
        0
    } else {
        count_id_week_upto(p, es, n - 1, id, week) + if ev_id(p, es[n - 1]) == id && ev_week(
            es[n - 1],
        ) == week {
            1int
        } else {
            0int
        }
    }
}

/// Occurrences of activity `id` whose clamped end is at or before `dl`.
pub open spec fn count_id_deadline_upto(
    p: Problem,
    es: Seq<ScheduledItem>,
    n: int,
    id: int,
    dl: int,
) -> int
    decreases n,
{
    if n <= 0 {
        0
    } else {
        count_id_deadline_upto(p, es, n - 1, id, dl) + if ev_id(p, es[n - 1]) == id && ev_capped_end(
            p,
            es[n - 1],
        ) <= dl {
            1int
        } else {
            0int
        }
    }
}

/// Day-bucketed variant of `count_id_deadline_upto`.
pub open spec fn count_id_day_deadline_upto(
    p: Problem,
    es: Seq<ScheduledItem>,
    n: int,
    id: int,
    day: int,
    dl: int,
) -> int
    decreases n,
{
    if n <= 0 {
        0
    } else {
        count_id_day_deadline_upto(p, es, n - 1, id, day, dl) + if ev_id(p, es[n - 1]) == id
            && ev_day(es[n - 1]) == day && ev_capped_end(p, es[n - 1]) <= dl {
            1int
        } else {
            0int
        }
    }
}

/// Week-bucketed variant of `count_id_deadline_upto`.
pub open spec fn count_id_week_deadline_upto(
    p: Problem,
    es: Seq<ScheduledItem>,
    n: int,
    id: int,
    week: int,
    dl: int,
) -> int
    decreases n,
{
    if n <= 0 {
        0
    } else {
        count_id_week_deadline_upto(p, es, n - 1, id, week, dl) + if ev_id(p, es[n - 1]) == id
            && ev_week(es[n - 1]) == week && ev_capped_end(p, es[n - 1]) <= dl {
            1int
        } else {
            0int
        }
    }
}

/// Total duration of selected events whose clamped end is at or before `dl`.
pub open spec fn dur_sum_deadline_upto(
    p: Problem,
    es: Seq<ScheduledItem>,
    n: int,
    sel: CumulativeSelector,
    dl: int,
) -> int
    decreases n,
{
    if n <= 0 {
        0
    } else {
        dur_sum_deadline_upto(p, es, n - 1, sel, dl) + if sel_matches(p, es[n - 1], sel)
            && ev_capped_end(p, es[n - 1]) <= dl {
            ev_dur(p, es[n - 1])
        } else {
            0int
        }
    }
}

/// Number of selected events in period bucket `b`.
pub open spec fn bucket_count_upto(
    p: Problem,
    es: Seq<ScheduledItem>,
    n: int,
    sel: CumulativeSelector,
    period: int,
    total: int,
    b: int,
) -> int
    decreases n,
{
    if n <= 0 {
        0
    } else {
        bucket_count_upto(p, es, n - 1, sel, period, total, b) + if sel_matches(p, es[n - 1], sel)
            && ev_bucket(es[n - 1], period, total) == b {
            1int
        } else {
            0int
        }
    }
}

/// Total duration of selected events in period bucket `b`.
pub open spec fn bucket_dur_upto(
    p: Problem,
    es: Seq<ScheduledItem>,
    n: int,
    sel: CumulativeSelector,
    period: int,
    total: int,
    b: int,
) -> int
    decreases n,
{
    if n <= 0 {
        0
    } else {
        bucket_dur_upto(p, es, n - 1, sel, period, total, b) + if sel_matches(p, es[n - 1], sel)
            && ev_bucket(es[n - 1], period, total) == b {
            ev_dur(p, es[n - 1])
        } else {
            0int
        }
    }
}

/// Occurrences of `id` among the first `n` events.
pub fn count_id(p: &Problem, es: &Vec<ScheduledItem>, n: usize, id: usize) -> (r: usize)
    requires
        events_wf(*p, es@),
        n <= es@.len(),
    ensures
        r == count_id_upto(*p, es@, n as int, id as int),
        r <= n,
{
    let mut r: usize = 0;
    let mut j: usize = 0;
    while j < n
        invariant
            events_wf(*p, es@),
            n <= es@.len(),
            j <= n,
            r == count_id_upto(*p, es@, j as int, id as int),
            r <= j,
        decreases n - j,
    {
        if p.activities[es[j].act_idx].id == id {
            r += 1;
        }
        j += 1;
    }
    r
}

/// Occurrences of `id` on day `day` among the first `n` events.
pub fn count_id_day(p: &Problem, es: &Vec<ScheduledItem>, n: usize, id: usize, day: usize) -> (r:
    usize)
    requires
        events_wf(*p, es@),
        n <= es@.len(),
    ensures
        r == count_id_day_upto(*p, es@, n as int, id as int, day as int),
        r <= n,
{
    let mut r: usize = 0;
    let mut j: usize = 0;
    while j < n
        invariant
            events_wf(*p, es@),
            n <= es@.len(),
            j <= n,
            r == count_id_day_upto(*p, es@, j as int, id as int, day as int),
            r <= j,
        decreases n - j,
    {
        if p.activities[es[j].act_idx].id == id && (es[j].start / SLOTS_PER_DAY) as usize == day {
            r += 1;
        }
        j += 1;
    }
    r
}

/// Occurrences of `id` in week `week` among the first `n` events.
pub fn count_id_week(p: &Problem, es: &Vec<ScheduledItem>, n: usize, id: usize, week: usize) -> (r:
    usize)
    requires
        events_wf(*p, es@),
        n <= es@.len(),
    ensures
        r == count_id_week_upto(*p, es@, n as int, id as int, week as int),
        r <= n,
{
    let mut r: usize = 0;
    let mut j: usize = 0;
    while j < n
        invariant
            events_wf(*p, es@),
            n <= es@.len(),
            j <= n,
            r == count_id_week_upto(*p, es@, j as int, id as int, week as int),
            r <= j,
        decreases n - j,
    {
        if p.activities[es[j].act_idx].id == id && (es[j].start / SLOTS_PER_WEEK) as usize == week {
            r += 1;
        }
        j += 1;
    }
    r
}

/// Clamped end slot of an event, as an executable value.
pub fn capped_end(p: &Problem, e: &ScheduledItem) -> (r: u32)
    requires
        e.act_idx < p.activities@.len(),
    ensures
        r == ev_capped_end(*p, *e),
{
    let end = e.start as u32 + p.activities[e.act_idx].duration_slots as u32;
    if end <= p.total_slots as u32 {
        end
    } else {
        p.total_slots as u32
    }
}

/// Deadline-gated occurrence count of `id` over all events, optionally
/// restricted to a day or week bucket.
pub fn count_id_deadline(p: &Problem, es: &Vec<ScheduledItem>, id: usize, dl: u16) -> (r: usize)
    requires
        events_wf(*p, es@),
    ensures
        r == count_id_deadline_upto(*p, es@, es@.len() as int, id as int, dl as int),
        r <= es@.len(),
{
    let mut r: usize = 0;
    let mut j: usize = 0;
    while j < es.len()
        invariant
            events_wf(*p, es@),
            j <= es@.len(),
            r == count_id_deadline_upto(*p, es@, j as int, id as int, dl as int),
            r <= j,
        decreases es@.len() - j,
    {
        let e = es[j];
        if p.activities[e.act_idx].id == id && capped_end(p, &e) <= dl as u32 {
            r += 1;
        }
        j += 1;
    }
    r
}

pub fn count_id_day_deadline(
    p: &Problem,
    es: &Vec<ScheduledItem>,
    id: usize,
    day: usize,
    dl: u16,
) -> (r: usize)
    requires
        events_wf(*p, es@),
    ensures
        r == count_id_day_deadline_upto(*p, es@, es@.len() as int, id as int, day as int, dl as int),
        r <= es@.len(),
{
    let mut r: usize = 0;
    let mut j: usize = 0;
    while j < es.len()
        invariant
            events_wf(*p, es@),
            j <= es@.len(),
            r == count_id_day_deadline_upto(*p, es@, j as int, id as int, day as int, dl as int),
            r <= j,
        decreases es@.len() - j,
    {
        let e = es[j];
        if p.activities[e.act_idx].id == id && (e.start / SLOTS_PER_DAY) as usize == day && capped_end(
            p,
            &e,
        ) <= dl as u32 {
            r += 1;
        }
        j += 1;
    }
    r
}

pub fn count_id_week_deadline(
    p: &Problem,
    es: &Vec<ScheduledItem>,
    id: usize,
    week: usize,
    dl: u16,
) -> (r: usize)
    requires
        events_wf(*p, es@),
    ensures
        r == count_id_week_deadline_upto(
            *p,
            es@,
            es@.len() as int,
            id as int,
            week as int,
            dl as int,
        ),
        r <= es@.len(),
{
    let mut r: usize = 0;
    let mut j: usize = 0;
    while j < es.len()
        invariant
            events_wf(*p, es@),
            j <= es@.len(),
            r == count_id_week_deadline_upto(*p, es@, j as int, id as int, week as int, dl as int),
            r <= j,
        decreases es@.len() - j,
    {
        let e = es[j];
        if p.activities[e.act_idx].id == id && (e.start / SLOTS_PER_WEEK) as usize == week
            && capped_end(p, &e) <= dl as u32 {
            r += 1;
        }
        j += 1;
    }
    r
}

/// Does the event match the cumulative selector?
pub fn matches_selector(p: &Problem, e: &ScheduledItem, sel: &CumulativeSelector) -> (r: bool)
    requires
        e.act_idx < p.activities@.len(),
    ensures
        r == sel_matches(*p, *e, *sel),
{
    match sel {
        CumulativeSelector::ById(id) => p.activities[e.act_idx].id == *id,
        CumulativeSelector::ByCategory(c) => p.activities[e.act_idx].category_id == *c,
        CumulativeSelector::All => true,
    }
}

/// Total duration of selected events with clamped end at or before `dl`.
pub fn dur_sum_deadline(p: &Problem, es: &Vec<ScheduledItem>, sel: CumulativeSelector, dl: u16) -> (
    r: u64)
    requires
        events_wf(*p, es@),
        es@.len() <= 0x1000000,
    ensures
        r == dur_sum_deadline_upto(*p, es@, es@.len() as int, sel, dl as int),
        r <= es@.len() * 0x10000,
{
    let mut r: u64 = 0;
    let mut j: usize = 0;
    while j < es.len()
        invariant
            events_wf(*p, es@),
            es@.len() <= 0x1000000,
            j <= es@.len(),
            r == dur_sum_deadline_upto(*p, es@, j as int, sel, dl as int),
            r <= j * 0x10000,
        decreases es@.len() - j,
    {
        let e = es[j];
        if matches_selector(p, &e, &sel) && capped_end(p, &e) <= dl as u32 {
            r += p.activities[e.act_idx].duration_slots as u64;
        }
        j += 1;
    }
    r
}

/// Count and total duration of selected events in period bucket `b`.
pub fn bucket_stats(
    p: &Problem,
    es: &Vec<ScheduledItem>,
    sel: CumulativeSelector,
    period: u16,
    b: usize,
) -> (r: (usize, u64))
    requires
        events_wf(*p, es@),
        es@.len() <= 0x1000000,
        period > 0 || period >= p.total_slots,
    ensures
        r.0 == bucket_count_upto(
            *p,
            es@,
            es@.len() as int,
            sel,
            period as int,
            p.total_slots as int,
            b as int,
        ),
        r.1 == bucket_dur_upto(
            *p,
            es@,
            es@.len() as int,
            sel,
            period as int,
            p.total_slots as int,
            b as int,
        ),
        r.1 <= es@.len() * 0x10000,
{
    let mut cnt: usize = 0;
    let mut tot: u64 = 0;
    let mut j: usize = 0;
    while j < es.len()
        invariant
            events_wf(*p, es@),
            es@.len() <= 0x1000000,
            period > 0 || period >= p.total_slots,
            j <= es@.len(),
            cnt == bucket_count_upto(
                *p,
                es@,
                j as int,
                sel,
                period as int,
                p.total_slots as int,
                b as int,
            ),
            tot == bucket_dur_upto(
                *p,
                es@,
                j as int,
                sel,
                period as int,
                p.total_slots as int,
                b as int,
            ),
            cnt <= j,
            tot <= j * 0x10000,
        decreases es@.len() - j,
    {
        let e = es[j];
        let bucket: usize = if period >= p.total_slots {
            0
        } else {
            (e.start / period) as usize
        };
        if matches_selector(p, &e, &sel) && bucket == b {
            cnt += 1;
            tot += p.activities[e.act_idx].duration_slots as u64;
        }
        j += 1;
    }
    (cnt, tot)
}

} // verus!
