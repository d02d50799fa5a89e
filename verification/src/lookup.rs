use crate::types::{ActivityId, Problem, TimeSlot, Weight};
use vstd::prelude::*;

verus! {

/// What a sparse lookup table answers for a key: the weight of the last
/// entry carrying that key, if any (later entries shadow earlier ones).
pub open spec fn heat_lookup(entries: Seq<(ActivityId, TimeSlot, Weight)>, id: int, slot: int) -> Option<
    Weight,
>
    decreases entries.len(),
{
    if entries.len() == 0 {
        None
    } else if entries.last().0 == id && entries.last().1 == slot {
        Some(entries.last().2)
    } else {
        heat_lookup(entries.drop_last(), id, slot)
    }
}

pub open spec fn markov_lookup(
    entries: Seq<(ActivityId, ActivityId, Weight)>,
    from: int,
    to: int,
) -> Option<Weight>
    decreases entries.len(),
{
    if entries.len() == 0 {
        None
    } else if entries.last().0 == from && entries.last().1 == to {
        Some(entries.last().2)
    } else {
        markov_lookup(entries.drop_last(), from, to)
    }
}

/// Affinity of an activity for a start slot, keyed `(id, slot)`.
#[derive(Clone, Debug)]
pub struct HeatmapLookup {
    pub entries: Vec<(ActivityId, TimeSlot, Weight)>,
}

/// Sequencing reward between two activities, keyed `(from, to)`.
#[derive(Clone, Debug)]
pub struct MarkovLookup {
    pub entries: Vec<(ActivityId, ActivityId, Weight)>,
}

impl HeatmapLookup {
    pub fn get(&self, id: usize, slot: TimeSlot) -> (r: Option<Weight>)
        ensures
            r == heat_lookup(self.entries@, id as int, slot as int),
    {
        let mut i = self.entries.len();
        proof {
            assert(self.entries@.take(self.entries@.len() as int) =~= self.entries@);
        }
        while i > 0
            invariant
                i <= self.entries@.len(),
                heat_lookup(self.entries@, id as int, slot as int) == heat_lookup(
                    self.entries@.take(i as int),
                    id as int,
                    slot as int,
                ),
            decreases i,
        {
            let e = self.entries[i - 1];
            proof {
                assert(self.entries@.take(i as int).last() == self.entries@[i - 1]);
                assert(self.entries@.take(i as int).drop_last() =~= self.entries@.take(i - 1));
            }
            if e.0 == id && e.1 == slot {
                return Some(e.2);
            }
            i -= 1;
        }
        None
    }
}

impl MarkovLookup {
    pub fn get(&self, from: usize, to: usize) -> (r: Option<Weight>)
        ensures
            r == markov_lookup(self.entries@, from as int, to as int),
    {
        let mut i = self.entries.len();
        proof {
            assert(self.entries@.take(self.entries@.len() as int) =~= self.entries@);
        }
        while i > 0
            invariant
                i <= self.entries@.len(),
                markov_lookup(self.entries@, from as int, to as int) == markov_lookup(
                    self.entries@.take(i as int),
                    from as int,
                    to as int,
                ),
            decreases i,
        {
            let e = self.entries[i - 1];
            proof {
                assert(self.entries@.take(i as int).last() == self.entries@[i - 1]);
                assert(self.entries@.take(i as int).drop_last() =~= self.entries@.take(i - 1));
            }
            if e.0 == from && e.1 == to {
                return Some(e.2);
            }
            i -= 1;
        }
        None
    }
}

impl Problem {
    /// Build the two transient lookup tables used by the evaluator: the
    /// heatmap keyed `(activity_id, slot)` and the sequencing rewards
    /// keyed `(from_id, to_id)`.
    pub fn build_lookup_maps(&self) -> (r: (HeatmapLookup, MarkovLookup))
        ensures
            r.0.entries@ == self.heatmap@,
            r.1.entries@ == self.markov_matrix@,
    {
        let mut h_entries: Vec<(ActivityId, TimeSlot, Weight)> = Vec::new();
        let mut i: usize = 0;
        while i < self.heatmap.len()
            invariant
                i <= self.heatmap@.len(),
                h_entries@ == self.heatmap@.take(i as int),
            decreases self.heatmap@.len() - i,
        {
            h_entries.push(self.heatmap[i]);
            proof {
                assert(self.heatmap@.take(i + 1) =~= self.heatmap@.take(i as int).push(
                    self.heatmap@[i as int],
                ));
            }
            i += 1;
        }
        let mut m_entries: Vec<(ActivityId, ActivityId, Weight)> = Vec::new();
        let mut j: usize = 0;
        while j < self.markov_matrix.len()
            invariant
                j <= self.markov_matrix@.len(),
                m_entries@ == self.markov_matrix@.take(j as int),
            decreases self.markov_matrix@.len() - j,
        {
            m_entries.push(self.markov_matrix[j]);
            proof {
                assert(self.markov_matrix@.take(j + 1) =~= self.markov_matrix@.take(j as int).push(
                    self.markov_matrix@[j as int],
                ));
            }
            j += 1;
        }
        proof {
            assert(self.heatmap@.take(self.heatmap@.len() as int) =~= self.heatmap@);
            assert(self.markov_matrix@.take(self.markov_matrix@.len() as int)
                =~= self.markov_matrix@);
        }
        (HeatmapLookup { entries: h_entries }, MarkovLookup { entries: m_entries })
    }
}

} // verus!
