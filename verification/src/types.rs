use vstd::prelude::*;

verus! {

/// A 15-minute time unit; the horizon is `total_slots` contiguous slots
/// starting at index 0, slot 0 being a Monday morning.
pub type TimeSlot = u16;

/// Small non-negative integer identifying an activity template.
/// Ids need not be unique across activities.
pub type ActivityId = usize;

/// Small non-negative integer identifying a category of activities.
pub type CategoryId = usize;

/// All weights, priorities and scores are fixed-point values counted in
/// hundredths, so a stored `150` means one and a half score units.
pub type Weight = i64;

/// Number of slots in one day.
pub const SLOTS_PER_DAY: u16 = 96;

/// Number of slots in one week.
pub const SLOTS_PER_WEEK: u16 = 672;

/// Fixed-point scale: stored weights and scores are in hundredths.
pub const WEIGHT_SCALE: i64 = 100;

/// Largest magnitude accepted for any stored weight or priority
/// (ten million score units in hundredths). The bound keeps every
/// intermediate sum of the evaluator well inside its integer type.
pub const MAX_WEIGHT: Weight = 1_000_000_000;

/// Largest accepted length for any list carried by a `Problem`.
pub const MAX_LIST_LEN: usize = 100_000;

#[derive(Clone, Copy, PartialEq, Eq, Structural, Debug)]
pub enum ActivityType {
    /// Immutable: the start slot is preassigned.
    Fixed,
    /// An optimization variable: the solver chooses zero or more start slots.
    Floating,
}

/// Temporal grouping for counts and bindings.
#[derive(Clone, Copy, PartialEq, Eq, Structural, Debug)]
pub enum TimeScope {
    SameDay,
    SameWeek,
    SameMonth,
}

/// A soft objective: reward coverage up to `target_count` occurrences per
/// scope bucket, penalize overshoot.
#[derive(Clone, Debug)]
pub struct FrequencyTarget {
    pub scope: TimeScope,
    pub target_count: u16,
    pub weight: Weight,
}

/// A disjunction of conjunctions over activity ids (DNF), applied on the
/// weekdays enabled in `valid_weekdays` (bit 0 = Monday .. bit 6 = Sunday),
/// within `time_scope`. `weight` is the penalty when unsatisfied.
#[derive(Clone, Debug)]
pub struct Binding {
    pub required_sets: Vec<Vec<ActivityId>>,
    pub time_scope: TimeScope,
    pub valid_weekdays: u8,
    pub weight: Weight,
}

/// A quasi-hard count constraint per scope bucket. When `deadline_end` is
/// set, only occurrences ending at or before that slot count.
#[derive(Clone, Debug)]
pub struct UserFrequencyConstraint {
    pub scope: TimeScope,
    pub min_count: Option<u16>,
    pub max_count: Option<u16>,
    pub deadline_end: Option<TimeSlot>,
    pub penalty_weight: Weight,
}

/// A named work unit. Fixed activities carry `assigned_start`; floating
/// activities are placed by the solver.
#[derive(Clone, Debug)]
pub struct Activity {
    pub id: ActivityId,
    pub activity_type: ActivityType,
    pub duration_slots: u16,
    pub priority: Weight,
    pub assigned_start: Option<TimeSlot>,
    pub category_id: CategoryId,
    pub input_bindings: Vec<Binding>,
    pub output_bindings: Vec<Binding>,
    pub frequency_targets: Vec<FrequencyTarget>,
    pub user_frequency_constraints: Vec<UserFrequencyConstraint>,
}

#[derive(Clone, Debug)]
pub enum GlobalConstraint {
    /// No floating activity may overlap `[start, end)`.
    ForbiddenZone {
        start: TimeSlot,
        end: TimeSlot,
    },
    /// Total duration of matching events, grouped into buckets of
    /// `period_slots` or counted once against `deadline_end`, must lie in
    /// `[min_duration, max_duration]`.
    CumulativeTime {
        activity_id: Option<ActivityId>,
        category_id: Option<CategoryId>,
        period_slots: u16,
        min_duration: u16,
        max_duration: u16,
        deadline_end: Option<TimeSlot>,
    },
}

/// The solver input. Immutable after construction.
#[derive(Clone, Debug)]
pub struct Problem {
    pub activities: Vec<Activity>,
    pub floating_indices: Vec<usize>,
    pub fixed_indices: Vec<usize>,
    pub global_constraints: Vec<GlobalConstraint>,
    /// Sparse affinity of an activity for a start slot: `(id, slot, weight)`.
    pub heatmap: Vec<(ActivityId, TimeSlot, Weight)>,
    /// Sparse sequencing reward: `(from_id, to_id, weight)`.
    pub markov_matrix: Vec<(ActivityId, ActivityId, Weight)>,
    pub total_slots: u16,
}

impl Binding {
    pub open spec fn wf(self) -> bool {
        &&& 0 <= self.weight <= MAX_WEIGHT
        &&& self.required_sets@.len() <= MAX_LIST_LEN
        &&& forall|i: int|
            0 <= i < self.required_sets@.len() ==> self.required_sets@[i]@.len() <= MAX_LIST_LEN
    }
}

impl Activity {
    pub open spec fn wf(self) -> bool {
        &&& 0 <= self.priority <= MAX_WEIGHT
        &&& self.input_bindings@.len() <= MAX_LIST_LEN
        &&& self.output_bindings@.len() <= MAX_LIST_LEN
        &&& self.frequency_targets@.len() <= MAX_LIST_LEN
        &&& self.user_frequency_constraints@.len() <= MAX_LIST_LEN
        &&& forall|i: int| 0 <= i < self.input_bindings@.len() ==> self.input_bindings@[i].wf()
        &&& forall|i: int| 0 <= i < self.output_bindings@.len() ==> self.output_bindings@[i].wf()
        &&& forall|i: int|
            0 <= i < self.frequency_targets@.len() ==> 0 <= (
            #[trigger] self.frequency_targets@[i]).weight <= MAX_WEIGHT
        &&& forall|i: int|
            0 <= i < self.user_frequency_constraints@.len() ==> 0 <= (
            #[trigger] self.user_frequency_constraints@[i]).penalty_weight <= MAX_WEIGHT
    }
}

impl Binding {
    /// Decide `wf` at run time.
    pub fn check_wf(&self) -> (r: bool)
        ensures
            r == self.wf(),
    {
        if self.weight < 0 || self.weight > MAX_WEIGHT || self.required_sets.len() > MAX_LIST_LEN {
            return false;
        }
        let mut i: usize = 0;
        while i < self.required_sets.len()
            invariant
                i <= self.required_sets@.len(),
                forall|j: int| 0 <= j < i ==> self.required_sets@[j]@.len() <= MAX_LIST_LEN,
            decreases self.required_sets@.len() - i,
        {
            if self.required_sets[i].len() > MAX_LIST_LEN {
                return false;
            }
            i += 1;
        }
        true
    }
}

impl Activity {
    /// Decide `wf` at run time.
    pub fn check_wf(&self) -> (r: bool)
        ensures
            r == self.wf(),
    {
        if self.priority < 0 || self.priority > MAX_WEIGHT || self.input_bindings.len()
            > MAX_LIST_LEN || self.output_bindings.len() > MAX_LIST_LEN
            || self.frequency_targets.len() > MAX_LIST_LEN || self.user_frequency_constraints.len()
            > MAX_LIST_LEN {
            return false;
        }
        let mut i: usize = 0;
        while i < self.input_bindings.len()
            invariant
                i <= self.input_bindings@.len(),
                forall|j: int| 0 <= j < i ==> (#[trigger] self.input_bindings@[j]).wf(),
            decreases self.input_bindings@.len() - i,
        {
            if !self.input_bindings[i].check_wf() {
                return false;
            }
            i += 1;
        }
        let mut i: usize = 0;
        while i < self.output_bindings.len()
            invariant
                i <= self.output_bindings@.len(),
                forall|j: int| 0 <= j < i ==> (#[trigger] self.output_bindings@[j]).wf(),
            decreases self.output_bindings@.len() - i,
        {
            if !self.output_bindings[i].check_wf() {
                return false;
            }
            i += 1;
        }
        let mut i: usize = 0;
        while i < self.frequency_targets.len()
            invariant
                i <= self.frequency_targets@.len(),
                forall|j: int|
                    0 <= j < i ==> 0 <= (#[trigger] self.frequency_targets@[j]).weight
                        <= MAX_WEIGHT,
            decreases self.frequency_targets@.len() - i,
        {
            if self.frequency_targets[i].weight < 0 || self.frequency_targets[i].weight
                > MAX_WEIGHT {
                return false;
            }
            i += 1;
        }
        let mut i: usize = 0;
        while i < self.user_frequency_constraints.len()
            invariant
                i <= self.user_frequency_constraints@.len(),
                forall|j: int|
                    0 <= j < i ==> 0 <= (#[trigger] self.user_frequency_constraints@[j]).penalty_weight
                        <= MAX_WEIGHT,
            decreases self.user_frequency_constraints@.len() - i,
        {
            if self.user_frequency_constraints[i].penalty_weight < 0
                || self.user_frequency_constraints[i].penalty_weight > MAX_WEIGHT {
                return false;
            }
            i += 1;
        }
        true
    }
}

impl GlobalConstraint {
    /// A periodic cumulative constraint must have a positive bucket size
    /// unless the single-bucket form (`period_slots >= total_slots`) applies.
    pub open spec fn wf(self, total_slots: u16) -> bool {
        match self {
            GlobalConstraint::ForbiddenZone { .. } => true,
            GlobalConstraint::CumulativeTime { period_slots, .. } => period_slots > 0
                || period_slots >= total_slots,
        }
    }
}

impl Problem {
    /// Well-formedness: indices select real activities, list lengths and
    /// weight magnitudes stay within the documented caps.
    pub open spec fn wf(self) -> bool {
        &&& self.activities@.len() <= MAX_LIST_LEN
        &&& self.floating_indices@.len() <= MAX_LIST_LEN
        &&& self.fixed_indices@.len() <= MAX_LIST_LEN
        &&& self.global_constraints@.len() <= MAX_LIST_LEN
        &&& self.heatmap@.len() <= MAX_LIST_LEN
        &&& self.markov_matrix@.len() <= MAX_LIST_LEN
        &&& forall|i: int|
            0 <= i < self.floating_indices@.len() ==> self.floating_indices@[i]
                < self.activities@.len()
        &&& forall|i: int|
            0 <= i < self.fixed_indices@.len() ==> self.fixed_indices@[i] < self.activities@.len()
        &&& forall|i: int| 0 <= i < self.activities@.len() ==> self.activities@[i].wf()
        &&& forall|i: int|
            0 <= i < self.activities@.len() ==> (#[trigger] self.activities@[i]).id
                < self.activities@.len()
        &&& forall|i: int|
            0 <= i < self.global_constraints@.len() ==> self.global_constraints@[i].wf(
                self.total_slots,
            )
        &&& forall|i: int|
            0 <= i < self.heatmap@.len() ==> 0 <= (#[trigger] self.heatmap@[i]).2 <= MAX_WEIGHT
        &&& forall|i: int|
            0 <= i < self.markov_matrix@.len() ==> 0 <= (#[trigger] self.markov_matrix@[i]).2
                <= MAX_WEIGHT
    }

    /// Number of day buckets the evaluator sweeps.
    pub open spec fn num_days(self) -> int {
        self.total_slots as int / SLOTS_PER_DAY as int + 1
    }

    /// Number of week buckets the evaluator sweeps.
    pub open spec fn num_weeks(self) -> int {
        self.total_slots as int / SLOTS_PER_WEEK as int + 1
    }

    /// Decide well-formedness at run time, so an unverified caller can
    /// test a problem before handing it to the evaluator.
    pub fn is_well_formed(&self) -> (r: bool)
        ensures
            r == self.wf(),
    {
        if self.activities.len() > MAX_LIST_LEN || self.floating_indices.len() > MAX_LIST_LEN
            || self.fixed_indices.len() > MAX_LIST_LEN || self.global_constraints.len()
            > MAX_LIST_LEN || self.heatmap.len() > MAX_LIST_LEN || self.markov_matrix.len()
            > MAX_LIST_LEN {
            return false;
        }
        let n = self.activities.len();
        let mut i: usize = 0;
        while i < self.floating_indices.len()
            invariant
                n == self.activities@.len(),
                i <= self.floating_indices@.len(),
                forall|j: int| 0 <= j < i ==> self.floating_indices@[j] < n,
            decreases self.floating_indices@.len() - i,
        {
            if self.floating_indices[i] >= n {
                return false;
            }
            i += 1;
        }
        let mut i: usize = 0;
        while i < self.fixed_indices.len()
            invariant
                n == self.activities@.len(),
                i <= self.fixed_indices@.len(),
                forall|j: int| 0 <= j < i ==> self.fixed_indices@[j] < n,
            decreases self.fixed_indices@.len() - i,
        {
            if self.fixed_indices[i] >= n {
                return false;
            }
            i += 1;
        }
        let mut i: usize = 0;
        while i < self.activities.len()
            invariant
                n == self.activities@.len(),
                i <= self.activities@.len(),
                forall|j: int|
                    0 <= j < i ==> (#[trigger] self.activities@[j]).wf() && self.activities@[j].id
                        < n,
            decreases self.activities@.len() - i,
        {
            if !self.activities[i].check_wf() || self.activities[i].id >= n {
                return false;
            }
            i += 1;
        }
        let mut i: usize = 0;
        while i < self.global_constraints.len()
            invariant
                i <= self.global_constraints@.len(),
                forall|j: int|
                    0 <= j < i ==> (#[trigger] self.global_constraints@[j]).wf(self.total_slots),
            decreases self.global_constraints@.len() - i,
        {
            match self.global_constraints[i] {
                GlobalConstraint::ForbiddenZone { .. } => {},
                GlobalConstraint::CumulativeTime { period_slots, .. } => {
                    if period_slots == 0 && period_slots < self.total_slots {
                        return false;
                    }
                },
            }
            i += 1;
        }
        let mut i: usize = 0;
        while i < self.heatmap.len()
            invariant
                i <= self.heatmap@.len(),
                forall|j: int| 0 <= j < i ==> 0 <= (#[trigger] self.heatmap@[j]).2 <= MAX_WEIGHT,
            decreases self.heatmap@.len() - i,
        {
            if self.heatmap[i].2 < 0 || self.heatmap[i].2 > MAX_WEIGHT {
                return false;
            }
            i += 1;
        }
        let mut i: usize = 0;
        while i < self.markov_matrix.len()
            invariant
                i <= self.markov_matrix@.len(),
                forall|j: int|
                    0 <= j < i ==> 0 <= (#[trigger] self.markov_matrix@[j]).2 <= MAX_WEIGHT,
            decreases self.markov_matrix@.len() - i,
        {
            if self.markov_matrix[i].2 < 0 || self.markov_matrix[i].2 > MAX_WEIGHT {
                return false;
            }
            i += 1;
        }
        true
    }

    /// The allele value meaning "no activity at this candidate slot": the
    /// number of floating templates, saturated to the allele type.
    pub open spec fn sentinel_allele(self) -> u16 {
        if self.floating_indices@.len() <= u16::MAX {
            self.floating_indices@.len() as u16
        } else {
            u16::MAX
        }
    }
}

} // verus!
