use diem_solver::candidate_slots::build_candidate_start_slots;
use diem_solver::fitness::DiemFitness;
use diem_solver::types::{
    Activity, ActivityType, Binding, FrequencyTarget, GlobalConstraint, Problem, TimeScope,
    UserFrequencyConstraint,
};
use std::collections::HashMap;

fn base_activity(id: usize) -> Activity {
    Activity {
        id,
        activity_type: ActivityType::Floating,
        duration_slots: 2,
        priority: 0,
        assigned_start: None,
        category_id: 0,
        input_bindings: vec![],
        output_bindings: vec![],
        frequency_targets: Vec::<FrequencyTarget>::new(),
        user_frequency_constraints: Vec::<UserFrequencyConstraint>::new(),
    }
}

fn chromosome_from_assignments(
    problem: &Problem,
    candidate_slots: &[u16],
    assignments: &[(u16, u16)],
) -> Vec<u16> {
    let sentinel = u16::try_from(problem.floating_indices.len()).unwrap();
    let mut genes = vec![sentinel; candidate_slots.len()];
    let mut slot_to_index = HashMap::<u16, usize>::new();
    for (idx, slot) in candidate_slots.iter().enumerate() {
        slot_to_index.insert(*slot, idx);
    }
    for (slot, floating_choice) in assignments {
        let idx = *slot_to_index
            .get(slot)
            .unwrap_or_else(|| panic!("slot {} is not in candidate slot set", slot));
        genes[idx] = *floating_choice;
    }
    genes
}

fn score_of(problem: &Problem, assignments: &[(u16, u16)]) -> i128 {
    let candidate_slots = build_candidate_start_slots(problem);
    let chromosome = chromosome_from_assignments(problem, &candidate_slots, assignments);
    let fitness = DiemFitness::new(problem.clone(), candidate_slots);
    fitness
        .calculate_for_chromosome(&chromosome)
        .expect("fitness should be computed")
}

#[test]
fn output_binding_penalizes_when_successor_never_comes() {
    let a = base_activity(0);
    let mut b = base_activity(1);
    b.output_bindings.push(Binding {
        required_sets: vec![vec![0]],
        time_scope: TimeScope::SameDay,
        valid_weekdays: 0b1111111,
        weight: 10_000,
    });

    let problem = Problem {
        activities: vec![a, b],
        floating_indices: vec![0, 1],
        fixed_indices: vec![],
        global_constraints: vec![],
        heatmap: vec![],
        markov_matrix: vec![],
        total_slots: 96,
    };

    // B before A: the required activity still lies in the future.
    let future_met = score_of(&problem, &[(5, 1), (20, 0)]);
    // B after A: nothing of activity 0 remains ahead.
    let future_unmet = score_of(&problem, &[(5, 0), (20, 1)]);

    assert!(
        future_met > future_unmet,
        "output binding should penalize a missing future occurrence"
    );
}

#[test]
fn cumulative_periodic_penalizes_overfull_bucket_only() {
    let mut a = base_activity(0);
    a.duration_slots = 4;
    let problem = Problem {
        activities: vec![a],
        floating_indices: vec![0],
        fixed_indices: vec![],
        global_constraints: vec![GlobalConstraint::CumulativeTime {
            activity_id: Some(0),
            category_id: None,
            period_slots: 96,
            min_duration: 4,
            max_duration: 8,
            deadline_end: None,
        }],
        heatmap: vec![],
        markov_matrix: vec![],
        total_slots: 192,
    };

    // One occurrence on day one: 4 slots, inside [4, 8]; day two stays
    // empty and an empty bucket owes nothing.
    let within = score_of(&problem, &[(0, 0)]);
    // Three occurrences on day one: 12 slots, 4 over the cap.
    let overfull = score_of(&problem, &[(0, 0), (8, 0), (16, 0)]);

    assert!(
        within > overfull,
        "an overfull period bucket should be penalized"
    );
    // 190 sentinel hundredths versus 4 slots of deviation at 10,000 each:
    // the deviation dominates by exactly 40,000 whole units up to the two
    // extra sentinel hundredths the smaller schedule keeps.
    assert_eq!(within, 1);
    assert_eq!(overfull, -39_998);
}

#[test]
fn cumulative_with_mismatched_category_contributes_nothing() {
    let mut a = base_activity(0);
    a.duration_slots = 4;
    a.category_id = 3;
    let constraint = GlobalConstraint::CumulativeTime {
        activity_id: Some(0),
        category_id: Some(7),
        period_slots: 96,
        min_duration: 90,
        max_duration: 95,
        deadline_end: None,
    };
    let with_constraint = Problem {
        activities: vec![a.clone()],
        floating_indices: vec![0],
        fixed_indices: vec![],
        global_constraints: vec![constraint],
        heatmap: vec![],
        markov_matrix: vec![],
        total_slots: 96,
    };
    let mut without_constraint = with_constraint.clone();
    without_constraint.global_constraints.clear();

    // Activity 0 carries category 3, not 7, so the constraint is silently
    // rejected and both problems score alike.
    let assignments = [(0u16, 0u16)];
    assert_eq!(
        score_of(&with_constraint, &assignments),
        score_of(&without_constraint, &assignments)
    );
}

#[test]
fn weekly_overshoot_is_normalized_per_day() {
    let mut a = base_activity(0);
    a.frequency_targets.push(FrequencyTarget {
        scope: TimeScope::SameWeek,
        target_count: 0,
        weight: 700,
    });
    let problem = Problem {
        activities: vec![a],
        floating_indices: vec![0],
        fixed_indices: vec![],
        global_constraints: vec![],
        heatmap: vec![],
        markov_matrix: vec![],
        total_slots: 192,
    };
    // Two occurrences over a zero target: excess 2, normalized per day:
    // 7.00 * 6 * 2 / 7 = 12.00 of penalty against 1.90 of sentinel reward.
    let score = score_of(&problem, &[(0, 0), (8, 0)]);
    assert_eq!(score, -10);
}

#[test]
fn markov_reward_exact_value() {
    let a = base_activity(0);
    let b = base_activity(1);
    let problem = Problem {
        activities: vec![a, b],
        floating_indices: vec![0, 1],
        fixed_indices: vec![],
        global_constraints: vec![],
        heatmap: vec![],
        markov_matrix: vec![(0, 1, 100)],
        total_slots: 96,
    };
    // Gap of exactly two slots after the first item's end: the reward of
    // 1.00 weighted by 5 raises the score by exactly 5 whole units.
    let with_reward = score_of(&problem, &[(0, 0), (4, 1)]);
    let without_reward = score_of(&problem, &[(0, 0), (5, 1)]);
    assert_eq!(with_reward - without_reward, 5);
}

#[test]
fn well_formedness_check_accepts_and_rejects() {
    let a = base_activity(0);
    let good = Problem {
        activities: vec![a],
        floating_indices: vec![0],
        fixed_indices: vec![],
        global_constraints: vec![],
        heatmap: vec![],
        markov_matrix: vec![],
        total_slots: 96,
    };
    assert!(good.is_well_formed());

    let mut bad_index = good.clone();
    bad_index.floating_indices = vec![3];
    assert!(!bad_index.is_well_formed());

    let mut bad_id = good.clone();
    bad_id.activities[0].id = 9;
    assert!(!bad_id.is_well_formed());

    let mut bad_weight = good.clone();
    bad_weight.activities[0].priority = -1;
    assert!(!bad_weight.is_well_formed());

    let mut bad_period = good.clone();
    bad_period.global_constraints.push(GlobalConstraint::CumulativeTime {
        activity_id: None,
        category_id: None,
        period_slots: 0,
        min_duration: 0,
        max_duration: 4,
        deadline_end: None,
    });
    assert!(!bad_period.is_well_formed());

    let mut bad_heat = good.clone();
    bad_heat.heatmap.push((0, 0, diem_solver::types::MAX_WEIGHT + 1));
    assert!(!bad_heat.is_well_formed());
}
