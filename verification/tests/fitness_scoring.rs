use diem_solver::candidate_slots::build_candidate_start_slots;
use diem_solver::fitness::DiemFitness;
use diem_solver::types::{
    Activity, ActivityType, Binding, FrequencyTarget, GlobalConstraint, Problem, TimeScope,
    UserFrequencyConstraint,
};
use std::collections::HashMap;

fn base_activity(id: usize) -> Activity {
    Activity {
        id,
        activity_type: ActivityType::Floating,
        duration_slots: 2,
        priority: 100,
        assigned_start: None,
        category_id: 0,
        input_bindings: vec![],
        output_bindings: vec![],
        frequency_targets: Vec::<FrequencyTarget>::new(),
        user_frequency_constraints: Vec::<UserFrequencyConstraint>::new(),
    }
}

fn no_activity_allele(problem: &Problem) -> u16 {
    u16::try_from(problem.floating_indices.len())
        .expect("floating activity count must fit in u16 for tests")
}

fn chromosome_from_assignments(
    problem: &Problem,
    candidate_slots: &[u16],
    assignments: &[(u16, u16)],
) -> Vec<u16> {
    let sentinel = no_activity_allele(problem);
    let mut genes = vec![sentinel; candidate_slots.len()];
    let mut slot_to_index = HashMap::<u16, usize>::new();
    for (idx, slot) in candidate_slots.iter().enumerate() {
        slot_to_index.insert(*slot, idx);
    }
    for (slot, floating_choice) in assignments {
        let idx = *slot_to_index
            .get(slot)
            .unwrap_or_else(|| panic!("slot {} is not in candidate slot set", slot));
        genes[idx] = *floating_choice;
    }
    genes
}

#[test]
fn input_binding_penalizes_when_predecessor_not_seen() {
    let mut a = base_activity(0);
    let mut b = base_activity(1);
    a.priority = 0;
    b.priority = 0;

    b.input_bindings.push(Binding {
        required_sets: vec![vec![0]],
        time_scope: TimeScope::SameDay,
        valid_weekdays: 0b1111111,
        weight: 10_000,
    });

    let problem = Problem {
        activities: vec![a, b],
        floating_indices: vec![0, 1],
        fixed_indices: vec![],
        global_constraints: vec![],
        heatmap: vec![],
        markov_matrix: vec![],
        total_slots: 96,
    };

    let candidate_slots = build_candidate_start_slots(&problem);
    let valid = chromosome_from_assignments(&problem, &candidate_slots, &[(5, 0), (20, 1)]);
    let invalid = chromosome_from_assignments(&problem, &candidate_slots, &[(20, 0), (5, 1)]);

    let fitness = DiemFitness::new(problem.clone(), candidate_slots.clone());

    let valid_score = fitness
        .calculate_for_chromosome(&valid)
        .expect("fitness should be computed");

    let fitness = DiemFitness::new(problem, candidate_slots);
    let invalid_score = fitness
        .calculate_for_chromosome(&invalid)
        .expect("fitness should be computed");

    assert!(
        valid_score > invalid_score,
        "input binding should penalize invalid ordering"
    );
}

#[test]
fn weekday_mask_skips_binding_outside_applicable_day() {
    let mut a = base_activity(0);
    let mut b = base_activity(1);
    a.priority = 0;
    b.priority = 0;

    b.input_bindings.push(Binding {
        required_sets: vec![vec![0]],
        time_scope: TimeScope::SameDay,
        valid_weekdays: 1 << 0, // Monday only
        weight: 20_000,
    });

    let problem = Problem {
        activities: vec![a, b],
        floating_indices: vec![0, 1],
        fixed_indices: vec![],
        global_constraints: vec![],
        heatmap: vec![],
        markov_matrix: vec![],
        total_slots: 96 * 2,
    };

    // Day 1 (Tuesday in solver's weekday mapping), so Monday-only binding is ignored.
    let candidate_slots = build_candidate_start_slots(&problem);
    let chromosome =
        chromosome_from_assignments(&problem, &candidate_slots, &[(96 + 20, 0), (96 + 5, 1)]);

    let with_mask = DiemFitness::new(problem.clone(), candidate_slots.clone());
    let masked_score = with_mask
        .calculate_for_chromosome(&chromosome)
        .expect("fitness should be computed");

    // Same binding but applicable every weekday should apply penalty.
    let mut no_mask_problem = problem;
    no_mask_problem.activities[1].input_bindings[0].valid_weekdays = 0b1111111;
    let without_mask = DiemFitness::new(no_mask_problem, candidate_slots);
    let unmasked_score = without_mask
        .calculate_for_chromosome(&chromosome)
        .expect("fitness should be computed");

    assert!(
        masked_score > unmasked_score,
        "weekday mask should prevent penalty on non-applicable days"
    );
}

#[test]
fn markov_reward_applies_within_gap_tolerance() {
    let mut a = base_activity(0);
    let mut b = base_activity(1);
    a.priority = 0;
    b.priority = 0;

    let problem = Problem {
        activities: vec![a, b],
        floating_indices: vec![0, 1],
        fixed_indices: vec![],
        global_constraints: vec![],
        heatmap: vec![],
        markov_matrix: vec![(0, 1, 100)],
        total_slots: 96,
    };

    let candidate_slots = build_candidate_start_slots(&problem);
    let within_gap = chromosome_from_assignments(&problem, &candidate_slots, &[(0, 0), (4, 1)]);
    let outside_gap = chromosome_from_assignments(&problem, &candidate_slots, &[(0, 0), (5, 1)]);

    let fitness = DiemFitness::new(problem.clone(), candidate_slots.clone());
    let within_score = fitness
        .calculate_for_chromosome(&within_gap)
        .expect("fitness should be computed");

    let fitness = DiemFitness::new(problem, candidate_slots);
    let outside_score = fitness
        .calculate_for_chromosome(&outside_gap)
        .expect("fitness should be computed");

    assert!(
        within_score > outside_score,
        "markov reward should be applied only within gap tolerance"
    );
}

#[test]
fn user_frequency_min_penalizes_shortfall() {
    let mut a = base_activity(0);
    a.priority = 0;
    a.user_frequency_constraints.push(UserFrequencyConstraint {
        scope: TimeScope::SameDay,
        min_count: Some(1),
        max_count: None,
        deadline_end: None,
        penalty_weight: 50_000,
    });

    let problem = Problem {
        activities: vec![a],
        floating_indices: vec![0],
        fixed_indices: vec![],
        global_constraints: vec![],
        heatmap: vec![],
        markov_matrix: vec![],
        total_slots: 96,
    };

    let candidate_slots = build_candidate_start_slots(&problem);
    let chromosome = chromosome_from_assignments(&problem, &candidate_slots, &[(2, 0)]);

    let fitness = DiemFitness::new(problem.clone(), candidate_slots.clone());
    let constrained_score = fitness
        .calculate_for_chromosome(&chromosome)
        .expect("fitness should be computed");

    let mut unconstrained = problem;
    unconstrained.activities[0].user_frequency_constraints.clear();
    let fitness = DiemFitness::new(unconstrained, candidate_slots);
    let unconstrained_score = fitness
        .calculate_for_chromosome(&chromosome)
        .expect("fitness should be computed");

    assert!(
        constrained_score < unconstrained_score,
        "minimum frequency constraint should reduce score when unmet"
    );
}

#[test]
fn user_frequency_max_penalizes_overshoot() {
    let mut a = base_activity(0);
    a.priority = 0;
    a.user_frequency_constraints.push(UserFrequencyConstraint {
        scope: TimeScope::SameDay,
        min_count: None,
        max_count: Some(0),
        deadline_end: None,
        penalty_weight: 50_000,
    });

    let problem = Problem {
        activities: vec![a],
        floating_indices: vec![0],
        fixed_indices: vec![],
        global_constraints: vec![],
        heatmap: vec![],
        markov_matrix: vec![],
        total_slots: 96,
    };

    let candidate_slots = build_candidate_start_slots(&problem);
    let chromosome = chromosome_from_assignments(&problem, &candidate_slots, &[(0, 0)]);

    let fitness = DiemFitness::new(problem.clone(), candidate_slots.clone());
    let constrained_score = fitness
        .calculate_for_chromosome(&chromosome)
        .expect("fitness should be computed");

    let mut unconstrained = problem;
    unconstrained.activities[0].user_frequency_constraints.clear();
    let fitness = DiemFitness::new(unconstrained, candidate_slots);
    let unconstrained_score = fitness
        .calculate_for_chromosome(&chromosome)
        .expect("fitness should be computed");

    assert!(
        constrained_score < unconstrained_score,
        "maximum frequency constraint should penalize overshoot"
    );
}

#[test]
fn soft_frequency_target_penalizes_overshoot() {
    let mut a = base_activity(0);
    a.priority = 0;
    a.frequency_targets.push(FrequencyTarget {
        scope: TimeScope::SameDay,
        target_count: 1,
        weight: 1_000,
    });

    let problem = Problem {
        activities: vec![a],
        floating_indices: vec![0],
        fixed_indices: vec![],
        global_constraints: vec![],
        heatmap: vec![],
        markov_matrix: vec![],
        total_slots: 96,
    };

    let candidate_slots = build_candidate_start_slots(&problem);
    let at_target = chromosome_from_assignments(&problem, &candidate_slots, &[(0, 0)]);
    let overshoot =
        chromosome_from_assignments(&problem, &candidate_slots, &[(0, 0), (4, 0), (8, 0)]);

    let fitness = DiemFitness::new(problem.clone(), candidate_slots.clone());
    let at_target_score = fitness
        .calculate_for_chromosome(&at_target)
        .expect("fitness should be computed");

    let fitness = DiemFitness::new(problem, candidate_slots);
    let overshoot_score = fitness
        .calculate_for_chromosome(&overshoot)
        .expect("fitness should be computed");

    assert!(
        at_target_score > overshoot_score,
        "soft frequency targets should penalize overshoot beyond target"
    );
}

#[test]
fn frequency_deadline_counts_only_occurrences_ending_before_deadline() {
    let mut a = base_activity(0);
    a.priority = 0;
    a.duration_slots = 2;
    a.user_frequency_constraints.push(UserFrequencyConstraint {
        scope: TimeScope::SameMonth,
        min_count: Some(1),
        max_count: None,
        deadline_end: Some(10),
        penalty_weight: 50_000,
    });

    let problem = Problem {
        activities: vec![a],
        floating_indices: vec![0],
        fixed_indices: vec![],
        global_constraints: vec![],
        heatmap: vec![],
        markov_matrix: vec![],
        total_slots: 96,
    };

    let candidate_slots = build_candidate_start_slots(&problem);
    let by_deadline = chromosome_from_assignments(&problem, &candidate_slots, &[(8, 0)]); // ends at 10
    let after_deadline = chromosome_from_assignments(&problem, &candidate_slots, &[(20, 0)]); // ends at 22

    let fitness = DiemFitness::new(problem.clone(), candidate_slots.clone());
    let by_deadline_score = fitness
        .calculate_for_chromosome(&by_deadline)
        .expect("fitness should be computed");

    let fitness = DiemFitness::new(problem, candidate_slots);
    let after_deadline_score = fitness
        .calculate_for_chromosome(&after_deadline)
        .expect("fitness should be computed");

    assert!(
        by_deadline_score > after_deadline_score,
        "frequency deadline mode should only count occurrences finishing by deadline_end"
    );
}

#[test]
fn cumulative_deadline_enforces_min_duration_before_deadline() {
    let mut a = base_activity(0);
    a.priority = 0;
    a.duration_slots = 4;

    let problem = Problem {
        activities: vec![a],
        floating_indices: vec![0],
        fixed_indices: vec![],
        global_constraints: vec![GlobalConstraint::CumulativeTime {
            activity_id: Some(0),
            category_id: None,
            period_slots: 96,
            min_duration: 4,
            max_duration: 32,
            deadline_end: Some(20),
        }],
        heatmap: vec![],
        markov_matrix: vec![],
        total_slots: 96,
    };

    let candidate_slots = build_candidate_start_slots(&problem);
    let meets_deadline = chromosome_from_assignments(&problem, &candidate_slots, &[(8, 0)]); // ends at 12
    let misses_deadline = chromosome_from_assignments(&problem, &candidate_slots, &[(24, 0)]); // ends at 28

    let fitness = DiemFitness::new(problem.clone(), candidate_slots.clone());
    let meets_score = fitness
        .calculate_for_chromosome(&meets_deadline)
        .expect("fitness should be computed");

    let fitness = DiemFitness::new(problem, candidate_slots);
    let misses_score = fitness
        .calculate_for_chromosome(&misses_deadline)
        .expect("fitness should be computed");

    assert!(
        meets_score > misses_score,
        "cumulative deadline mode should enforce minimum duration before deadline_end"
    );
}

#[test]
fn priority_decay_reduces_repeat_incentive() {
    let mut a = base_activity(0);
    a.priority = 100;

    let problem = Problem {
        activities: vec![a],
        floating_indices: vec![0],
        fixed_indices: vec![],
        global_constraints: vec![],
        heatmap: vec![],
        markov_matrix: vec![],
        total_slots: 96,
    };

    let candidate_slots = build_candidate_start_slots(&problem);
    let one_occurrence = chromosome_from_assignments(&problem, &candidate_slots, &[(0, 0)]);
    let two_occurrences =
        chromosome_from_assignments(&problem, &candidate_slots, &[(0, 0), (10, 0)]);

    let fitness = DiemFitness::new(problem.clone(), candidate_slots.clone());
    let one_score = fitness
        .calculate_for_chromosome(&one_occurrence)
        .expect("fitness should be computed");

    let fitness = DiemFitness::new(problem, candidate_slots);
    let two_score = fitness
        .calculate_for_chromosome(&two_occurrences)
        .expect("fitness should be computed");

    assert!(
        two_score > one_score,
        "second occurrence should still add reward"
    );
    assert!(
        two_score - one_score < one_score,
        "marginal reward for repeat should be smaller than first reward"
    );
}

#[test]
fn no_activity_sentinel_adds_small_reward() {
    let mut a = base_activity(0);
    a.priority = 100;
    let problem = Problem {
        activities: vec![a],
        floating_indices: vec![0],
        fixed_indices: vec![],
        global_constraints: vec![],
        heatmap: vec![],
        markov_matrix: vec![],
        total_slots: 200,
    };

    let candidate_slots = build_candidate_start_slots(&problem);
    let sentinel = no_activity_allele(&problem);
    let all_sentinel = vec![sentinel; candidate_slots.len()];
    let one_event = chromosome_from_assignments(&problem, &candidate_slots, &[(0, 0)]);

    let fitness = DiemFitness::new(problem.clone(), candidate_slots.clone());
    let sentinel_score = fitness
        .calculate_for_chromosome(&all_sentinel)
        .expect("fitness should be computed");

    let fitness = DiemFitness::new(problem, candidate_slots);
    let event_score = fitness
        .calculate_for_chromosome(&one_event)
        .expect("fitness should be computed");

    assert!(
        sentinel_score > 0,
        "no-activity chromosome should receive miniscule stability reward"
    );
    assert!(
        event_score >= sentinel_score,
        "no-activity reward must stay tiny and should not dominate actual scheduling"
    );
}

#[test]
fn exact_score_of_single_event_with_sentinels() {
    // One activity of priority 1.00 at slot 0 and 95 sentinel genes:
    // 10.00 priority reward plus 95 * 0.01 stability reward = 10.95,
    // truncated to 10 whole score units.
    let a = base_activity(0);
    let problem = Problem {
        activities: vec![a],
        floating_indices: vec![0],
        fixed_indices: vec![],
        global_constraints: vec![],
        heatmap: vec![],
        markov_matrix: vec![],
        total_slots: 96,
    };
    let candidate_slots = build_candidate_start_slots(&problem);
    assert_eq!(candidate_slots.len(), 96);
    let chromosome = chromosome_from_assignments(&problem, &candidate_slots, &[(0, 0)]);
    let fitness = DiemFitness::new(problem, candidate_slots);
    let score = fitness
        .calculate_for_chromosome(&chromosome)
        .expect("fitness should be computed");
    assert_eq!(score, 10);
}

#[test]
fn exact_overlap_penalty_dominates() {
    // Two overlapping items of priority zero: the score is the overlap
    // penalty of -1,000,000 plus 94 sentinel hundredths, truncated.
    let mut a = base_activity(0);
    a.priority = 0;
    a.duration_slots = 4;
    let problem = Problem {
        activities: vec![a],
        floating_indices: vec![0],
        fixed_indices: vec![],
        global_constraints: vec![],
        heatmap: vec![],
        markov_matrix: vec![],
        total_slots: 96,
    };
    let candidate_slots = build_candidate_start_slots(&problem);
    let overlapping = chromosome_from_assignments(&problem, &candidate_slots, &[(0, 0), (2, 0)]);
    let fitness = DiemFitness::new(problem, candidate_slots);
    let score = fitness
        .calculate_for_chromosome(&overlapping)
        .expect("fitness should be computed");
    // 94 sentinels give 0.94; 0.94 - 1,000,000 truncates toward zero.
    assert_eq!(score, -999_999);
}

#[test]
fn overlap_never_beats_separated_schedule() {
    let mut a = base_activity(0);
    a.duration_slots = 4;
    let problem = Problem {
        activities: vec![a],
        floating_indices: vec![0],
        fixed_indices: vec![],
        global_constraints: vec![],
        heatmap: vec![],
        markov_matrix: vec![],
        total_slots: 96,
    };
    let candidate_slots = build_candidate_start_slots(&problem);
    let overlapping = chromosome_from_assignments(&problem, &candidate_slots, &[(0, 0), (2, 0)]);
    let separated = chromosome_from_assignments(&problem, &candidate_slots, &[(0, 0), (8, 0)]);

    let fitness = DiemFitness::new(problem.clone(), candidate_slots.clone());
    let overlapping_score = fitness
        .calculate_for_chromosome(&overlapping)
        .expect("fitness should be computed");

    let fitness = DiemFitness::new(problem, candidate_slots);
    let separated_score = fitness
        .calculate_for_chromosome(&separated)
        .expect("fitness should be computed");

    assert!(
        overlapping_score <= separated_score,
        "introducing an overlap must never raise the score"
    );
}

#[test]
fn fixed_event_past_horizon_is_penalized() {
    let mut fixed = base_activity(0);
    fixed.activity_type = ActivityType::Fixed;
    fixed.assigned_start = Some(94);
    fixed.duration_slots = 8;
    fixed.priority = 0;
    let problem = Problem {
        activities: vec![fixed],
        floating_indices: vec![],
        fixed_indices: vec![0],
        global_constraints: vec![],
        heatmap: vec![],
        markov_matrix: vec![],
        total_slots: 96,
    };
    let candidate_slots = build_candidate_start_slots(&problem);
    let genes = vec![0u16; candidate_slots.len()];
    let fitness = DiemFitness::new(problem, candidate_slots);
    let score = fitness
        .calculate_for_chromosome(&genes)
        .expect("fitness should be computed");
    assert!(score <= -999_000, "an overrun past the horizon is a hard penalty");
}

#[test]
fn heatmap_reward_prefers_listed_slot() {
    let mut a = base_activity(0);
    a.priority = 0;
    let problem = Problem {
        activities: vec![a],
        floating_indices: vec![0],
        fixed_indices: vec![],
        global_constraints: vec![],
        heatmap: vec![(0, 8, 600)],
        markov_matrix: vec![],
        total_slots: 96,
    };
    let candidate_slots = build_candidate_start_slots(&problem);
    let on_hot_slot = chromosome_from_assignments(&problem, &candidate_slots, &[(8, 0)]);
    let off_hot_slot = chromosome_from_assignments(&problem, &candidate_slots, &[(9, 0)]);

    let fitness = DiemFitness::new(problem.clone(), candidate_slots.clone());
    let hot_score = fitness
        .calculate_for_chromosome(&on_hot_slot)
        .expect("fitness should be computed");

    let fitness = DiemFitness::new(problem, candidate_slots);
    let cold_score = fitness
        .calculate_for_chromosome(&off_hot_slot)
        .expect("fitness should be computed");

    // The heatmap entry of 6.00 weighted by 5 adds exactly 30 whole units.
    assert_eq!(hot_score - cold_score, 30);
}
