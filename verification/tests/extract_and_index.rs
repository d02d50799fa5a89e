use diem_solver::candidate_slots::build_candidate_start_slots;
use diem_solver::extract::extract_schedule;
use diem_solver::prefix_index::{DurationPrefixIndex, count_ends_leq};
use diem_solver::types::{
    Activity, ActivityType, Binding, FrequencyTarget, GlobalConstraint, Problem,
    UserFrequencyConstraint,
};

fn base_activity(id: usize, kind: ActivityType, start: Option<u16>, duration: u16) -> Activity {
    Activity {
        id,
        activity_type: kind,
        duration_slots: duration,
        priority: 100,
        assigned_start: start,
        category_id: 0,
        input_bindings: Vec::<Binding>::new(),
        output_bindings: Vec::<Binding>::new(),
        frequency_targets: Vec::<FrequencyTarget>::new(),
        user_frequency_constraints: Vec::<UserFrequencyConstraint>::new(),
    }
}

#[test]
fn extract_emits_one_pair_per_nonsentinel_allele() {
    let a = base_activity(7, ActivityType::Floating, None, 2);
    let b = base_activity(3, ActivityType::Floating, None, 2);
    let problem = Problem {
        activities: vec![a, b],
        floating_indices: vec![0, 1],
        fixed_indices: vec![],
        global_constraints: vec![GlobalConstraint::ForbiddenZone { start: 0, end: 2 }],
        heatmap: vec![],
        markov_matrix: vec![],
        total_slots: 8,
    };
    let slots = build_candidate_start_slots(&problem);
    assert_eq!(slots, vec![2, 3, 4, 5, 6, 7]);
    // Genes: activity b at slot 2, sentinel, activity a at slot 4, rest sentinel.
    let genes = vec![1u16, 2, 0, 2, 2, 2];
    let pairs = extract_schedule(&problem, &slots, &genes);
    assert_eq!(pairs, vec![(3, 2), (7, 4)]);
}

#[test]
fn extract_of_all_sentinels_is_empty() {
    let a = base_activity(0, ActivityType::Floating, None, 2);
    let problem = Problem {
        activities: vec![a],
        floating_indices: vec![0],
        fixed_indices: vec![],
        global_constraints: vec![],
        heatmap: vec![],
        markov_matrix: vec![],
        total_slots: 12,
    };
    let slots = build_candidate_start_slots(&problem);
    let genes = vec![1u16; slots.len()];
    let pairs = extract_schedule(&problem, &slots, &genes);
    assert!(pairs.is_empty());
}

#[test]
fn extract_ignores_alleles_beyond_floating_table() {
    let a = base_activity(0, ActivityType::Floating, None, 2);
    let problem = Problem {
        activities: vec![a],
        floating_indices: vec![0],
        fixed_indices: vec![],
        global_constraints: vec![],
        heatmap: vec![],
        markov_matrix: vec![],
        total_slots: 4,
    };
    let slots = build_candidate_start_slots(&problem);
    let genes = vec![9u16, 0, 1, 1];
    let pairs = extract_schedule(&problem, &slots, &genes);
    assert_eq!(pairs, vec![(0, 1)]);
}

#[test]
fn extract_output_is_sorted_by_start() {
    let a = base_activity(5, ActivityType::Floating, None, 1);
    let problem = Problem {
        activities: vec![a],
        floating_indices: vec![0],
        fixed_indices: vec![],
        global_constraints: vec![],
        heatmap: vec![],
        markov_matrix: vec![],
        total_slots: 6,
    };
    let slots = build_candidate_start_slots(&problem);
    let genes = vec![0u16, 1, 0, 1, 0, 0];
    let pairs = extract_schedule(&problem, &slots, &genes);
    assert_eq!(pairs, vec![(5, 0), (5, 2), (5, 4), (5, 5)]);
}

#[test]
fn prefix_index_sums_durations_up_to_deadline() {
    let index = DurationPrefixIndex::from_events(vec![(12, 4), (6, 2), (20, 8), (6, 3)]);
    assert_eq!(index.sum_leq(5), 0);
    assert_eq!(index.sum_leq(6), 5);
    assert_eq!(index.sum_leq(12), 9);
    assert_eq!(index.sum_leq(19), 9);
    assert_eq!(index.sum_leq(20), 17);
    assert_eq!(index.sum_leq(u16::MAX), 17);
}

#[test]
fn prefix_index_of_no_events_is_empty() {
    let index = DurationPrefixIndex::from_events(Vec::new());
    assert_eq!(index.sum_leq(0), 0);
    assert_eq!(index.sum_leq(u16::MAX), 0);
}

#[test]
fn count_ends_leq_partitions_sorted_run() {
    let ends: Vec<u16> = vec![2, 4, 4, 9, 30];
    assert_eq!(count_ends_leq(&ends, 1), 0);
    assert_eq!(count_ends_leq(&ends, 2), 1);
    assert_eq!(count_ends_leq(&ends, 4), 3);
    assert_eq!(count_ends_leq(&ends, 29), 4);
    assert_eq!(count_ends_leq(&ends, 30), 5);
    assert_eq!(count_ends_leq(&[], 5), 0);
}
