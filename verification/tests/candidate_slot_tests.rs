use diem_solver::candidate_slots::build_candidate_start_slots;
use diem_solver::types::{
    Activity, ActivityType, Binding, FrequencyTarget, GlobalConstraint, Problem,
    UserFrequencyConstraint,
};

fn base_activity(id: usize, kind: ActivityType, start: Option<u16>, duration: u16) -> Activity {
    Activity {
        id,
        activity_type: kind,
        duration_slots: duration,
        priority: 100,
        assigned_start: start,
        category_id: 0,
        input_bindings: Vec::<Binding>::new(),
        output_bindings: Vec::<Binding>::new(),
        frequency_targets: Vec::<FrequencyTarget>::new(),
        user_frequency_constraints: Vec::<UserFrequencyConstraint>::new(),
    }
}

#[test]
fn candidate_slots_exclude_forbidden_and_fixed_start_slots() {
    let floating = base_activity(0, ActivityType::Floating, None, 2);
    let fixed = base_activity(1, ActivityType::Fixed, Some(4), 3);

    let problem = Problem {
        activities: vec![floating, fixed],
        floating_indices: vec![0],
        fixed_indices: vec![1],
        global_constraints: vec![GlobalConstraint::ForbiddenZone { start: 1, end: 3 }],
        heatmap: vec![],
        markov_matrix: vec![],
        total_slots: 10,
    };

    let candidates = build_candidate_start_slots(&problem);
    // Excluded: forbidden [1,2] and fixed occupancy [4,5,6].
    assert_eq!(candidates, vec![0, 3, 7, 8, 9]);
}

#[test]
fn candidate_slots_empty_horizon_yields_no_slots() {
    let problem = Problem {
        activities: vec![],
        floating_indices: vec![],
        fixed_indices: vec![],
        global_constraints: vec![],
        heatmap: vec![],
        markov_matrix: vec![],
        total_slots: 0,
    };
    let candidates = build_candidate_start_slots(&problem);
    assert!(candidates.is_empty());
}

#[test]
fn candidate_slots_clamp_zone_past_horizon() {
    let problem = Problem {
        activities: vec![],
        floating_indices: vec![],
        fixed_indices: vec![],
        global_constraints: vec![
            GlobalConstraint::ForbiddenZone { start: 3, end: 200 },
            GlobalConstraint::ForbiddenZone { start: 2, end: 2 },
        ],
        heatmap: vec![],
        markov_matrix: vec![],
        total_slots: 5,
    };
    let candidates = build_candidate_start_slots(&problem);
    // The empty zone [2,2) excludes nothing; [3,200) is clamped to the horizon.
    assert_eq!(candidates, vec![0, 1, 2]);
}
