use diem_solver::candidate_slots::build_candidate_start_slots;
use diem_solver::extract::extract_schedule;
use diem_solver::fitness::DiemFitness;
use diem_solver::types::{
    Activity, ActivityType, Binding, FrequencyTarget, Problem, TimeSlot,
    UserFrequencyConstraint,
};
use diem_solver::types::GlobalConstraint;
use genetic_algorithm::crossover::CrossoverUniform;
use genetic_algorithm::fitness::{Fitness, FitnessChromosome, FitnessGenotype, FitnessOrdering,
    FitnessValue};
use genetic_algorithm::genotype::{Genotype, RangeGenotype};
use genetic_algorithm::mutate::MutateMultiGene;
use genetic_algorithm::select::SelectTournament;
use genetic_algorithm::strategy::evolve::Evolve;
use genetic_algorithm::strategy::Strategy;

fn base_activity(id: usize, kind: ActivityType) -> Activity {
    Activity {
        id,
        activity_type: kind,
        duration_slots: 2,
        priority: 100,
        assigned_start: None,
        category_id: 0,
        input_bindings: Vec::<Binding>::new(),
        output_bindings: Vec::<Binding>::new(),
        frequency_targets: Vec::<FrequencyTarget>::new(),
        user_frequency_constraints: Vec::<UserFrequencyConstraint>::new(),
    }
}

#[derive(Clone, Debug)]
struct EvaluatorAdapter {
    inner: DiemFitness,
}

impl Fitness for EvaluatorAdapter {
    type Genotype = RangeGenotype<u16>;
    fn calculate_for_chromosome(
        &mut self,
        chromosome: &FitnessChromosome<Self>,
        _genotype: &FitnessGenotype<Self>,
    ) -> Option<FitnessValue> {
        let score = self.inner.calculate_for_chromosome(&chromosome.genes)?;
        Some(score.clamp(isize::MIN as i128, isize::MAX as i128) as FitnessValue)
    }
}

fn solve(
    problem: Problem,
    max_generations: usize,
    _time_limit_ms: u64,
) -> Result<Vec<(usize, TimeSlot)>, String> {
    let floating_count = problem.floating_indices.len();
    if floating_count == 0 {
        return Ok(vec![]);
    }
    let candidate_start_slots = build_candidate_start_slots(&problem);
    if candidate_start_slots.is_empty() {
        return Ok(vec![]);
    }
    let no_activity_allele = u16::try_from(floating_count)
        .map_err(|_| format!("Floating activity count exceeds u16: {}", floating_count))?;

    let genotype = RangeGenotype::builder()
        .with_genes_size(candidate_start_slots.len())
        .with_allele_range(0..=no_activity_allele)
        .build()
        .map_err(|e| format!("Genotype build error: {:?}", e))?;

    let fitness = EvaluatorAdapter {
        inner: DiemFitness::new(problem.clone(), candidate_start_slots.clone()),
    };

    let evolve = Evolve::builder()
        .with_genotype(genotype)
        .with_fitness(fitness)
        .with_fitness_ordering(FitnessOrdering::Maximize)
        .with_target_population_size(160)
        .with_max_stale_generations(60)
        .with_max_generations(max_generations)
        .with_select(SelectTournament::new(0.8, 0.1, 4))
        .with_crossover(CrossoverUniform::new(0.5, 0.5))
        .with_mutate(MutateMultiGene::new(2, 0.28))
        .call()
        .map_err(|e| format!("Evolve strategy failed: {:?}", e))?;

    if let Some(best_chromosome) = evolve.best_chromosome() {
        Ok(extract_schedule(
            &problem,
            &candidate_start_slots,
            &best_chromosome.genes,
        ))
    } else {
        Ok(vec![])
    }
}

#[test]
fn multiple_occurrences_allowed_for_single_activity() {
    let a = base_activity(0, ActivityType::Floating);
    let b = base_activity(1, ActivityType::Floating);
    let mut problem = Problem {
        activities: vec![a, b],
        floating_indices: vec![0, 1],
        fixed_indices: vec![],
        global_constraints: vec![GlobalConstraint::ForbiddenZone { start: 0, end: 2 }],
        heatmap: vec![(0, 2, 600), (0, 4, 600), (0, 6, 600)],
        markov_matrix: vec![],
        total_slots: 10,
    };
    problem.activities[0].priority = 200;
    problem.activities[1].priority = 0;

    let result = solve(problem, 180, 200).expect("solver should return duplicate activity IDs");
    let count_a = result.iter().filter(|(id, _)| *id == 0).count();

    assert!(
        count_a >= 2,
        "expected repeated occurrences for activity 0, got {:?}",
        result
    );
}

#[test]
fn sentinel_produces_no_event_when_only_no_activity_is_feasible_choice() {
    let mut activity = base_activity(0, ActivityType::Floating);
    activity.priority = 0;
    activity.duration_slots = 4;

    let problem = Problem {
        activities: vec![activity],
        floating_indices: vec![0],
        fixed_indices: vec![],
        global_constraints: vec![],
        heatmap: vec![],
        markov_matrix: vec![],
        total_slots: 1,
    };

    let result = solve(problem, 50, 100).expect("solver should succeed");
    assert!(
        result.is_empty(),
        "expected no scheduled events due to end-overrun pressure, got {:?}",
        result
    );
}

#[test]
fn solve_with_no_floating_activities_returns_empty() {
    let mut fixed = base_activity(0, ActivityType::Fixed);
    fixed.assigned_start = Some(3);
    let problem = Problem {
        activities: vec![fixed],
        floating_indices: vec![],
        fixed_indices: vec![0],
        global_constraints: vec![],
        heatmap: vec![],
        markov_matrix: vec![],
        total_slots: 20,
    };
    let result = solve(problem, 50, 100).expect("solver should succeed");
    assert!(result.is_empty());
}

#[test]
fn solve_with_no_candidate_slots_returns_empty() {
    let a = base_activity(0, ActivityType::Floating);
    let problem = Problem {
        activities: vec![a],
        floating_indices: vec![0],
        fixed_indices: vec![],
        global_constraints: vec![GlobalConstraint::ForbiddenZone { start: 0, end: 20 }],
        heatmap: vec![],
        markov_matrix: vec![],
        total_slots: 20,
    };
    let result = solve(problem, 50, 100).expect("solver should succeed");
    assert!(result.is_empty());
}

#[test]
fn frequency_min_now_satisfiable_without_shared_id_hack() {
    let mut workout = base_activity(0, ActivityType::Floating);
    workout.priority = 0;
    workout
        .user_frequency_constraints
        .push(UserFrequencyConstraint {
            scope: diem_solver::types::TimeScope::SameDay,
            min_count: Some(1),
            max_count: None,
            deadline_end: None,
            penalty_weight: 5_000_000,
        });

    let problem = Problem {
        activities: vec![workout],
        floating_indices: vec![0],
        fixed_indices: vec![],
        global_constraints: vec![],
        heatmap: vec![],
        markov_matrix: vec![],
        total_slots: 192,
    };

    let result = solve(problem, 220, 300).expect("solver should satisfy daily minimum");
    let day1_count = result
        .iter()
        .filter(|(id, start)| *id == 0 && *start < 96)
        .count();
    let day2_count = result
        .iter()
        .filter(|(id, start)| *id == 0 && *start >= 96)
        .count();

    assert!(
        day1_count >= 1 && day2_count >= 1,
        "expected at least one floating workout on each day, got {:?}",
        result
    );
}
