//! Tests of the search engine: policy behavior, monotonic improvement,
//! local optimality at termination, and cross-policy consistency.

use twin_tsp::instance::Instance;
use twin_tsp::local_search::HeuristicAlgorithm;
use twin_tsp::local_search::InitialSolutionType;
use twin_tsp::local_search::LocalSearch;
use twin_tsp::local_search::NeighborhoodType;
use twin_tsp::local_search::ProgressSink;
use twin_tsp::local_search::SearchVariant;
use twin_tsp::local_search::SilentProgress;
use twin_tsp::solution::Solution;

fn euclid_matrix(coords: &[(f64, f64)]) -> Vec<Vec<i64>> {
    let n = coords.len();
    let mut m = vec![vec![0i64; n]; n];
    for i in 0..n {
        for j in 0..n {
            if i != j {
                let dx = coords[i].0 - coords[j].0;
                let dy = coords[i].1 - coords[j].1;
                m[i][j] = (dx * dx + dy * dy).sqrt().round() as i64;
            }
        }
    }
    m
}

fn build_instance(coords: &[(f64, f64)]) -> Instance {
    Instance::new(euclid_matrix(coords)).expect("valid distance matrix")
}

/// A 4 x 2 grid of cities, 10 apart.
fn grid_instance() -> Instance {
    let mut coords = Vec::new();
    for x in 0..4 {
        for y in 0..2 {
            coords.push((10.0 * x as f64, 10.0 * y as f64));
        }
    }
    build_instance(&coords)
}

fn scrambled_start() -> Solution {
    Solution::new(vec![0, 6, 2, 4], vec![1, 7, 3, 5])
}

struct CollectingProgress {
    messages: Vec<String>,
}

impl ProgressSink for CollectingProgress {
    fn notify(&mut self, message: String) {
        self.messages.push(message);
    }
}

#[test]
fn engine_name_describes_configuration() {
    let ls = LocalSearch::new(
        SearchVariant::CandidateSteepest(5),
        NeighborhoodType::EdgeExchange,
        InitialSolutionType::Heuristic(HeuristicAlgorithm::WeightedRegret),
        false,
    );
    assert!(ls.name().contains("Candidate k=5"));
    assert!(ls.name().contains("EdgeExchange"));
    let ls2 = LocalSearch::new(
        SearchVariant::Steepest,
        NeighborhoodType::OrOpt,
        InitialSolutionType::Random,
        true,
    );
    assert!(ls2.name().contains("Steepest"));
    assert!(ls2.name().contains("VerifyDelta"));
}

#[test]
fn steepest_never_worsens_and_reaches_local_optimum() {
    let inst = grid_instance();
    for neighborhood in [
        NeighborhoodType::VertexExchange,
        NeighborhoodType::EdgeExchange,
        NeighborhoodType::ThreeOpt,
        NeighborhoodType::OrOpt,
    ] {
        let ls = LocalSearch::new(
            SearchVariant::Steepest,
            neighborhood,
            InitialSolutionType::Random,
            false,
        );
        let start = scrambled_start();
        let start_cost = start.calculate_cost(&inst);
        let refined = ls.solve_from_solution(&inst, start, &mut SilentProgress);
        assert!(refined.is_valid(&inst));
        let refined_cost = refined.calculate_cost(&inst);
        assert!(refined_cost <= start_cost);
        // a second run from the result finds nothing further to improve
        let again = ls.solve_from_solution(&inst, refined.duplicate(), &mut SilentProgress);
        assert_eq!(again.calculate_cost(&inst), refined_cost);
    }
}

#[test]
fn greedy_never_worsens() {
    let inst = grid_instance();
    let ls = LocalSearch::new(
        SearchVariant::Greedy,
        NeighborhoodType::EdgeExchange,
        InitialSolutionType::Random,
        false,
    );
    let start = scrambled_start();
    let start_cost = start.calculate_cost(&inst);
    let refined = ls.solve_from_solution(&inst, start, &mut SilentProgress);
    assert!(refined.is_valid(&inst));
    assert!(refined.calculate_cost(&inst) <= start_cost);
}

#[test]
fn candidate_steepest_never_worsens() {
    let mut inst = grid_instance();
    inst.precompute_nearest_neighbors(4);
    let ls = LocalSearch::new(
        SearchVariant::CandidateSteepest(4),
        NeighborhoodType::EdgeExchange,
        InitialSolutionType::Random,
        false,
    );
    let start = scrambled_start();
    let start_cost = start.calculate_cost(&inst);
    let refined = ls.solve_from_solution(&inst, start, &mut SilentProgress);
    assert!(refined.is_valid(&inst));
    assert!(refined.calculate_cost(&inst) <= start_cost);
}

#[test]
fn move_list_steepest_matches_steepest() {
    // Cross-policy consistency: the persistent-worklist policy is an
    // acceleration of steepest descent, not an approximation; run
    // deterministically from the same start it reaches the same or better
    // final cost.
    let inst = grid_instance();
    for neighborhood in [NeighborhoodType::VertexExchange, NeighborhoodType::EdgeExchange] {
        let steepest = LocalSearch::new(
            SearchVariant::Steepest,
            neighborhood,
            InitialSolutionType::Random,
            false,
        );
        let move_list = LocalSearch::new(
            SearchVariant::MoveListSteepest,
            neighborhood,
            InitialSolutionType::Random,
            false,
        );
        let st = steepest.solve_from_solution(&inst, scrambled_start(), &mut SilentProgress);
        let ml = move_list.solve_from_solution(&inst, scrambled_start(), &mut SilentProgress);
        assert!(ml.is_valid(&inst));
        assert!(ml.calculate_cost(&inst) <= st.calculate_cost(&inst));
    }
}

#[test]
fn verify_delta_mode_changes_nothing() {
    let inst = grid_instance();
    for neighborhood in [NeighborhoodType::ThreeOpt, NeighborhoodType::OrOpt] {
        let plain = LocalSearch::new(
            SearchVariant::Steepest,
            neighborhood,
            InitialSolutionType::Random,
            false,
        );
        let verified = LocalSearch::new(
            SearchVariant::Steepest,
            neighborhood,
            InitialSolutionType::Random,
            true,
        );
        let a = plain.solve_from_solution(&inst, scrambled_start(), &mut SilentProgress);
        let b = verified.solve_from_solution(&inst, scrambled_start(), &mut SilentProgress);
        assert_eq!(a.cycle1, b.cycle1);
        assert_eq!(a.cycle2, b.cycle2);
    }
}

#[test]
fn engine_reports_progress_and_termination() {
    let inst = grid_instance();
    let ls = LocalSearch::new(
        SearchVariant::Steepest,
        NeighborhoodType::EdgeExchange,
        InitialSolutionType::Random,
        false,
    );
    let mut sink = CollectingProgress { messages: Vec::new() };
    let refined = ls.solve_from_solution(&inst, scrambled_start(), &mut sink);
    let final_cost = refined.calculate_cost(&inst);
    assert!(sink.messages.len() >= 2);
    assert!(sink.messages[0].contains("[Iter: 1]"));
    let last = sink.messages.last().unwrap();
    assert!(last.contains("[Finished]"));
    assert!(last.contains(&final_cost.to_string()));
}

#[test]
fn candidate_steepest_fixes_cross_cluster_swap() {
    // Two distant clusters; each cluster's cities are each other's nearest
    // neighbors, so the candidate neighborhood still finds the inter-route
    // exchange that unmixes the clusters.
    let inst_coords = [
        (0.0, 0.0),
        (0.0, 10.0),
        (10.0, 0.0),
        (500.0, 0.0),
        (500.0, 10.0),
        (510.0, 0.0),
    ];
    let mut inst = build_instance(&inst_coords);
    inst.precompute_nearest_neighbors(3);
    let ls = LocalSearch::new(
        SearchVariant::CandidateSteepest(3),
        NeighborhoodType::VertexExchange,
        InitialSolutionType::Random,
        false,
    );
    let start = Solution::new(vec![0, 1, 5], vec![3, 4, 2]);
    let start_cost = start.calculate_cost(&inst);
    let refined = ls.solve_from_solution(&inst, start, &mut SilentProgress);
    assert!(refined.is_valid(&inst));
    assert!(refined.calculate_cost(&inst) < start_cost);
}

#[test]
fn engine_accepts_already_optimal_input() {
    // an already locally optimal tour pair comes back exactly as it went in
    let inst = build_instance(&[(0.0, 0.0), (10.0, 0.0), (10.0, 10.0), (0.0, 10.0)]);
    for variant in [
        SearchVariant::Steepest,
        SearchVariant::Greedy,
        SearchVariant::MoveListSteepest,
    ] {
        let ls = LocalSearch::new(
            variant,
            NeighborhoodType::EdgeExchange,
            InitialSolutionType::Random,
            false,
        );
        let start = Solution::new(vec![0, 1, 2, 3], vec![]);
        let refined = ls.solve_from_solution(&inst, start, &mut SilentProgress);
        assert_eq!(refined.cycle1.as_slice(), &[0, 1, 2, 3]);
        assert_eq!(refined.calculate_cost(&inst), 40);
    }
}

#[test]
fn move_list_steepest_terminates_at_local_optimum() {
    // the worklist policy rescans the full neighborhood before declaring
    // termination, so a second steepest run finds nothing further
    let inst = grid_instance();
    let move_list = LocalSearch::new(
        SearchVariant::MoveListSteepest,
        NeighborhoodType::EdgeExchange,
        InitialSolutionType::Random,
        false,
    );
    let steepest = LocalSearch::new(
        SearchVariant::Steepest,
        NeighborhoodType::EdgeExchange,
        InitialSolutionType::Random,
        false,
    );
    let ml = move_list.solve_from_solution(&inst, scrambled_start(), &mut SilentProgress);
    let ml_cost = ml.calculate_cost(&inst);
    let polished = steepest.solve_from_solution(&inst, ml, &mut SilentProgress);
    assert_eq!(polished.calculate_cost(&inst), ml_cost);
}
