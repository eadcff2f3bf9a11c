//! End-to-end scenarios over small geometric instances.

use twin_tsp::instance::Instance;
use twin_tsp::local_search::InitialSolutionType;
use twin_tsp::local_search::LocalSearch;
use twin_tsp::local_search::NeighborhoodType;
use twin_tsp::local_search::SearchVariant;
use twin_tsp::local_search::SilentProgress;
use twin_tsp::moves::intra_route::evaluate_intra_route_edge_exchange;
use twin_tsp::moves::types::CycleId;
use twin_tsp::solution::Solution;

fn euclid_matrix(coords: &[(f64, f64)]) -> Vec<Vec<i64>> {
    let n = coords.len();
    let mut m = vec![vec![0i64; n]; n];
    for i in 0..n {
        for j in 0..n {
            if i != j {
                let dx = coords[i].0 - coords[j].0;
                let dy = coords[i].1 - coords[j].1;
                m[i][j] = (dx * dx + dy * dy).sqrt().round() as i64;
            }
        }
    }
    m
}

fn build_instance(coords: &[(f64, f64)]) -> Instance {
    Instance::new(euclid_matrix(coords)).expect("valid distance matrix")
}

/// Six nodes forming two side-10 squares that share an edge.
fn two_squares() -> Instance {
    build_instance(&[
        (0.0, 0.0),
        (0.0, 10.0),
        (10.0, 10.0),
        (10.0, 0.0),
        (20.0, 10.0),
        (20.0, 0.0),
    ])
}

#[test]
fn crossing_tour_uncrossed_by_edge_exchange() {
    // The tour visits the right square's corners diagonally, crossing
    // inside it; exchanging the crossing edge pair removes two diagonals
    // (14 each) and adds two sides (10 each).
    let inst = two_squares();
    let crossing = Solution::new(vec![0, 1, 2, 5, 4, 3], vec![]);
    let crossing_cost = crossing.calculate_cost(&inst);
    assert_eq!(crossing_cost, 68);

    let em = evaluate_intra_route_edge_exchange(&crossing, &inst, CycleId::Cycle1, 2, 4).unwrap();
    assert_eq!(em.delta, -8);

    let mut fixed = crossing.duplicate();
    em.move_type.apply(&mut fixed);
    assert_eq!(fixed.cycle1.as_slice(), &[0, 1, 2, 4, 5, 3]);
    assert!(fixed.is_valid(&inst));
    assert_eq!(fixed.calculate_cost(&inst), crossing_cost + em.delta);
    assert_eq!(fixed.calculate_cost(&inst), 60);
}

#[test]
fn steepest_finds_the_perimeter_tour() {
    let inst = two_squares();
    let ls = LocalSearch::new(
        SearchVariant::Steepest,
        NeighborhoodType::EdgeExchange,
        InitialSolutionType::Random,
        false,
    );
    let crossing = Solution::new(vec![0, 1, 2, 5, 4, 3], vec![]);
    let refined = ls.solve_from_solution(&inst, crossing, &mut SilentProgress);
    assert!(refined.is_valid(&inst));
    assert_eq!(refined.calculate_cost(&inst), 60);
}

#[test]
fn two_cycle_partition_refined_without_mixing() {
    // Two clusters far apart: refinement of a bad partition moves each
    // city into the cycle of its own cluster.
    let inst = build_instance(&[
        (0.0, 0.0),
        (0.0, 10.0),
        (10.0, 0.0),
        (200.0, 0.0),
        (200.0, 10.0),
        (210.0, 0.0),
    ]);
    let ls = LocalSearch::new(
        SearchVariant::Steepest,
        NeighborhoodType::EdgeExchange,
        InitialSolutionType::Random,
        false,
    );
    // one city of each cluster starts in the wrong cycle
    let start = Solution::new(vec![0, 1, 5], vec![3, 4, 2]);
    let refined = ls.solve_from_solution(&inst, start, &mut SilentProgress);
    assert!(refined.is_valid(&inst));
    let mut left: Vec<usize> = Vec::new();
    let mut right: Vec<usize> = Vec::new();
    for &v in refined.cycle1.iter() {
        if v <= 2 {
            left.push(v);
        } else {
            right.push(v);
        }
    }
    // each refined cycle holds one whole cluster
    assert!(left.is_empty() || right.is_empty());
}
