//! Tests of the five move evaluators: structural rejection and exact deltas.

use twin_tsp::instance::Instance;
use twin_tsp::moves::inter_route::evaluate_inter_route_exchange;
use twin_tsp::moves::intra_route::evaluate_candidate_intra_route_edge_exchange;
use twin_tsp::moves::intra_route::evaluate_intra_route_3opt;
use twin_tsp::moves::intra_route::evaluate_intra_route_edge_exchange;
use twin_tsp::moves::intra_route::evaluate_intra_route_or_opt;
use twin_tsp::moves::intra_route::evaluate_intra_route_vertex_exchange;
use twin_tsp::moves::types::CycleId;
use twin_tsp::moves::types::EvaluatedMove;
use twin_tsp::moves::types::Move;
use twin_tsp::solution::Solution;

fn euclid_matrix(coords: &[(f64, f64)]) -> Vec<Vec<i64>> {
    let n = coords.len();
    let mut m = vec![vec![0i64; n]; n];
    for i in 0..n {
        for j in 0..n {
            if i != j {
                let dx = coords[i].0 - coords[j].0;
                let dy = coords[i].1 - coords[j].1;
                m[i][j] = (dx * dx + dy * dy).sqrt().round() as i64;
            }
        }
    }
    m
}

fn build_instance(coords: &[(f64, f64)]) -> Instance {
    Instance::new(euclid_matrix(coords)).expect("valid distance matrix")
}

fn line_instance(xs: &[f64]) -> Instance {
    let coords: Vec<(f64, f64)> = xs.iter().map(|&x| (x, 0.0)).collect();
    build_instance(&coords)
}

/// Applies the evaluated move to a scratch copy and returns the true change
/// in total cost.
fn recomputed_delta(sol: &Solution, inst: &Instance, em: &EvaluatedMove) -> i64 {
    let before = sol.calculate_cost(inst);
    let mut copy = sol.duplicate();
    em.move_type.apply(&mut copy);
    copy.calculate_cost(inst) - before
}

#[test]
fn inter_route_exchange_exact_delta() {
    let inst = line_instance(&[0.0, 10.0, 20.0, 40.0]);
    let sol = Solution::new(vec![0, 1], vec![2, 3]);
    let em = evaluate_inter_route_exchange(&sol, &inst, 1, 0).unwrap();
    assert_eq!(em.move_type, Move::InterRouteExchange { v1: 1, v2: 2 });
    assert_eq!(em.delta, 40);
    assert_eq!(em.delta, recomputed_delta(&sol, &inst, &em));
}

#[test]
fn inter_route_exchange_singletons() {
    let inst = line_instance(&[0.0, 10.0]);
    let sol = Solution::new(vec![0], vec![1]);
    // swapping two single-node cycles never changes the cost
    let em = evaluate_inter_route_exchange(&sol, &inst, 0, 0).unwrap();
    assert_eq!(em.delta, 0);
    assert_eq!(em.delta, recomputed_delta(&sol, &inst, &em));
}

#[test]
fn inter_route_exchange_rejects_bad_positions() {
    let inst = line_instance(&[0.0, 10.0, 20.0]);
    let sol = Solution::new(vec![0, 1], vec![2]);
    assert!(evaluate_inter_route_exchange(&sol, &inst, 2, 0).is_none());
    assert!(evaluate_inter_route_exchange(&sol, &inst, 0, 1).is_none());
    let empty = Solution::new(vec![0, 1, 2], vec![]);
    assert!(evaluate_inter_route_exchange(&empty, &inst, 0, 0).is_none());
}

#[test]
fn vertex_exchange_adjacent_exact_delta() {
    let inst = line_instance(&[0.0, 10.0, 20.0, 40.0]);
    let sol = Solution::new(vec![0, 1, 2, 3], vec![]);
    let em = evaluate_intra_route_vertex_exchange(&sol, &inst, CycleId::Cycle1, 1, 2).unwrap();
    assert_eq!(
        em.move_type,
        Move::IntraRouteVertexExchange { v1: 1, v2: 2, cycle: CycleId::Cycle1 },
    );
    assert_eq!(em.delta, 20);
    assert_eq!(em.delta, recomputed_delta(&sol, &inst, &em));
}

#[test]
fn vertex_exchange_wraparound_adjacent_exact_delta() {
    let inst = line_instance(&[0.0, 10.0, 20.0, 40.0]);
    let sol = Solution::new(vec![0, 1, 2, 3], vec![]);
    // positions 0 and 3 are adjacent through the wraparound edge
    let em = evaluate_intra_route_vertex_exchange(&sol, &inst, CycleId::Cycle1, 0, 3).unwrap();
    assert_eq!(em.delta, 20);
    assert_eq!(em.delta, recomputed_delta(&sol, &inst, &em));
}

#[test]
fn vertex_exchange_non_adjacent_exact_delta() {
    let inst = line_instance(&[0.0, 10.0, 20.0, 40.0, 80.0]);
    let sol = Solution::new(vec![0, 1, 2, 3, 4], vec![]);
    let em = evaluate_intra_route_vertex_exchange(&sol, &inst, CycleId::Cycle1, 1, 3).unwrap();
    assert_eq!(em.delta, recomputed_delta(&sol, &inst, &em));
}

#[test]
fn vertex_exchange_two_node_cycle_is_free() {
    let inst = line_instance(&[0.0, 10.0, 20.0]);
    let sol = Solution::new(vec![0, 1], vec![2]);
    let em = evaluate_intra_route_vertex_exchange(&sol, &inst, CycleId::Cycle1, 0, 1).unwrap();
    assert_eq!(em.delta, 0);
    assert_eq!(em.delta, recomputed_delta(&sol, &inst, &em));
}

#[test]
fn vertex_exchange_rejects_degenerate_requests() {
    let inst = line_instance(&[0.0, 10.0, 20.0]);
    let sol = Solution::new(vec![0, 1, 2], vec![]);
    assert!(evaluate_intra_route_vertex_exchange(&sol, &inst, CycleId::Cycle1, 1, 1).is_none());
    assert!(evaluate_intra_route_vertex_exchange(&sol, &inst, CycleId::Cycle1, 0, 3).is_none());
    assert!(evaluate_intra_route_vertex_exchange(&sol, &inst, CycleId::Cycle2, 0, 1).is_none());
}

#[test]
fn edge_exchange_exact_delta() {
    // A 20 x 10 rectangle of six nodes; the tour crosses inside the right
    // square and the exchange uncrosses it.
    let inst = build_instance(&[
        (0.0, 0.0),
        (0.0, 10.0),
        (10.0, 10.0),
        (10.0, 0.0),
        (20.0, 10.0),
        (20.0, 0.0),
    ]);
    let sol = Solution::new(vec![0, 1, 2, 5, 4, 3], vec![]);
    let em = evaluate_intra_route_edge_exchange(&sol, &inst, CycleId::Cycle1, 2, 4).unwrap();
    assert_eq!(
        em.move_type,
        Move::IntraRouteEdgeExchange { a: 2, b: 5, c: 4, d: 3, cycle: CycleId::Cycle1 },
    );
    assert_eq!(em.delta, -8);
    assert_eq!(em.delta, recomputed_delta(&sol, &inst, &em));
}

#[test]
fn edge_exchange_rejects_adjacent_edges() {
    let inst = line_instance(&[0.0, 10.0, 20.0, 40.0]);
    let sol = Solution::new(vec![0, 1, 2, 3], vec![]);
    assert!(evaluate_intra_route_edge_exchange(&sol, &inst, CycleId::Cycle1, 0, 1).is_none());
    assert!(evaluate_intra_route_edge_exchange(&sol, &inst, CycleId::Cycle1, 0, 3).is_none());
    assert!(evaluate_intra_route_edge_exchange(&sol, &inst, CycleId::Cycle1, 2, 2).is_none());
    assert!(evaluate_intra_route_edge_exchange(&sol, &inst, CycleId::Cycle1, 0, 4).is_none());
}

#[test]
fn candidate_edge_exchange_matches_general_form() {
    let inst = line_instance(&[0.0, 10.0, 20.0, 40.0, 80.0]);
    let sol = Solution::new(vec![0, 2, 4, 1, 3], vec![]);
    let general = evaluate_intra_route_edge_exchange(&sol, &inst, CycleId::Cycle1, 0, 2);
    let candidate = evaluate_candidate_intra_route_edge_exchange(
        &sol,
        &inst,
        CycleId::Cycle1,
        0,
        2,
    );
    let g = general.unwrap();
    let c = candidate.unwrap();
    assert_eq!(g.move_type, c.move_type);
    assert_eq!(g.delta, c.delta);
    assert_eq!(c.delta, recomputed_delta(&sol, &inst, &c));
}

#[test]
fn three_opt_picks_best_pattern() {
    let inst = line_instance(&[0.0, 30.0, 10.0, 20.0, 50.0, 40.0]);
    let sol = Solution::new(vec![0, 1, 2, 3, 4, 5], vec![]);
    let em = evaluate_intra_route_3opt(&sol, &inst, CycleId::Cycle1, 1, 3, 5).unwrap();
    assert_eq!(
        em.move_type,
        Move::IntraRoute3Opt { pos1: 1, pos2: 3, pos3: 5, cycle: CycleId::Cycle1, case: 4 },
    );
    assert_eq!(em.delta, -40);
    assert_eq!(em.delta, recomputed_delta(&sol, &inst, &em));
}

#[test]
fn three_opt_returns_none_without_improvement() {
    // the perimeter of a 20 x 10 rectangle is already optimal
    let inst = build_instance(&[
        (0.0, 0.0),
        (0.0, 10.0),
        (10.0, 10.0),
        (20.0, 10.0),
        (20.0, 0.0),
        (10.0, 0.0),
    ]);
    let sol = Solution::new(vec![0, 1, 2, 3, 4, 5], vec![]);
    assert!(evaluate_intra_route_3opt(&sol, &inst, CycleId::Cycle1, 0, 2, 4).is_none());
    assert!(evaluate_intra_route_3opt(&sol, &inst, CycleId::Cycle1, 1, 3, 5).is_none());
}

#[test]
fn three_opt_rejects_bad_positions() {
    let inst = line_instance(&[0.0, 1.0, 2.0, 3.0, 4.0, 5.0]);
    let sol = Solution::new(vec![0, 1, 2, 3, 4, 5], vec![]);
    assert!(evaluate_intra_route_3opt(&sol, &inst, CycleId::Cycle1, 3, 1, 5).is_none());
    assert!(evaluate_intra_route_3opt(&sol, &inst, CycleId::Cycle1, 1, 1, 5).is_none());
    assert!(evaluate_intra_route_3opt(&sol, &inst, CycleId::Cycle1, 1, 3, 6).is_none());
    let small = Solution::new(vec![0, 1, 2, 3, 4], vec![5]);
    assert!(evaluate_intra_route_3opt(&small, &inst, CycleId::Cycle1, 0, 2, 4).is_none());
}

fn p7_instance() -> Instance {
    build_instance(&[(0.0, 0.0), (20.0, 0.0), (10.0, 1.0), (10.0, 30.0)])
}

#[test]
fn or_opt_rejects_own_slot() {
    let inst = p7_instance();
    let sol = Solution::new(vec![0, 1, 2, 3], vec![]);
    // reinserting node 2 next to its own current location is rejected
    assert!(evaluate_intra_route_or_opt(&sol, &inst, CycleId::Cycle1, 2, 1, 2).is_none());
    assert!(evaluate_intra_route_or_opt(&sol, &inst, CycleId::Cycle1, 2, 1, 3).is_none());
}

#[test]
fn or_opt_exact_negative_delta() {
    let inst = p7_instance();
    let sol = Solution::new(vec![0, 1, 2, 3], vec![]);
    let em = evaluate_intra_route_or_opt(&sol, &inst, CycleId::Cycle1, 2, 1, 1).unwrap();
    assert_eq!(
        em.move_type,
        Move::IntraRouteOrOpt { from_pos: 2, chain_length: 1, to_pos: 1, cycle: CycleId::Cycle1 },
    );
    assert_eq!(em.delta, -7);
    assert_eq!(em.delta, recomputed_delta(&sol, &inst, &em));
}

#[test]
fn or_opt_suppresses_non_improving_candidates() {
    let inst = p7_instance();
    let sol = Solution::new(vec![0, 1, 2, 3], vec![]);
    // relocating node 2 to the front changes nothing (delta zero), and the
    // evaluator, unlike the other families, only emits strict improvements
    assert!(evaluate_intra_route_or_opt(&sol, &inst, CycleId::Cycle1, 2, 1, 0).is_none());
}

#[test]
fn or_opt_rejects_bad_requests() {
    let inst = p7_instance();
    let sol = Solution::new(vec![0, 1, 2, 3], vec![]);
    assert!(evaluate_intra_route_or_opt(&sol, &inst, CycleId::Cycle1, 0, 0, 2).is_none());
    assert!(evaluate_intra_route_or_opt(&sol, &inst, CycleId::Cycle1, 0, 4, 2).is_none());
    assert!(evaluate_intra_route_or_opt(&sol, &inst, CycleId::Cycle1, 3, 2, 1).is_none());
    assert!(evaluate_intra_route_or_opt(&sol, &inst, CycleId::Cycle1, 0, 1, 4).is_none());
    let small = Solution::new(vec![0, 1, 2], vec![3]);
    assert!(evaluate_intra_route_or_opt(&small, &inst, CycleId::Cycle1, 0, 1, 2).is_none());
}
