//! Tests of in-place move application: each family's rearrangement, the
//! silent no-op on structural mismatch, the partition invariant, and the
//! edge-exchange round trip.

use twin_tsp::instance::Instance;
use twin_tsp::moves::intra_route::evaluate_intra_route_edge_exchange;
use twin_tsp::moves::types::CycleId;
use twin_tsp::moves::types::Move;
use twin_tsp::solution::Solution;

fn line_instance(xs: &[f64]) -> Instance {
    let n = xs.len();
    let mut m = vec![vec![0i64; n]; n];
    for i in 0..n {
        for j in 0..n {
            m[i][j] = (xs[i] - xs[j]).abs().round() as i64;
        }
    }
    Instance::new(m).expect("valid distance matrix")
}

#[test]
fn apply_inter_route_swaps_by_value() {
    let mut sol = Solution::new(vec![0, 1, 2], vec![3, 4]);
    Move::InterRouteExchange { v1: 1, v2: 4 }.apply(&mut sol);
    assert_eq!(sol.cycle1.as_slice(), &[0, 4, 2]);
    assert_eq!(sol.cycle2.as_slice(), &[3, 1]);
}

#[test]
fn apply_inter_route_mismatch_is_noop() {
    let mut sol = Solution::new(vec![0, 1, 2], vec![3, 4]);
    // both nodes in the same cycle: the expected-cycle invariant is violated
    Move::InterRouteExchange { v1: 0, v2: 2 }.apply(&mut sol);
    assert_eq!(sol.cycle1.as_slice(), &[0, 1, 2]);
    assert_eq!(sol.cycle2.as_slice(), &[3, 4]);
    // an absent node
    Move::InterRouteExchange { v1: 9, v2: 3 }.apply(&mut sol);
    assert_eq!(sol.cycle1.as_slice(), &[0, 1, 2]);
    assert_eq!(sol.cycle2.as_slice(), &[3, 4]);
}

#[test]
fn apply_vertex_exchange_swaps_by_position() {
    let mut sol = Solution::new(vec![5, 6, 7, 8], vec![]);
    Move::IntraRouteVertexExchange { v1: 6, v2: 8, cycle: CycleId::Cycle1 }.apply(&mut sol);
    assert_eq!(sol.cycle1.as_slice(), &[5, 8, 7, 6]);
}

#[test]
fn apply_vertex_exchange_wrong_cycle_is_noop() {
    let mut sol = Solution::new(vec![5, 6], vec![7, 8]);
    Move::IntraRouteVertexExchange { v1: 5, v2: 7, cycle: CycleId::Cycle1 }.apply(&mut sol);
    assert_eq!(sol.cycle1.as_slice(), &[5, 6]);
    assert_eq!(sol.cycle2.as_slice(), &[7, 8]);
}

#[test]
fn apply_edge_exchange_reverses_segment() {
    let mut sol = Solution::new(vec![0, 1, 2, 3, 4], vec![]);
    // remove (0,1) and (3,4); the segment from 1 to 3 is reversed
    Move::IntraRouteEdgeExchange { a: 0, b: 1, c: 3, d: 4, cycle: CycleId::Cycle1 }
        .apply(&mut sol);
    assert_eq!(sol.cycle1.as_slice(), &[0, 3, 2, 1, 4]);
}

#[test]
fn apply_edge_exchange_wrapping_window() {
    let mut sol = Solution::new(vec![0, 1, 2, 3, 4], vec![]);
    // remove (3,4) and (1,2): the window from 4 wraps around to 1
    Move::IntraRouteEdgeExchange { a: 3, b: 4, c: 1, d: 2, cycle: CycleId::Cycle1 }
        .apply(&mut sol);
    // new edges (3,1) and (4,2), all other adjacencies kept
    assert_eq!(sol.cycle1.as_slice(), &[0, 4, 2, 3, 1]);
}

#[test]
fn apply_edge_exchange_stale_move_is_noop() {
    let mut sol = Solution::new(vec![0, 1, 2, 3, 4], vec![]);
    // the stored boundary nodes no longer match any orientation
    Move::IntraRouteEdgeExchange { a: 2, b: 1, c: 3, d: 4, cycle: CycleId::Cycle1 }
        .apply(&mut sol);
    assert_eq!(sol.cycle1.as_slice(), &[0, 1, 2, 3, 4]);
}

#[test]
fn apply_edge_exchange_round_trip_restores_arrays() {
    // Round trip: an edge exchange is self-inverse; applying the same move
    // twice restores the exact original cycle arrays.
    let inst = line_instance(&[0.0, 10.0, 25.0, 45.0, 70.0, 100.0]);
    let original = Solution::new(vec![0, 2, 4, 1, 5, 3], vec![]);
    let mut sol = original.duplicate();
    let em = evaluate_intra_route_edge_exchange(&sol, &inst, CycleId::Cycle1, 1, 4).unwrap();
    em.move_type.apply(&mut sol);
    assert_ne!(sol.cycle1.as_slice(), original.cycle1.as_slice());
    em.move_type.apply(&mut sol);
    assert_eq!(sol.cycle1.as_slice(), original.cycle1.as_slice());
    assert_eq!(sol.cycle2.as_slice(), original.cycle2.as_slice());

    // also through a wrapping window
    let mut sol2 = original.duplicate();
    let em2 = evaluate_intra_route_edge_exchange(&sol2, &inst, CycleId::Cycle1, 4, 1).unwrap();
    em2.move_type.apply(&mut sol2);
    em2.move_type.apply(&mut sol2);
    assert_eq!(sol2.cycle1.as_slice(), original.cycle1.as_slice());
}

#[test]
fn apply_three_opt_replays_tagged_pattern() {
    let mut sol = Solution::new(vec![0, 1, 2, 3, 4, 5], vec![]);
    // pattern: keep the head, then the second segment, then the reversed
    // first segment, then the tail
    Move::IntraRoute3Opt { pos1: 1, pos2: 3, pos3: 5, cycle: CycleId::Cycle1, case: 4 }
        .apply(&mut sol);
    assert_eq!(sol.cycle1.as_slice(), &[0, 1, 4, 5, 3, 2]);
}

#[test]
fn apply_three_opt_bad_positions_is_noop() {
    let mut sol = Solution::new(vec![0, 1, 2, 3, 4, 5], vec![]);
    Move::IntraRoute3Opt { pos1: 3, pos2: 1, pos3: 5, cycle: CycleId::Cycle1, case: 1 }
        .apply(&mut sol);
    assert_eq!(sol.cycle1.as_slice(), &[0, 1, 2, 3, 4, 5]);
    Move::IntraRoute3Opt { pos1: 1, pos2: 3, pos3: 5, cycle: CycleId::Cycle1, case: 7 }
        .apply(&mut sol);
    assert_eq!(sol.cycle1.as_slice(), &[0, 1, 2, 3, 4, 5]);
}

#[test]
fn apply_or_opt_relocates_chain() {
    let mut sol = Solution::new(vec![0, 1, 2, 3, 4, 5], vec![]);
    // move the chain [1, 2] in front of the node at position 5
    Move::IntraRouteOrOpt { from_pos: 1, chain_length: 2, to_pos: 5, cycle: CycleId::Cycle1 }
        .apply(&mut sol);
    assert_eq!(sol.cycle1.as_slice(), &[0, 3, 4, 1, 2, 5]);
    // and a backward relocation
    let mut sol2 = Solution::new(vec![0, 1, 2, 3], vec![]);
    Move::IntraRouteOrOpt { from_pos: 2, chain_length: 1, to_pos: 1, cycle: CycleId::Cycle1 }
        .apply(&mut sol2);
    assert_eq!(sol2.cycle1.as_slice(), &[0, 2, 1, 3]);
}

#[test]
fn apply_or_opt_bad_request_is_noop() {
    let mut sol = Solution::new(vec![0, 1, 2, 3], vec![]);
    Move::IntraRouteOrOpt { from_pos: 3, chain_length: 2, to_pos: 0, cycle: CycleId::Cycle1 }
        .apply(&mut sol);
    assert_eq!(sol.cycle1.as_slice(), &[0, 1, 2, 3]);
    Move::IntraRouteOrOpt { from_pos: 0, chain_length: 1, to_pos: 9, cycle: CycleId::Cycle1 }
        .apply(&mut sol);
    assert_eq!(sol.cycle1.as_slice(), &[0, 1, 2, 3]);
}

#[test]
fn apply_preserves_partition_for_every_family() {
    // Partition invariant: validity holds before and after every apply.
    let inst = line_instance(&[0.0, 1.0, 2.0, 3.0, 4.0, 5.0, 6.0, 7.0]);
    let moves = vec![
        Move::InterRouteExchange { v1: 2, v2: 6 },
        Move::IntraRouteVertexExchange { v1: 0, v2: 4, cycle: CycleId::Cycle1 },
        Move::IntraRouteEdgeExchange { a: 0, b: 1, c: 3, d: 4, cycle: CycleId::Cycle1 },
        Move::IntraRoute3Opt { pos1: 0, pos2: 2, pos3: 4, cycle: CycleId::Cycle1, case: 2 },
        Move::IntraRouteOrOpt { from_pos: 0, chain_length: 2, to_pos: 4, cycle: CycleId::Cycle1 },
    ];
    for m in moves {
        let mut sol = Solution::new(vec![0, 1, 2, 3, 4, 5], vec![6, 7]);
        assert!(sol.is_valid(&inst));
        m.apply(&mut sol);
        assert!(sol.is_valid(&inst), "partition broken by {:?}", m);
    }
}
