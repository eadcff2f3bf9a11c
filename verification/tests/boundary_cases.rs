//! Delta exactness at boundary cycle lengths: the smallest tours each move
//! family accepts, where the local-recomputation sub-cases coincide.

use twin_tsp::instance::Instance;
use twin_tsp::local_search::InitialSolutionType;
use twin_tsp::local_search::LocalSearch;
use twin_tsp::local_search::NeighborhoodType;
use twin_tsp::local_search::SearchVariant;
use twin_tsp::local_search::SilentProgress;
use twin_tsp::moves::inter_route::evaluate_inter_route_exchange;
use twin_tsp::moves::intra_route::evaluate_intra_route_3opt;
use twin_tsp::moves::intra_route::evaluate_intra_route_edge_exchange;
use twin_tsp::moves::intra_route::evaluate_intra_route_or_opt;
use twin_tsp::moves::intra_route::evaluate_intra_route_vertex_exchange;
use twin_tsp::moves::types::CycleId;
use twin_tsp::moves::types::EvaluatedMove;
use twin_tsp::solution::Solution;

fn line_instance(xs: &[f64]) -> Instance {
    let n = xs.len();
    let mut m = vec![vec![0i64; n]; n];
    for i in 0..n {
        for j in 0..n {
            m[i][j] = (xs[i] - xs[j]).abs().round() as i64;
        }
    }
    Instance::new(m).expect("valid distance matrix")
}

fn recomputed_delta(sol: &Solution, inst: &Instance, em: &EvaluatedMove) -> i64 {
    let before = sol.calculate_cost(inst);
    let mut copy = sol.duplicate();
    em.move_type.apply(&mut copy);
    copy.calculate_cost(inst) - before
}

#[test]
fn inter_route_one_node_against_long_cycle() {
    let inst = line_instance(&[0.0, 10.0, 25.0, 45.0]);
    let sol = Solution::new(vec![2], vec![0, 1, 3]);
    let em = evaluate_inter_route_exchange(&sol, &inst, 0, 1).unwrap();
    assert_eq!(em.delta, recomputed_delta(&sol, &inst, &em));
}

#[test]
fn inter_route_one_node_against_two_node_cycle() {
    let inst = line_instance(&[0.0, 10.0, 25.0]);
    let sol = Solution::new(vec![1], vec![0, 2]);
    // removing node 2 from the two-node cycle counts its doubled edge
    let em = evaluate_inter_route_exchange(&sol, &inst, 0, 1).unwrap();
    assert_eq!(em.delta, 2 * 10 - 2 * 25);
    assert_eq!(em.delta, recomputed_delta(&sol, &inst, &em));
}

#[test]
fn inter_route_two_node_cycles_both_sides() {
    let inst = line_instance(&[0.0, 10.0, 25.0, 45.0]);
    let sol = Solution::new(vec![0, 3], vec![1, 2]);
    let em = evaluate_inter_route_exchange(&sol, &inst, 1, 0).unwrap();
    assert_eq!(em.delta, recomputed_delta(&sol, &inst, &em));
}

#[test]
fn vertex_exchange_three_node_cycle_all_pairs() {
    let inst = line_instance(&[0.0, 10.0, 25.0, 100.0]);
    let sol = Solution::new(vec![0, 1, 2], vec![3]);
    for (p1, p2) in [(0, 1), (1, 2), (0, 2)] {
        let em = evaluate_intra_route_vertex_exchange(&sol, &inst, CycleId::Cycle1, p1, p2)
            .unwrap();
        assert_eq!(em.delta, recomputed_delta(&sol, &inst, &em), "pair {} {}", p1, p2);
    }
}

#[test]
fn edge_exchange_four_node_cycle_both_diagonal_pairs() {
    let inst = line_instance(&[0.0, 10.0, 25.0, 45.0]);
    let sol = Solution::new(vec![0, 2, 1, 3], vec![]);
    for (p1, p2) in [(0, 2), (1, 3), (2, 0), (3, 1)] {
        let em = evaluate_intra_route_edge_exchange(&sol, &inst, CycleId::Cycle1, p1, p2)
            .unwrap();
        assert_eq!(em.delta, recomputed_delta(&sol, &inst, &em), "pair {} {}", p1, p2);
    }
}

#[test]
fn three_opt_six_node_cycle_every_triple() {
    let inst = line_instance(&[0.0, 40.0, 10.0, 30.0, 20.0, 50.0]);
    let sol = Solution::new(vec![0, 1, 2, 3, 4, 5], vec![]);
    let mut improving = 0;
    for p1 in 0..6 {
        for p2 in p1 + 1..6 {
            for p3 in p2 + 1..6 {
                if let Some(em) = evaluate_intra_route_3opt(
                    &sol,
                    &inst,
                    CycleId::Cycle1,
                    p1,
                    p2,
                    p3,
                ) {
                    assert!(em.delta < 0);
                    assert_eq!(
                        em.delta,
                        recomputed_delta(&sol, &inst, &em),
                        "triple {} {} {}",
                        p1,
                        p2,
                        p3,
                    );
                    improving += 1;
                }
            }
        }
    }
    assert!(improving > 0);
}

#[test]
fn or_opt_four_node_cycle_every_request() {
    let inst = line_instance(&[0.0, 30.0, 10.0, 20.0]);
    let sol = Solution::new(vec![0, 1, 2, 3], vec![]);
    let mut improving = 0;
    for from in 0..4 {
        for len in 1..=3usize {
            for to in 0..4 {
                if let Some(em) = evaluate_intra_route_or_opt(
                    &sol,
                    &inst,
                    CycleId::Cycle1,
                    from,
                    len,
                    to,
                ) {
                    assert!(em.delta < 0);
                    assert_eq!(
                        em.delta,
                        recomputed_delta(&sol, &inst, &em),
                        "request {} {} {}",
                        from,
                        len,
                        to,
                    );
                    improving += 1;
                }
            }
        }
    }
    assert!(improving > 0);
}

#[test]
fn move_list_steepest_handles_segment_families() {
    // The worklist policy invalidates three-opt and or-opt entries
    // wholesale after each apply and regenerates only the simpler families.
    let inst = line_instance(&[0.0, 40.0, 10.0, 30.0, 20.0, 50.0, 5.0, 35.0]);
    for neighborhood in [NeighborhoodType::ThreeOpt, NeighborhoodType::OrOpt] {
        let ls = LocalSearch::new(
            SearchVariant::MoveListSteepest,
            neighborhood,
            InitialSolutionType::Random,
            false,
        );
        let start = Solution::new(vec![0, 1, 2, 3, 4, 5], vec![6, 7]);
        let start_cost = start.calculate_cost(&inst);
        let refined = ls.solve_from_solution(&inst, start, &mut SilentProgress);
        assert!(refined.is_valid(&inst));
        assert!(refined.calculate_cost(&inst) <= start_cost);
    }
}
