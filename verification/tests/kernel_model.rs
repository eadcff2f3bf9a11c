//! Tests of the data model: the distance oracle and the tour pair.

use twin_tsp::instance::Instance;
use twin_tsp::moves::types::CycleId;
use twin_tsp::solution::Solution;

fn euclid_matrix(coords: &[(f64, f64)]) -> Vec<Vec<i64>> {
    let n = coords.len();
    let mut m = vec![vec![0i64; n]; n];
    for i in 0..n {
        for j in 0..n {
            if i != j {
                let dx = coords[i].0 - coords[j].0;
                let dy = coords[i].1 - coords[j].1;
                m[i][j] = (dx * dx + dy * dy).sqrt().round() as i64;
            }
        }
    }
    m
}

fn build_instance(coords: &[(f64, f64)]) -> Instance {
    Instance::new(euclid_matrix(coords)).expect("valid distance matrix")
}

#[test]
fn instance_accepts_valid_matrix() {
    let inst = build_instance(&[(0.0, 0.0), (3.0, 4.0), (0.0, 8.0)]);
    assert_eq!(inst.size(), 3);
    assert_eq!(inst.distance(0, 1), 5);
    assert_eq!(inst.distance(1, 0), 5);
    assert_eq!(inst.distance(0, 2), 8);
    assert_eq!(inst.distance(1, 2), 5);
    assert_eq!(inst.distance(2, 2), 0);
}

#[test]
fn instance_rejects_asymmetric_matrix() {
    let m = vec![vec![0, 2], vec![3, 0]];
    assert!(Instance::new(m).is_none());
}

#[test]
fn instance_rejects_ragged_matrix() {
    let m = vec![vec![0, 2], vec![2, 0, 1]];
    assert!(Instance::new(m).is_none());
}

#[test]
fn instance_rejects_negative_distance() {
    let m = vec![vec![0, -1], vec![-1, 0]];
    assert!(Instance::new(m).is_none());
}

#[test]
fn instance_rejects_nonzero_diagonal() {
    let m = vec![vec![1, 2], vec![2, 0]];
    assert!(Instance::new(m).is_none());
}

#[test]
fn nearest_neighbors_sorted_and_nearest() {
    // Five points on a line: the neighbor order from node 0 is 1, 2, 3, 4.
    let mut inst = build_instance(&[(0.0, 0.0), (1.0, 0.0), (3.0, 0.0), (6.0, 0.0), (10.0, 0.0)]);
    inst.precompute_nearest_neighbors(3);
    assert_eq!(inst.get_nearest_neighbors(0).as_slice(), &[1, 2, 3]);
    assert_eq!(inst.get_nearest_neighbors(4).as_slice(), &[3, 2, 1]);
    assert_eq!(inst.get_nearest_neighbors(2).len(), 3);
}

#[test]
fn nearest_neighbors_repopulate_same_k_is_noop() {
    let mut inst = build_instance(&[(0.0, 0.0), (1.0, 0.0), (3.0, 0.0), (6.0, 0.0)]);
    inst.precompute_nearest_neighbors(2);
    let before: Vec<Vec<usize>> = (0..4).map(|i| inst.get_nearest_neighbors(i).clone()).collect();
    inst.precompute_nearest_neighbors(2);
    let after: Vec<Vec<usize>> = (0..4).map(|i| inst.get_nearest_neighbors(i).clone()).collect();
    assert_eq!(before, after);
}

#[test]
fn solution_cost_sums_both_cycles() {
    let inst = build_instance(&[(0.0, 0.0), (10.0, 0.0), (10.0, 10.0), (0.0, 10.0)]);
    let sol = Solution::new(vec![0, 1], vec![2, 3]);
    // Each two-node cycle traverses its edge twice.
    assert_eq!(sol.calculate_cost(&inst), 20 + 20);
    let sol2 = Solution::new(vec![0, 1, 2, 3], vec![]);
    assert_eq!(sol2.calculate_cost(&inst), 40);
    let sol3 = Solution::new(vec![0], vec![1, 2, 3]);
    // one-node cycle costs nothing; the triangle 1-2-3 costs 10 + 10 + 14
    assert_eq!(sol3.calculate_cost(&inst), 34);
}

#[test]
fn solution_validity() {
    let inst = build_instance(&[(0.0, 0.0), (1.0, 0.0), (2.0, 0.0), (3.0, 0.0)]);
    assert!(Solution::new(vec![0, 1], vec![2, 3]).is_valid(&inst));
    assert!(Solution::new(vec![0, 1, 2, 3], vec![]).is_valid(&inst));
    // a node out of range
    assert!(!Solution::new(vec![0, 1], vec![2, 4]).is_valid(&inst));
    // a duplicated node
    assert!(!Solution::new(vec![0, 1], vec![1, 3]).is_valid(&inst));
    // a missing node
    assert!(!Solution::new(vec![0, 1], vec![2]).is_valid(&inst));
    // too many entries
    assert!(!Solution::new(vec![0, 1, 2], vec![3, 3]).is_valid(&inst));
}

#[test]
fn find_node_reports_cycle_and_position() {
    let sol = Solution::new(vec![4, 2], vec![7, 0, 5]);
    assert_eq!(sol.find_node(4), Some((CycleId::Cycle1, 0)));
    assert_eq!(sol.find_node(2), Some((CycleId::Cycle1, 1)));
    assert_eq!(sol.find_node(5), Some((CycleId::Cycle2, 2)));
    assert_eq!(sol.find_node(9), None);
}

#[test]
fn get_cycle_returns_requested_cycle() {
    let sol = Solution::new(vec![1, 2], vec![3]);
    assert_eq!(sol.get_cycle(CycleId::Cycle1).as_slice(), &[1, 2]);
    assert_eq!(sol.get_cycle(CycleId::Cycle2).as_slice(), &[3]);
}

#[test]
fn get_cycle_mut_writes_through() {
    let mut sol = Solution::new(vec![1, 2], vec![3]);
    sol.get_cycle_mut(CycleId::Cycle2).push(9);
    assert_eq!(sol.cycle1.as_slice(), &[1, 2]);
    assert_eq!(sol.cycle2.as_slice(), &[3, 9]);
}

#[test]
fn edge_lookup_directions() {
    let sol = Solution::new(vec![1, 2, 3], vec![4, 5]);
    assert_eq!(sol.check_edge_in_cycle(&sol.cycle1, 1, 2), Some(1));
    assert_eq!(sol.check_edge_in_cycle(&sol.cycle1, 2, 1), Some(-1));
    assert_eq!(sol.check_edge_in_cycle(&sol.cycle1, 3, 1), Some(1));
    assert_eq!(sol.check_edge_in_cycle(&sol.cycle1, 1, 4), None);
    assert_eq!(sol.has_edge(4, 5), Some((CycleId::Cycle2, 1)));
    // the scan sees the stored edge (4, 5) first, traversed backward
    assert_eq!(sol.has_edge(5, 4), Some((CycleId::Cycle2, -1)));
    assert_eq!(sol.has_edge(2, 3), Some((CycleId::Cycle1, 1)));
    assert_eq!(sol.has_edge(3, 2), Some((CycleId::Cycle1, -1)));
    assert_eq!(sol.has_edge(1, 5), None);
    // a one-node cycle has no edges
    let single = Solution::new(vec![0], vec![1, 2]);
    assert_eq!(single.check_edge_in_cycle(&single.cycle1, 0, 0), None);
}
