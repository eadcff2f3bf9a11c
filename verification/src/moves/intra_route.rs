//! Evaluation of intra-route moves: vertex exchange, edge exchange (two-opt),
//! three-opt and or-opt, each with an exact incremental cost delta.

use vstd::prelude::*;

use crate::cost::cycle_cost;
use crate::cost::in_range;
use crate::cost::lemma_block_swap_cost;
use crate::cost::lemma_cycle_swap;
use crate::cost::lemma_cycle_concat4;
use crate::cost::lemma_cycle_update_at;
use crate::cost::lemma_path_reverse;
use crate::cost::lemma_in_range_concat;
use crate::cost::lemma_in_range_subrange;
use crate::cost::lemma_reverse_block_cost;
use crate::cost::pair_cost;
use crate::instance::Instance;
use crate::moves::inter_route::lemma_find_in_valid;
use crate::moves::types::or_opt_rearranged;
use crate::moves::types::reverse_window;
use crate::moves::types::three_opt_rearranged;
use crate::moves::types::CycleId;
use crate::moves::types::EvaluatedMove;
use crate::moves::types::Move;
use crate::moves::types::apply_move_spec;
use crate::solution::Solution;
use crate::solution::cycle_of;
use crate::solution::find_node_spec;
use crate::solution::scan_edge_from;

verus! {

/// Cost effect of reversing a proper circular window: exactly the two edges
/// attaching the window to the rest of the tour change.
#[verifier::rlimit(100)]
pub proof fn lemma_reverse_window_cost(inst: Instance, cy: Seq<usize>, start: int, end: int)
    requires
        inst.wf(),
        in_range(cy, inst.n()),
        0 <= start < cy.len(),
        0 <= end < cy.len(),
        start <= end ==> !(start == 0 && end == cy.len() - 1),
        start > end ==> start > end + 1,
    ensures
        ({
            let n = cy.len() as int;
            let prv = cy[if start == 0 { n - 1 } else { start - 1 }];
            let nxt = cy[if end + 1 == n { 0 } else { end + 1 }];
            cycle_cost(inst, reverse_window(cy, start, end)) == cycle_cost(inst, cy) + inst.d(
                cy[start] as int,
                nxt as int,
            ) + inst.d(prv as int, cy[end] as int) - inst.d(cy[end] as int, nxt as int) - inst.d(
                prv as int,
                cy[start] as int,
            )
        }),
{
    let n = cy.len() as int;
    if start <= end {
        let a = cy.take(start);
        let w = cy.subrange(start, end + 1);
        let b = cy.skip(end + 1);
        let r = b + a;
        assert(cy =~= a + w + b);
        assert(reverse_window(cy, start, end) == a + w.reverse() + b);
        lemma_cycle_swap(inst, a, w + b);
        assert(a + (w + b) =~= a + w + b);
        assert((w + b) + a =~= w + r);
        lemma_cycle_swap(inst, a, w.reverse() + b);
        assert(a + (w.reverse() + b) =~= a + w.reverse() + b);
        assert((w.reverse() + b) + a =~= w.reverse() + r);
        lemma_in_range_subrange(cy, inst.n(), start, end + 1);
        lemma_in_range_subrange(cy, inst.n(), end + 1, n);
        lemma_in_range_subrange(cy, inst.n(), 0, start);
        lemma_in_range_concat(b, a, inst.n());
        assert(r.len() >= 1);
        lemma_reverse_block_cost(inst, w, r);
        assert(w[0] == cy[start]);
        assert(w.last() == cy[end]);
        if b.len() > 0 {
            assert(r[0] == cy[end + 1]);
        } else {
            assert(r[0] == cy[0]);
        }
        if a.len() > 0 {
            assert(r.last() == cy[start - 1]);
        } else {
            assert(r.last() == cy[n - 1]);
        }
    } else {
        let k = n - start;
        let w = cy.skip(start) + cy.take(end + 1);
        let r = w.reverse();
        let mid = cy.subrange(end + 1, start);
        assert(reverse_window(cy, start, end) == r.skip(k) + mid + r.take(k));
        lemma_cycle_swap(inst, r.skip(k) + mid, r.take(k));
        assert((r.skip(k) + mid) + r.take(k) =~= r.skip(k) + mid + r.take(k));
        assert(r.take(k) + (r.skip(k) + mid) =~= r + mid);
        lemma_cycle_swap(inst, cy.take(end + 1), mid + cy.skip(start));
        assert(cy.take(end + 1) + (mid + cy.skip(start)) =~= cy);
        assert((mid + cy.skip(start)) + cy.take(end + 1) =~= mid + w);
        lemma_cycle_swap(inst, mid, w);
        lemma_in_range_subrange(cy, inst.n(), start, n);
        lemma_in_range_subrange(cy, inst.n(), 0, end + 1);
        lemma_in_range_subrange(cy, inst.n(), end + 1, start);
        lemma_in_range_concat(cy.skip(start), cy.take(end + 1), inst.n());
        lemma_reverse_block_cost(inst, w, mid);
        assert(w[0] == cy[start]);
        assert(w.last() == cy[end]);
        assert(mid[0] == cy[end + 1]);
        assert(mid.last() == cy[start - 1]);
    }
}


/// The branch formula the vertex-exchange evaluator computes.
pub open spec fn vertex_delta_formula(inst: Instance, cy: Seq<usize>, pos1: int, pos2: int)
    -> int {
    let n = cy.len() as int;
    let v1 = cy[pos1];
    let v2 = cy[pos2];
    if n == 2 {
        0
    } else if pos2 == pos1 + 1 || (pos1 == 0 && pos2 == n - 1) {
        let wrap = pos1 == 0 && pos2 == n - 1;
        let x = if wrap { v2 } else { v1 };
        let y = if wrap { v1 } else { v2 };
        let prev = if wrap { cy[pos2 - 1] } else { cy[if pos1 == 0 { n - 1 } else { pos1 - 1 }] };
        let next = if wrap { cy[pos1 + 1] } else { cy[if pos2 + 1 == n { 0 } else { pos2 + 1 }] };
        (inst.d(prev as int, y as int) + inst.d(y as int, x as int) + inst.d(
            x as int,
            next as int,
        )) - (inst.d(prev as int, x as int) + inst.d(x as int, y as int) + inst.d(
            y as int,
            next as int,
        ))
    } else {
        let prev1 = cy[if pos1 == 0 { n - 1 } else { pos1 - 1 }];
        let next1 = cy[pos1 + 1];
        let prev2 = cy[pos2 - 1];
        let next2 = cy[if pos2 + 1 == n { 0 } else { pos2 + 1 }];
        (inst.d(prev1 as int, v2 as int) + inst.d(v2 as int, next1 as int) + inst.d(
            prev2 as int,
            v1 as int,
        ) + inst.d(v1 as int, next2 as int)) - (inst.d(prev1 as int, v1 as int) + inst.d(
            v1 as int,
            next1 as int,
        ) + inst.d(prev2 as int, v2 as int) + inst.d(v2 as int, next2 as int))
    }
}

/// The vertex-exchange branch formula is exactly the cost change of
/// applying the exchange.
#[verifier::rlimit(100)]
#[verifier::spinoff_prover]
pub proof fn lemma_vertex_exchange_exact(
    inst: Instance,
    s: Solution,
    cycle: CycleId,
    pos1: int,
    pos2: int,
)
    requires
        inst.wf(),
        s.valid(inst.n()),
        0 <= pos1 < pos2 < cycle_of(s, cycle).len(),
        cycle_of(s, cycle).len() >= 2,
    ensures
        ({
            let cy = cycle_of(s, cycle);
            let mv = Move::IntraRouteVertexExchange { v1: cy[pos1], v2: cy[pos2], cycle };
            vertex_delta_formula(inst, cy, pos1, pos2) == pair_cost(
                inst,
                apply_move_spec(mv, s).0,
                apply_move_spec(mv, s).1,
            ) - pair_cost(inst, s.cycle1@, s.cycle2@)
        }),
{
    let nn = inst.n();
    let cy = cycle_of(s, cycle);
    let n = cy.len() as int;
    let v1 = cy[pos1];
    let v2 = cy[pos2];
    let mv = Move::IntraRouteVertexExchange { v1, v2, cycle };
    s.lemma_valid_in_range(nn);
    lemma_find_in_valid(s, nn, cycle, pos1);
    lemma_find_in_valid(s, nn, cycle, pos2);
    assert(v1 != v2);
    let mid = cy.update(pos1, v2);
    assert(apply_move_spec(mv, s) == crate::moves::types::pair_with(
        s,
        cycle,
        mid.update(pos2, v1),
    ));
    lemma_cycle_update_at(inst, cy, pos1, v2);
    lemma_cycle_update_at(inst, mid, pos2, v1);
    let prev2i: int = if pos2 == 0 { n - 1 } else { pos2 - 1 };
    let next2i: int = if pos2 + 1 == n { 0 } else { pos2 + 1 };
    assert(mid.len() == n);
    assert(mid[pos2] == v2);
    assert(mid[prev2i] == if prev2i == pos1 { v2 } else { cy[prev2i] });
    assert(mid[next2i] == if next2i == pos1 { v2 } else { cy[next2i] });
}

/// The structural precondition of a vertex-exchange request.
pub open spec fn vertex_exchange_args_ok(cy: Seq<usize>, pos1: int, pos2: int) -> bool {
    &&& cy.len() >= 2
    &&& pos1 != pos2
    &&& 0 <= pos1 < cy.len()
    &&& 0 <= pos2 < cy.len()
}

/// Evaluates swapping the nodes at two positions of one cycle.  The returned
/// delta is exactly the change in total tour length that applying the
/// returned move would cause now.
#[verifier::rlimit(100)]
pub fn evaluate_intra_route_vertex_exchange(
    solution: &Solution,
    instance: &Instance,
    cycle: CycleId,
    pos1: usize,
    pos2: usize,
) -> (r: Option<EvaluatedMove>)
    requires
        instance.wf(),
        solution.valid(instance.n()),
    ensures
        r is None <==> !vertex_exchange_args_ok(cycle_of(*solution, cycle), pos1 as int, pos2 as int),
        r matches Some(em) ==> {
            let cy = cycle_of(*solution, cycle);
            let p1 = if pos1 < pos2 { pos1 as int } else { pos2 as int };
            let p2 = if pos1 < pos2 { pos2 as int } else { pos1 as int };
            &&& em.move_type == (Move::IntraRouteVertexExchange { v1: cy[p1], v2: cy[p2], cycle })
            &&& em.delta as int == pair_cost(
                *instance,
                apply_move_spec(em.move_type, *solution).0,
                apply_move_spec(em.move_type, *solution).1,
            ) - pair_cost(*instance, solution.cycle1@, solution.cycle2@)
        },
{
    let cycle_vec = solution.get_cycle(cycle);
    let n = cycle_vec.len();

    if n < 2 || pos1 == pos2 || pos1 >= n || pos2 >= n {
        return None;
    }
    proof {
        solution.lemma_valid_in_range(instance.n());
    }

    let (pos1, pos2) = if pos1 < pos2 {
        (pos1, pos2)
    } else {
        (pos2, pos1)
    };

    let v1 = cycle_vec[pos1];
    let v2 = cycle_vec[pos2];

    let delta: i64 = if n == 2 {
        0
    } else if pos2 == pos1 + 1 || (pos1 == 0 && pos2 == n - 1) {
        let (x, y, prev, next) = if pos1 == 0 && pos2 == n - 1 {
            (cycle_vec[pos2], cycle_vec[pos1], cycle_vec[pos2 - 1], cycle_vec[pos1 + 1])
        } else {
            (
                cycle_vec[pos1],
                cycle_vec[pos2],
                cycle_vec[if pos1 == 0 {
                    n - 1
                } else {
                    pos1 - 1
                }],
                cycle_vec[if pos2 + 1 == n {
                    0
                } else {
                    pos2 + 1
                }],
            )
        };
        (instance.distance(prev, y) + instance.distance(y, x) + instance.distance(x, next)) - (
        instance.distance(prev, x) + instance.distance(x, y) + instance.distance(y, next))
    } else {
        let prev1 = cycle_vec[if pos1 == 0 {
            n - 1
        } else {
            pos1 - 1
        }];
        let next1 = cycle_vec[pos1 + 1];
        let prev2 = cycle_vec[pos2 - 1];
        let next2 = cycle_vec[if pos2 + 1 == n {
            0
        } else {
            pos2 + 1
        }];

        (instance.distance(prev1, v2) + instance.distance(v2, next1) + instance.distance(
            prev2,
            v1,
        ) + instance.distance(v1, next2)) - (instance.distance(prev1, v1) + instance.distance(
            v1,
            next1,
        ) + instance.distance(prev2, v2) + instance.distance(v2, next2))
    };

    proof {
        let s = *solution;
        let inst = *instance;
        let cy = cycle_of(s, cycle);
        lemma_vertex_exchange_exact(inst, s, cycle, pos1 as int, pos2 as int);
        assert(delta as int == vertex_delta_formula(inst, cy, pos1 as int, pos2 as int));
    }

    Some(EvaluatedMove { move_type: Move::IntraRouteVertexExchange { v1, v2, cycle }, delta })
}


/// The structural precondition of an edge-exchange request: two distinct,
/// non-adjacent, non-overlapping edges of a cycle of length at least three.
pub open spec fn edge_exchange_args_ok(cy: Seq<usize>, pos1: int, pos2: int) -> bool {
    let n = cy.len() as int;
    &&& n >= 3
    &&& 0 <= pos1 < n
    &&& 0 <= pos2 < n
    &&& pos1 != pos2
    &&& (pos1 + 1) % n != pos2
    &&& (pos2 + 1) % n != pos1
}

/// Evaluates the two-opt move that removes the edges starting at `pos1` and
/// `pos2` and reconnects the cycle crosswise.  The returned delta is exactly
/// the change in total tour length that applying the returned move would
/// cause now.
#[verifier::rlimit(100)]
pub fn evaluate_intra_route_edge_exchange(
    solution: &Solution,
    instance: &Instance,
    cycle: CycleId,
    pos1: usize,
    pos2: usize,
) -> (r: Option<EvaluatedMove>)
    requires
        instance.wf(),
        solution.valid(instance.n()),
    ensures
        r is None <==> !edge_exchange_args_ok(cycle_of(*solution, cycle), pos1 as int, pos2 as int),
        r matches Some(em) ==> {
            let cy = cycle_of(*solution, cycle);
            let n = cy.len() as int;
            &&& em.move_type == (Move::IntraRouteEdgeExchange {
                a: cy[pos1 as int],
                b: cy[(pos1 + 1) % n],
                c: cy[pos2 as int],
                d: cy[(pos2 + 1) % n],
                cycle,
            })
            &&& em.delta as int == pair_cost(
                *instance,
                apply_move_spec(em.move_type, *solution).0,
                apply_move_spec(em.move_type, *solution).1,
            ) - pair_cost(*instance, solution.cycle1@, solution.cycle2@)
        },
{
    let cycle_vec = solution.get_cycle(cycle);
    let n = cycle_vec.len();

    if n < 3 || pos1 >= n || pos2 >= n || pos1 == pos2 || (pos1 + 1) % n == pos2 || (pos2 + 1) % n
        == pos1 {
        return None;
    }
    proof {
        solution.lemma_valid_in_range(instance.n());
    }

    let pos_b = (pos1 + 1) % n;
    let pos_d = (pos2 + 1) % n;
    let a = cycle_vec[pos1];
    let b = cycle_vec[pos_b];
    let c = cycle_vec[pos2];
    let d = cycle_vec[pos_d];

    let cost_removed = instance.distance(a, b) + instance.distance(c, d);
    let cost_added = instance.distance(a, c) + instance.distance(b, d);
    let delta = cost_added - cost_removed;

    proof {
        let s = *solution;
        let inst = *instance;
        let nn = inst.n();
        let cy = cycle_of(s, cycle);
        let mv = Move::IntraRouteEdgeExchange { a, b, c, d, cycle };
        s.lemma_valid_in_range(nn);
        let ni = n as int;
        let p1 = pos1 as int;
        let p2 = pos2 as int;
        let pb = pos_b as int;
        let pd = pos_d as int;
        assert(pb == if p1 + 1 == ni { 0int } else { p1 + 1 }) by (nonlinear_arith)
            requires pb == (p1 + 1) % ni && 0 <= p1 && p1 < ni;
        assert(pd == if p2 + 1 == ni { 0int } else { p2 + 1 }) by (nonlinear_arith)
            requires pd == (p2 + 1) % ni && 0 <= p2 && p2 < ni;
        lemma_find_in_valid(s, nn, cycle, pos_b as int);
        lemma_find_in_valid(s, nn, cycle, pos2 as int);
        assert(b != c);
        assert(cy[if pos_b == 0 { n - 1 } else { pos_b - 1 } as int] == a);
        assert(cy[if pos2 + 1 == n { 0 } else { pos2 + 1 } as int] == d);
        assert(apply_move_spec(mv, s) == crate::moves::types::pair_with(
            s,
            cycle,
            reverse_window(cy, pos_b as int, pos2 as int),
        ));
        if pos_b as int <= pos2 as int {
            assert(!(pos_b == 0 && pos2 == n - 1));
        } else {
            assert(pos_b as int > pos2 as int + 1);
        }
        lemma_reverse_window_cost(inst, cy, pos_b as int, pos2 as int);
    }

    Some(
        EvaluatedMove {
            move_type: Move::IntraRouteEdgeExchange { a, b, c, d, cycle },
            delta,
        },
    )
}

/// Evaluates the candidate-list form of the edge exchange: removing the
/// edges that leave the nodes at `pos_a` and `pos_b` and adding the edge
/// between those nodes.  The emitted move uses the same canonical field
/// layout as the general form, so one apply and validate path serves both.
pub fn evaluate_candidate_intra_route_edge_exchange(
    solution: &Solution,
    instance: &Instance,
    cycle_id: CycleId,
    pos_a: usize,
    pos_b: usize,
) -> (r: Option<EvaluatedMove>)
    requires
        instance.wf(),
        solution.valid(instance.n()),
    ensures
        r is None <==> !edge_exchange_args_ok(cycle_of(*solution, cycle_id), pos_a as int, pos_b as int),
        r matches Some(em) ==> {
            let cy = cycle_of(*solution, cycle_id);
            let n = cy.len() as int;
            &&& em.move_type == (Move::IntraRouteEdgeExchange {
                a: cy[pos_a as int],
                b: cy[(pos_a + 1) % n],
                c: cy[pos_b as int],
                d: cy[(pos_b + 1) % n],
                cycle: cycle_id,
            })
            &&& em.delta as int == pair_cost(
                *instance,
                apply_move_spec(em.move_type, *solution).0,
                apply_move_spec(em.move_type, *solution).1,
            ) - pair_cost(*instance, solution.cycle1@, solution.cycle2@)
        },
{
    evaluate_intra_route_edge_exchange(solution, instance, cycle_id, pos_a, pos_b)
}


/// Cost effect of each three-opt reconnection pattern: three edges removed,
/// three edges added.
#[verifier::rlimit(100)]
pub proof fn lemma_three_opt_cost(
    inst: Instance,
    cy: Seq<usize>,
    pos1: int,
    pos2: int,
    pos3: int,
    case: u8,
)
    requires
        inst.wf(),
        in_range(cy, inst.n()),
        0 <= pos1 < pos2 < pos3 < cy.len(),
        1 <= case <= 4,
    ensures
        ({
            let n = cy.len() as int;
            let a = cy[pos1];
            let b = cy[pos1 + 1];
            let c = cy[pos2];
            let d = cy[pos2 + 1];
            let e = cy[pos3];
            let f = cy[if pos3 + 1 == n { 0 } else { pos3 + 1 }];
            let removed = inst.d(a as int, b as int) + inst.d(c as int, d as int) + inst.d(
                e as int,
                f as int,
            );
            let added = if case == 1 {
                inst.d(a as int, c as int) + inst.d(b as int, e as int) + inst.d(
                    d as int,
                    f as int,
                )
            } else if case == 2 {
                inst.d(a as int, e as int) + inst.d(d as int, b as int) + inst.d(
                    c as int,
                    f as int,
                )
            } else if case == 3 {
                inst.d(a as int, d as int) + inst.d(e as int, b as int) + inst.d(
                    c as int,
                    f as int,
                )
            } else {
                inst.d(a as int, d as int) + inst.d(e as int, c as int) + inst.d(
                    b as int,
                    f as int,
                )
            };
            cycle_cost(inst, three_opt_rearranged(cy, pos1, pos2, pos3, case)) == cycle_cost(
                inst,
                cy,
            ) + added - removed
        }),
{
    let n = cy.len() as int;
    let p = cy.take(pos1 + 1);
    let s1 = cy.subrange(pos1 + 1, pos2 + 1);
    let s2 = cy.subrange(pos2 + 1, pos3 + 1);
    let t = cy.skip(pos3 + 1);
    assert(cy =~= p + s1 + s2 + t);
    lemma_in_range_subrange(cy, inst.n(), pos1 + 1, pos2 + 1);
    lemma_in_range_subrange(cy, inst.n(), pos2 + 1, pos3 + 1);
    lemma_path_reverse(inst, s1);
    lemma_path_reverse(inst, s2);
    lemma_cycle_concat4(inst, p, s1, s2, t);
    assert(p.last() == cy[pos1]);
    assert(p[0] == cy[0]);
    assert(s1[0] == cy[pos1 + 1]);
    assert(s1.last() == cy[pos2]);
    assert(s2[0] == cy[pos2 + 1]);
    assert(s2.last() == cy[pos3]);
    assert(s1.reverse()[0] == cy[pos2]);
    assert(s1.reverse().last() == cy[pos1 + 1]);
    assert(s2.reverse()[0] == cy[pos3]);
    assert(s2.reverse().last() == cy[pos2 + 1]);
    if t.len() > 0 {
        assert(t[0] == cy[pos3 + 1]);
        assert(t.last() == cy[n - 1]);
    }
    if case == 1 {
        lemma_cycle_concat4(inst, p, s1.reverse(), s2.reverse(), t);
    } else if case == 2 {
        lemma_cycle_concat4(inst, p, s2.reverse(), s1, t);
    } else if case == 3 {
        lemma_cycle_concat4(inst, p, s2, s1, t);
    } else {
        lemma_cycle_concat4(inst, p, s2, s1.reverse(), t);
    }
}

/// The structural precondition of a three-opt request: three strictly
/// increasing break positions in a cycle of length at least six.
pub open spec fn three_opt_args_ok(cy: Seq<usize>, pos1: int, pos2: int, pos3: int) -> bool {
    &&& cy.len() >= 6
    &&& 0 <= pos1 < pos2 < pos3 < cy.len()
}

/// The winning pattern so far: a candidate delta replaces the best found if
/// it is strictly smaller.
pub open spec fn better_case(best: (int, u8), delta: int, case: u8) -> (int, u8) {
    if delta < best.0 {
        (delta, case)
    } else {
        best
    }
}

/// The best three-opt reconnection for the given break positions: the
/// smallest of the four pattern deltas, measured against a zero baseline,
/// with the earliest pattern winning ties.
pub open spec fn three_opt_choice(
    inst: Instance,
    cy: Seq<usize>,
    pos1: int,
    pos2: int,
    pos3: int,
) -> (int, u8) {
    let d1 = cycle_cost(inst, three_opt_rearranged(cy, pos1, pos2, pos3, 1)) - cycle_cost(
        inst,
        cy,
    );
    let d2 = cycle_cost(inst, three_opt_rearranged(cy, pos1, pos2, pos3, 2)) - cycle_cost(
        inst,
        cy,
    );
    let d3 = cycle_cost(inst, three_opt_rearranged(cy, pos1, pos2, pos3, 3)) - cycle_cost(
        inst,
        cy,
    );
    let d4 = cycle_cost(inst, three_opt_rearranged(cy, pos1, pos2, pos3, 4)) - cycle_cost(
        inst,
        cy,
    );
    better_case(better_case(better_case(better_case((0, 0u8), d1, 1), d2, 2), d3, 3), d4, 4)
}

/// Evaluates the four non-trivial three-opt reconnections at the given break
/// positions and returns the best strictly improving one, tagged with its
/// pattern so that apply can replay it identically; `None` if no pattern
/// improves.
#[verifier::rlimit(100)]
pub fn evaluate_intra_route_3opt(
    solution: &Solution,
    instance: &Instance,
    cycle_id: CycleId,
    pos1: usize,
    pos2: usize,
    pos3: usize,
) -> (r: Option<EvaluatedMove>)
    requires
        instance.wf(),
        solution.valid(instance.n()),
    ensures
        ({
            let cy = cycle_of(*solution, cycle_id);
            let choice = three_opt_choice(*instance, cy, pos1 as int, pos2 as int, pos3 as int);
            &&& (r is Some <==> three_opt_args_ok(cy, pos1 as int, pos2 as int, pos3 as int)
                && choice.0 < 0)
            &&& (r matches Some(em) ==> {
                &&& em.move_type == (Move::IntraRoute3Opt {
                    pos1,
                    pos2,
                    pos3,
                    cycle: cycle_id,
                    case: choice.1,
                })
                &&& em.delta as int == choice.0
                &&& em.delta as int == pair_cost(
                    *instance,
                    apply_move_spec(em.move_type, *solution).0,
                    apply_move_spec(em.move_type, *solution).1,
                ) - pair_cost(*instance, solution.cycle1@, solution.cycle2@)
            })
        }),
{
    let cycle_vec = solution.get_cycle(cycle_id);
    let n = cycle_vec.len();

    if n < 6 {
        return None;
    }
    if pos1 >= pos2 || pos2 >= pos3 || pos3 >= n {
        return None;
    }
    proof {
        solution.lemma_valid_in_range(instance.n());
    }

    let a = cycle_vec[pos1];
    let b = cycle_vec[pos1 + 1];
    let c = cycle_vec[pos2];
    let d = cycle_vec[pos2 + 1];
    let e = cycle_vec[pos3];
    let f = cycle_vec[if pos3 + 1 == n {
        0
    } else {
        pos3 + 1
    }];

    let current_cost = instance.distance(a, b) + instance.distance(c, d) + instance.distance(
        e,
        f,
    );

    let mut best_delta: i64 = 0;
    let mut best_case: u8 = 0;

    let case1_cost = instance.distance(a, c) + instance.distance(b, e) + instance.distance(d, f);
    let case1_delta = case1_cost - current_cost;
    if case1_delta < best_delta {
        best_delta = case1_delta;
        best_case = 1;
    }

    let case2_cost = instance.distance(a, e) + instance.distance(f, c) + instance.distance(d, b);
    let case2_delta = case2_cost - current_cost;
    if case2_delta < best_delta {
        best_delta = case2_delta;
        best_case = 2;
    }

    let case3_cost = instance.distance(a, d) + instance.distance(e, b) + instance.distance(f, c);
    let case3_delta = case3_cost - current_cost;
    if case3_delta < best_delta {
        best_delta = case3_delta;
        best_case = 3;
    }

    let case4_cost = instance.distance(a, d) + instance.distance(e, c) + instance.distance(f, b);
    let case4_delta = case4_cost - current_cost;
    if case4_delta < best_delta {
        best_delta = case4_delta;
        best_case = 4;
    }

    proof {
        let s = *solution;
        let inst = *instance;
        let cy = cycle_of(s, cycle_id);
        lemma_three_opt_cost(inst, cy, pos1 as int, pos2 as int, pos3 as int, 1);
        lemma_three_opt_cost(inst, cy, pos1 as int, pos2 as int, pos3 as int, 2);
        lemma_three_opt_cost(inst, cy, pos1 as int, pos2 as int, pos3 as int, 3);
        lemma_three_opt_cost(inst, cy, pos1 as int, pos2 as int, pos3 as int, 4);
    }

    if best_delta < 0 {
        proof {
            let s = *solution;
            let cy = cycle_of(s, cycle_id);
            let mv = Move::IntraRoute3Opt { pos1, pos2, pos3, cycle: cycle_id, case: best_case };
            assert(apply_move_spec(mv, s) == crate::moves::types::pair_with(
                s,
                cycle_id,
                three_opt_rearranged(cy, pos1 as int, pos2 as int, pos3 as int, best_case),
            ));
        }
        Some(
            EvaluatedMove {
                move_type: Move::IntraRoute3Opt {
                    pos1,
                    pos2,
                    pos3,
                    cycle: cycle_id,
                    case: best_case,
                },
                delta: best_delta,
            },
        )
    } else {
        None
    }
}


/// Cost effect of relocating a chain: the two old boundary edges and the
/// insertion-point edge are removed, the gap-closing edge and the two new
/// boundary edges are added.
#[verifier::rlimit(100)]
pub proof fn lemma_or_opt_cost(inst: Instance, cy: Seq<usize>, from: int, len: int, to: int)
    requires
        inst.wf(),
        in_range(cy, inst.n()),
        1 <= len,
        0 <= from,
        from + len <= cy.len(),
        0 <= to < cy.len(),
        to < from || to > from + len,
        !(from + len == cy.len() && to == 0),
    ensures
        ({
            let n = cy.len() as int;
            let p = cy[if from == 0 { n - 1 } else { from - 1 }];
            let s1 = cy[from];
            let sk = cy[from + len - 1];
            let nn = cy[if from + len == n { 0 } else { from + len }];
            let ip = cy[if to == 0 { n - 1 } else { to - 1 }];
            let inn = cy[to];
            cycle_cost(inst, or_opt_rearranged(cy, from, len, to)) == cycle_cost(inst, cy)
                + inst.d(p as int, nn as int) + inst.d(ip as int, s1 as int) + inst.d(
                sk as int,
                inn as int,
            ) - inst.d(p as int, s1 as int) - inst.d(sk as int, nn as int) - inst.d(
                ip as int,
                inn as int,
            )
        }),
{
    let n = cy.len() as int;
    let ch = cy.subrange(from, from + len);
    lemma_in_range_subrange(cy, inst.n(), from, from + len);
    if to < from {
        let a1 = cy.take(to);
        let a2 = cy.subrange(to, from);
        let b = cy.skip(from + len);
        let x = b + a1;
        assert(cy =~= a1 + a2 + ch + b);
        assert(or_opt_rearranged(cy, from, len, to) =~= a1 + ch + a2 + b);
        lemma_cycle_swap(inst, a1 + a2, ch + b);
        assert((a1 + a2) + (ch + b) =~= cy);
        assert((ch + b) + (a1 + a2) =~= ch + x + a2);
        lemma_cycle_swap(inst, a1, ch + a2 + b);
        assert(a1 + (ch + a2 + b) =~= a1 + ch + a2 + b);
        assert((ch + a2 + b) + a1 =~= ch + a2 + x);
        lemma_in_range_subrange(cy, inst.n(), 0, to);
        lemma_in_range_subrange(cy, inst.n(), to, from);
        lemma_in_range_subrange(cy, inst.n(), from + len, n);
        lemma_in_range_concat(b, a1, inst.n());
        assert(x.len() >= 1);
        lemma_block_swap_cost(inst, ch, x, a2);
        assert(ch[0] == cy[from]);
        assert(ch.last() == cy[from + len - 1]);
        assert(a2[0] == cy[to]);
        assert(a2.last() == cy[from - 1]);
        if b.len() > 0 {
            assert(x[0] == cy[from + len]);
        } else {
            assert(x[0] == cy[0]);
        }
        if a1.len() > 0 {
            assert(x.last() == cy[to - 1]);
        } else {
            assert(x.last() == cy[n - 1]);
        }
    } else {
        let a = cy.take(from);
        let b1 = cy.subrange(from + len, to);
        let b2 = cy.skip(to);
        let v = b2 + a;
        assert(cy =~= a + ch + b1 + b2);
        assert(or_opt_rearranged(cy, from, len, to) =~= a + b1 + ch + b2);
        lemma_cycle_swap(inst, a, ch + b1 + b2);
        assert(a + (ch + b1 + b2) =~= cy);
        assert((ch + b1 + b2) + a =~= ch + b1 + v);
        lemma_cycle_swap(inst, a + b1, ch + b2);
        assert((a + b1) + (ch + b2) =~= a + b1 + ch + b2);
        assert((ch + b2) + (a + b1) =~= ch + v + b1);
        lemma_in_range_subrange(cy, inst.n(), 0, from);
        lemma_in_range_subrange(cy, inst.n(), from + len, to);
        lemma_in_range_subrange(cy, inst.n(), to, n);
        lemma_in_range_concat(b2, a, inst.n());
        assert(b1.len() >= 1);
        lemma_block_swap_cost(inst, ch, b1, v);
        assert(ch[0] == cy[from]);
        assert(ch.last() == cy[from + len - 1]);
        assert(b1[0] == cy[from + len]);
        assert(b1.last() == cy[to - 1]);
        assert(v[0] == cy[to]);
        if a.len() > 0 {
            assert(v.last() == cy[from - 1]);
        } else {
            assert(v.last() == cy[n - 1]);
        }
    }
}

/// The structural precondition of an or-opt request, mirroring the
/// acceptance tests of the evaluator: a chain of one to three nodes, fully
/// inside the cycle, relocated to an in-range target outside the chain's own
/// span, and not reproducing the chain's current location.
pub open spec fn or_opt_args_ok(cy: Seq<usize>, from: int, len: int, to: int) -> bool {
    let n = cy.len() as int;
    let p_idx: int = if from == 0 { n - 1 } else { from - 1 };
    let n_idx: int = if from + len == n { 0 } else { from + len };
    let ip_idx: int = if to == 0 { n - 1 } else { to - 1 };
    &&& n >= 4
    &&& 1 <= len <= 3
    &&& 0 <= from
    &&& from + len <= n
    &&& 0 <= to < n
    &&& if from + len == n {
        !(to >= from || to == 0)
    } else {
        !(from <= to && to <= from + len)
    }
    &&& !(p_idx == ip_idx && n_idx == to)
}

/// Evaluates relocating the chain of `chain_length` nodes starting at
/// `from_pos` to just before the node at `to_pos`, returning a move only
/// when the relocation strictly improves the tour.
#[verifier::rlimit(100)]
pub fn evaluate_intra_route_or_opt(
    solution: &Solution,
    instance: &Instance,
    cycle_id: CycleId,
    from_pos: usize,
    chain_length: usize,
    to_pos: usize,
) -> (r: Option<EvaluatedMove>)
    requires
        instance.wf(),
        solution.valid(instance.n()),
    ensures
        ({
            let cy = cycle_of(*solution, cycle_id);
            let delta_spec = cycle_cost(
                *instance,
                or_opt_rearranged(cy, from_pos as int, chain_length as int, to_pos as int),
            ) - cycle_cost(*instance, cy);
            &&& (r is Some <==> or_opt_args_ok(cy, from_pos as int, chain_length as int, to_pos as int)
                && delta_spec < 0)
            &&& (r matches Some(em) ==> {
                &&& em.move_type == (Move::IntraRouteOrOpt {
                    from_pos,
                    chain_length,
                    to_pos,
                    cycle: cycle_id,
                })
                &&& em.delta as int == delta_spec
                &&& em.delta as int == pair_cost(
                    *instance,
                    apply_move_spec(em.move_type, *solution).0,
                    apply_move_spec(em.move_type, *solution).1,
                ) - pair_cost(*instance, solution.cycle1@, solution.cycle2@)
            })
        }),
{
    let cycle_vec = solution.get_cycle(cycle_id);
    let n = cycle_vec.len();

    if n < 4 || chain_length == 0 || chain_length > 3 {
        return None;
    }
    if from_pos > n || n - from_pos < chain_length {
        return None;
    }
    if to_pos >= n {
        return None;
    }
    if from_pos + chain_length == n {
        if to_pos >= from_pos || to_pos == 0 {
            return None;
        }
    } else {
        if to_pos >= from_pos && to_pos <= from_pos + chain_length {
            return None;
        }
    }
    let p_idx = if from_pos == 0 {
        n - 1
    } else {
        from_pos - 1
    };
    let n_idx = if from_pos + chain_length == n {
        0
    } else {
        from_pos + chain_length
    };
    let ip_idx = if to_pos == 0 {
        n - 1
    } else {
        to_pos - 1
    };
    let in_idx = to_pos;
    if p_idx == ip_idx && n_idx == in_idx {
        return None;
    }
    proof {
        solution.lemma_valid_in_range(instance.n());
    }

    let p_node = cycle_vec[p_idx];
    let s1_node = cycle_vec[from_pos];
    let sk_node = cycle_vec[from_pos + chain_length - 1];
    let n_node = cycle_vec[n_idx];
    let ip_node = cycle_vec[ip_idx];
    let in_node = cycle_vec[in_idx];

    let cost_removed = instance.distance(p_node, s1_node) + instance.distance(sk_node, n_node)
        + instance.distance(ip_node, in_node);
    let cost_added = instance.distance(p_node, n_node) + instance.distance(ip_node, s1_node)
        + instance.distance(sk_node, in_node);
    let delta = cost_added - cost_removed;

    proof {
        let s = *solution;
        let inst = *instance;
        let cy = cycle_of(s, cycle_id);
        lemma_or_opt_cost(inst, cy, from_pos as int, chain_length as int, to_pos as int);
        let mv = Move::IntraRouteOrOpt { from_pos, chain_length, to_pos, cycle: cycle_id };
        assert(apply_move_spec(mv, s) == crate::moves::types::pair_with(
            s,
            cycle_id,
            or_opt_rearranged(cy, from_pos as int, chain_length as int, to_pos as int),
        ));
    }

    if delta < 0 {
        Some(
            EvaluatedMove {
                move_type: Move::IntraRouteOrOpt {
                    from_pos,
                    chain_length,
                    to_pos,
                    cycle: cycle_id,
                },
                delta,
            },
        )
    } else {
        None
    }
}


/// Whether position `i` lies outside the circular window from `st` to `en`.
pub open spec fn outside_window(n: int, st: int, en: int, i: int) -> bool {
    if st <= en {
        !(st <= i <= en)
    } else {
        en < i < st
    }
}

/// Pointwise description of a reversed circular window: the window's two
/// endpoints swap, the position just before the window's end receives the
/// window's second element, and everything outside the window is untouched.
#[verifier::rlimit(100)]
pub proof fn lemma_reverse_window_points(cy: Seq<usize>, st: int, en: int)
    requires
        0 <= st < cy.len(),
        0 <= en < cy.len(),
        st != en,
        st <= en ==> !(st == 0 && en == cy.len() - 1),
        st > en ==> st > en + 1,
    ensures
        reverse_window(cy, st, en).len() == cy.len(),
        reverse_window(cy, st, en)[st] == cy[en],
        reverse_window(cy, st, en)[en] == cy[st],
        forall|i: int|
            0 <= i < cy.len() && outside_window(cy.len() as int, st, en, i)
                ==> #[trigger] reverse_window(cy, st, en)[i] == cy[i],
        window_len(cy.len() as int, st, en) >= 3 ==> reverse_window(cy, st, en)[(en - 1
            + cy.len()) % (cy.len() as int)] == cy[(st + 1) % (cy.len() as int)],
{
    let n = cy.len() as int;
    if st <= en {
        let a = cy.take(st);
        let m = cy.subrange(st, en + 1);
        let b = cy.skip(en + 1);
        let rw = reverse_window(cy, st, en);
        assert(rw == a + m.reverse() + b);
        assert(rw.len() == n);
        assert(rw[st] == m.reverse()[0]);
        assert(m.reverse()[0] == m[m.len() - 1]);
        assert(rw[en] == m.reverse()[en - st]);
        assert forall|i: int|
            0 <= i < n && outside_window(n, st, en, i) implies #[trigger] rw[i] == cy[i] by {
            if i < st {
                assert(rw[i] == a[i]);
            } else {
                assert(rw[i] == b[i - en - 1]);
            }
        }
        if en - st + 1 >= 3 {
            assert((en - 1 + n) % n == en - 1) by (nonlinear_arith)
                requires 0 <= en - 1 < n;
            assert((st + 1) % n == st + 1) by (nonlinear_arith)
                requires 0 <= st + 1 < n;
            assert(rw[en - 1] == m.reverse()[en - 1 - st]);
            assert(m.reverse()[en - 1 - st] == m[1]);
        }
    } else {
        let k = n - st;
        let w = cy.skip(st) + cy.take(en + 1);
        let r = w.reverse();
        let mid = cy.subrange(en + 1, st);
        let rw = reverse_window(cy, st, en);
        let lw = k + en + 1;
        assert(w.len() == lw);
        assert(rw == r.skip(k) + mid + r.take(k));
        assert(rw.len() == n);
        assert(r.take(k)[0] == r[0]);
        assert(r[0] == w[lw - 1]);
        assert(w[lw - 1] == cy[en]);
        assert(rw[st] == r.take(k)[st - st]);
        assert(rw[en] == r.skip(k)[en]);
        assert(r.skip(k)[en] == r[k + en]);
        assert(r[k + en] == w[lw - 1 - k - en]);
        assert(w[0] == cy[st]);
        assert forall|i: int|
            0 <= i < n && outside_window(n, st, en, i) implies #[trigger] rw[i] == cy[i] by {
            assert(rw[i] == mid[i - en - 1]);
        }
        if window_len(n, st, en) >= 3 {
            assert((en - 1 + n) % n == if en == 0 { n - 1 } else { en - 1 }) by (nonlinear_arith)
                requires 0 <= en < n;
            assert((st + 1) % n == if st + 1 == n { 0int } else { st + 1 }) by (nonlinear_arith)
                requires 0 <= st < n;
            if en >= 1 {
                assert(rw[en - 1] == r.skip(k)[en - 1]);
                assert(r.skip(k)[en - 1] == r[k + en - 1]);
                assert(r[k + en - 1] == w[lw - k - en]);
                if st + 1 < n {
                    assert(w[1] == cy[st + 1]);
                } else {
                    assert(w[1] == cy[0]);
                }
            } else {
                assert(rw[n - 1] == r.take(k)[n - 1 - (en + 1) - mid.len()]);
                assert(r.take(k)[k - 1] == r[k - 1]);
                assert(r[k - 1] == w[lw - k]);
                if st + 1 < n {
                    assert(w[1] == cy[st + 1]);
                } else {
                    assert(w[1] == cy[0]);
                }
            }
        }
    }
}

/// Length of the circular window from `st` to `en` inclusive.
pub open spec fn window_len(n: int, st: int, en: int) -> int {
    if st <= en {
        en - st + 1
    } else {
        n - st + en + 1
    }
}

/// Reversing the same circular window twice restores the cycle exactly.
pub proof fn lemma_reverse_window_involution(cy: Seq<usize>, st: int, en: int)
    requires
        0 <= st < cy.len(),
        0 <= en < cy.len(),
        st != en,
        st <= en ==> !(st == 0 && en == cy.len() - 1),
        st > en ==> st > en + 1,
    ensures
        reverse_window(reverse_window(cy, st, en), st, en) == cy,
{
    let n = cy.len() as int;
    if st <= en {
        let a = cy.take(st);
        let m = cy.subrange(st, en + 1);
        let b = cy.skip(en + 1);
        let rw = reverse_window(cy, st, en);
        assert(rw == a + m.reverse() + b);
        assert(rw.take(st) =~= a);
        assert(rw.subrange(st, en + 1) =~= m.reverse());
        assert(rw.skip(en + 1) =~= b);
        assert(m.reverse().reverse() =~= m);
        assert(reverse_window(rw, st, en) =~= cy);
    } else {
        let k = n - st;
        let w = cy.skip(st) + cy.take(en + 1);
        let r = w.reverse();
        let mid = cy.subrange(en + 1, st);
        let rw = reverse_window(cy, st, en);
        assert(rw == r.skip(k) + mid + r.take(k));
        let w2 = rw.skip(st) + rw.take(en + 1);
        assert(rw.skip(st) =~= r.take(k));
        assert(rw.take(en + 1) =~= r.skip(k));
        assert(w2 =~= r.take(k) + r.skip(k));
        assert(w2 =~= r);
        let r2 = w2.reverse();
        assert(r2 =~= w.reverse().reverse());
        assert(w.reverse().reverse() =~= w);
        assert(rw.subrange(en + 1, st) =~= mid);
        assert(r2.skip(k) =~= w.skip(k));
        assert(w.skip(k) =~= cy.take(en + 1));
        assert(r2.take(k) =~= w.take(k));
        assert(w.take(k) =~= cy.skip(st));
        assert(reverse_window(rw, st, en) =~= cy);
    }
}


/// Round trip: an edge-exchange move is self-inverse.  Applying the move
/// emitted for an accepted position pair, and then applying the same move
/// again, restores the exact original cycle arrays, not merely the original
/// cost.
#[verifier::rlimit(100)]
#[verifier::spinoff_prover]
pub proof fn lemma_edge_exchange_round_trip(
    s: Solution,
    s2: Solution,
    n: int,
    cid: CycleId,
    pos1: int,
    pos2: int,
)
    requires
        s.valid(n),
        edge_exchange_args_ok(cycle_of(s, cid), pos1, pos2),
        ({
            let cy = cycle_of(s, cid);
            let nc = cy.len() as int;
            let mv = Move::IntraRouteEdgeExchange {
                a: cy[pos1],
                b: cy[(pos1 + 1) % nc],
                c: cy[pos2],
                d: cy[(pos2 + 1) % nc],
                cycle: cid,
            };
            (s2.cycle1@, s2.cycle2@) == apply_move_spec(mv, s)
        }),
    ensures
        ({
            let cy = cycle_of(s, cid);
            let nc = cy.len() as int;
            let mv = Move::IntraRouteEdgeExchange {
                a: cy[pos1],
                b: cy[(pos1 + 1) % nc],
                c: cy[pos2],
                d: cy[(pos2 + 1) % nc],
                cycle: cid,
            };
            apply_move_spec(mv, s2) == (s.cycle1@, s.cycle2@)
        }),
{
    let cy = cycle_of(s, cid);
    let nc = cy.len() as int;
    let a = cy[pos1];
    let b = cy[(pos1 + 1) % nc];
    let c = cy[pos2];
    let d = cy[(pos2 + 1) % nc];
    let mv = Move::IntraRouteEdgeExchange { a, b, c, d, cycle: cid };
    s.lemma_valid_in_range(n);
    assert((pos1 + 1) % nc == if pos1 + 1 == nc { 0int } else { pos1 + 1 }) by (nonlinear_arith)
        requires 0 <= pos1 && pos1 < nc;
    assert((pos2 + 1) % nc == if pos2 + 1 == nc { 0int } else { pos2 + 1 }) by (nonlinear_arith)
        requires 0 <= pos2 && pos2 < nc;
    let pb = (pos1 + 1) % nc;
    let pc = pos2;
    lemma_find_in_valid(s, n, cid, pb);
    lemma_find_in_valid(s, n, cid, pc);
    assert(b != c);
    assert(cy[if pb == 0 { nc - 1 } else { pb - 1 }] == a);
    assert(cy[if pc + 1 == nc { 0 } else { pc + 1 }] == d);
    assert(apply_move_spec(mv, s) == crate::moves::types::pair_with(
        s,
        cid,
        reverse_window(cy, pb, pc),
    ));
    if pb <= pc {
        assert(!(pb == 0 && pc == nc - 1));
    } else {
        assert(pb > pc + 1);
    }
    let cy2 = reverse_window(cy, pb, pc);
    assert(cycle_of(s2, cid) == cy2);
    lemma_reverse_window_points(cy, pb, pc);
    assert(cy2.len() == nc);
    crate::moves::types::lemma_apply_preserves_partition(mv, s, n);
    assert(s2.valid(n));
    s2.lemma_valid_in_range(n);
    assert(cy2[pc] == b);
    assert(cy2[pb] == c);
    lemma_find_in_valid(s2, n, cid, pc);
    lemma_find_in_valid(s2, n, cid, pb);
    assert(find_node_spec(s2, b) == Some((cid, pc)));
    assert(find_node_spec(s2, c) == Some((cid, pb)));
    // the stored nodes a and d sit just outside the window and are untouched
    let prev_pb = if pb == 0 { nc - 1 } else { pb - 1 };
    let next_pc = if pc + 1 == nc { 0int } else { pc + 1 };
    assert(outside_window(nc, pb, pc, prev_pb));
    assert(outside_window(nc, pb, pc, next_pc));
    assert(cy2[prev_pb] == a);
    assert(cy2[next_pc] == d);
    // the forward orientation no longer matches: the node before b is now
    // inside the reversed window and differs from a
    let wl = window_len(nc, pb, pc);
    let prev_pc = if pc == 0 { nc - 1 } else { pc - 1 };
    assert((pc - 1 + nc) % nc == prev_pc) by (nonlinear_arith)
        requires 0 <= pc && pc < nc && nc >= 2 && prev_pc == if pc == 0 { nc - 1 } else { pc - 1 };
    if wl >= 3 {
        assert(cy2[prev_pc] == cy[(pb + 1) % nc]);
        assert((pb + 1) % nc == if pb + 1 == nc { 0int } else { pb + 1 }) by (nonlinear_arith)
            requires 0 <= pb && pb < nc;
        assert(cy[(pb + 1) % nc] != a);
    } else {
        assert(wl == 2);
        assert(prev_pc == pb);
        assert(cy2[prev_pc] == c);
        assert(c != a);
    }
    assert(apply_move_spec(mv, s2) == crate::moves::types::pair_with(
        s2,
        cid,
        reverse_window(cy2, pb, pc),
    ));
    lemma_reverse_window_involution(cy, pb, pc);
    assert(reverse_window(cy2, pb, pc) == cy);
    match cid {
        CycleId::Cycle1 => {
            assert(s2.cycle2@ == s.cycle2@);
        },
        CycleId::Cycle2 => {
            assert(s2.cycle1@ == s.cycle1@);
        },
    }
}


/// A successful forward edge scan exhibits a position holding the edge.
proof fn lemma_scan_edge_found(c: Seq<usize>, a: usize, b: usize, i: int)
    requires
        0 <= i,
        scan_edge_from(c, a, b, i) == Some(1i8),
    ensures
        exists|p: int|
            i <= p < c.len() && #[trigger] c[p] == a && c[if p + 1 == c.len() {
                0int
            } else {
                p + 1
            }] == b,
    decreases c.len() - i,
{
    if i < c.len() {
        if crate::solution::edge_dir_at(c, a, b, i) is Some {
            if c[i] == a && c[if i + 1 == c.len() {
                0int
            } else {
                i + 1
            }] == b {
                assert(i <= i < c.len());
            } else {
                assert(false);
            }
        } else {
            lemma_scan_edge_found(c, a, b, i + 1);
        }
    }
}

/// Cached-delta stability for the edge-exchange family: a move whose two
/// stored edges `(a, b)` and `(c, d)` still exist forward in the present
/// tour — exactly what the worklist policy re-validates before applying a
/// cached entry — changes the cost by the delta computed from its stored
/// endpoints alone, however the rest of the tour has changed since the move
/// was evaluated.
#[verifier::rlimit(100)]
#[verifier::spinoff_prover]
pub proof fn lemma_valid_edge_move_delta(
    inst: Instance,
    s: Solution,
    cid: CycleId,
    a: usize,
    b: usize,
    c: usize,
    d: usize,
)
    requires
        inst.wf(),
        s.valid(inst.n()),
        a != b && a != c && a != d && b != c && b != d && c != d,
        crate::solution::check_edge_spec(cycle_of(s, cid), a, b) == Some(1i8),
        crate::solution::check_edge_spec(cycle_of(s, cid), c, d) == Some(1i8),
    ensures
        ({
            let mv = Move::IntraRouteEdgeExchange { a, b, c, d, cycle: cid };
            pair_cost(inst, apply_move_spec(mv, s).0, apply_move_spec(mv, s).1) - pair_cost(
                inst,
                s.cycle1@,
                s.cycle2@,
            ) == inst.d(a as int, c as int) + inst.d(b as int, d as int) - inst.d(
                a as int,
                b as int,
            ) - inst.d(c as int, d as int)
        }),
{
    let cy = cycle_of(s, cid);
    let n = cy.len() as int;
    let mv = Move::IntraRouteEdgeExchange { a, b, c, d, cycle: cid };
    s.lemma_valid_in_range(inst.n());
    assert(cy.len() >= 2);
    lemma_scan_edge_found(cy, a, b, 0);
    lemma_scan_edge_found(cy, c, d, 0);
    let pa = choose|p: int|
        0 <= p < n && #[trigger] cy[p] == a && cy[if p + 1 == n { 0int } else { p + 1 }] == b;
    let qc = choose|p: int|
        0 <= p < n && #[trigger] cy[p] == c && cy[if p + 1 == n { 0int } else { p + 1 }] == d;
    let pb: int = if pa + 1 == n { 0 } else { pa + 1 };
    let pc = qc;
    assert(cy[pb] == b);
    assert(cy[pc] == c);
    lemma_find_in_valid(s, inst.n(), cid, pb);
    lemma_find_in_valid(s, inst.n(), cid, pc);
    assert(pb != pc);
    assert(cy[if pb == 0 { n - 1 } else { pb - 1 }] == a);
    assert(cy[if pc + 1 == n { 0 } else { pc + 1 }] == d);
    assert(apply_move_spec(mv, s) == crate::moves::types::pair_with(
        s,
        cid,
        reverse_window(cy, pb, pc),
    ));
    if pb <= pc {
        if pb == 0 && pc == n - 1 {
            assert(cy[if pb == 0 { n - 1 } else { pb - 1 }] == cy[pc]);
            assert(a == c);
            assert(false);
        }
    } else {
        if pb == pc + 1 {
            assert(cy[if pb == 0 { n - 1 } else { pb - 1 }] == cy[pc]);
            assert(a == c);
            assert(false);
        }
    }
    lemma_reverse_window_cost(inst, cy, pb, pc);
    match cid {
        CycleId::Cycle1 => {},
        CycleId::Cycle2 => {},
    }
}

} // verus!
