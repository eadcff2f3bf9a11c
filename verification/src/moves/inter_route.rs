//! Evaluation of inter-route exchanges: swapping one node of each cycle.

use vstd::prelude::*;

use crate::cost::lemma_cycle_update_at;
use crate::cost::lemma_cycle_update_singleton;
use crate::cost::pair_cost;
use crate::instance::Instance;
use crate::moves::types::EvaluatedMove;
use crate::moves::types::Move;
use crate::moves::types::apply_move_spec;
use crate::solution::Solution;
use crate::solution::find_node_spec;
use crate::moves::types::CycleId;

verus! {

/// The structural precondition of an inter-route exchange request: both
/// cycles are non-empty and both positions are in range.
pub open spec fn inter_route_args_ok(s: Solution, pos1: int, pos2: int) -> bool {
    &&& s.cycle1@.len() > 0
    &&& s.cycle2@.len() > 0
    &&& 0 <= pos1 < s.cycle1@.len()
    &&& 0 <= pos2 < s.cycle2@.len()
}

/// In a valid solution, the node at an in-range position of a cycle is found
/// by a by-id lookup exactly there.
pub proof fn lemma_find_in_valid(s: Solution, n: int, cid: crate::moves::types::CycleId, p: int)
    requires
        s.valid(n),
        0 <= p < crate::solution::cycle_of(s, cid).len(),
    ensures
        find_node_spec(s, crate::solution::cycle_of(s, cid)[p]) == Some((cid, p)),
{
    let v = crate::solution::cycle_of(s, cid)[p];
    s.lemma_valid_in_range(n);
    s.cycle1@.index_of_first_ensures(v);
    s.cycle2@.index_of_first_ensures(v);
    match cid {
        CycleId::Cycle1 => {
            assert(s.cycle1@.contains(v));
        },
        CycleId::Cycle2 => {
            assert(s.cycle2@.contains(v));
            assert(!s.cycle1@.contains(v));
        },
    }
}

/// Evaluates swapping the node at `pos1` of the first cycle with the node at
/// `pos2` of the second.  The returned delta is exactly the change in total
/// tour length that applying the returned move would cause now.
#[verifier::rlimit(100)]
pub fn evaluate_inter_route_exchange(
    solution: &Solution,
    instance: &Instance,
    pos1: usize,
    pos2: usize,
) -> (r: Option<EvaluatedMove>)
    requires
        instance.wf(),
        solution.valid(instance.n()),
    ensures
        r is None <==> !inter_route_args_ok(*solution, pos1 as int, pos2 as int),
        r matches Some(em) ==> {
            &&& em.move_type == (Move::InterRouteExchange {
                v1: solution.cycle1@[pos1 as int],
                v2: solution.cycle2@[pos2 as int],
            })
            &&& em.delta as int == pair_cost(
                *instance,
                apply_move_spec(em.move_type, *solution).0,
                apply_move_spec(em.move_type, *solution).1,
            ) - pair_cost(*instance, solution.cycle1@, solution.cycle2@)
        },
{
    let cycle1 = &solution.cycle1;
    let cycle2 = &solution.cycle2;
    let n1 = cycle1.len();
    let n2 = cycle2.len();

    if n1 == 0 || n2 == 0 || pos1 >= n1 || pos2 >= n2 {
        return None;
    }
    proof {
        solution.lemma_valid_in_range(instance.n());
    }

    let u = cycle1[pos1];
    let v = cycle2[pos2];

    let delta: i64 = if n1 == 1 && n2 == 1 {
        0
    } else if n1 == 1 {
        let prev_v = cycle2[if pos2 == 0 {
            n2 - 1
        } else {
            pos2 - 1
        }];
        let next_v = cycle2[if pos2 + 1 == n2 {
            0
        } else {
            pos2 + 1
        }];
        if n2 == 2 {
            2 * instance.distance(prev_v, u) - 2 * instance.distance(prev_v, v)
        } else {
            (instance.distance(prev_v, u) + instance.distance(u, next_v)) - (instance.distance(
                prev_v,
                v,
            ) + instance.distance(v, next_v))
        }
    } else if n2 == 1 {
        let prev_u = cycle1[if pos1 == 0 {
            n1 - 1
        } else {
            pos1 - 1
        }];
        let next_u = cycle1[if pos1 + 1 == n1 {
            0
        } else {
            pos1 + 1
        }];
        if n1 == 2 {
            2 * instance.distance(prev_u, v) - 2 * instance.distance(prev_u, u)
        } else {
            (instance.distance(prev_u, v) + instance.distance(v, next_u)) - (instance.distance(
                prev_u,
                u,
            ) + instance.distance(u, next_u))
        }
    } else {
        let prev_u = cycle1[if pos1 == 0 {
            n1 - 1
        } else {
            pos1 - 1
        }];
        let next_u = cycle1[if pos1 + 1 == n1 {
            0
        } else {
            pos1 + 1
        }];
        let prev_v = cycle2[if pos2 == 0 {
            n2 - 1
        } else {
            pos2 - 1
        }];
        let next_v = cycle2[if pos2 + 1 == n2 {
            0
        } else {
            pos2 + 1
        }];

        let delta_c1: i64 = if n1 == 2 {
            2 * instance.distance(prev_u, v) - 2 * instance.distance(prev_u, u)
        } else {
            (instance.distance(prev_u, v) + instance.distance(v, next_u)) - (instance.distance(
                prev_u,
                u,
            ) + instance.distance(u, next_u))
        };

        let delta_c2: i64 = if n2 == 2 {
            2 * instance.distance(prev_v, u) - 2 * instance.distance(prev_v, v)
        } else {
            (instance.distance(prev_v, u) + instance.distance(u, next_v)) - (instance.distance(
                prev_v,
                v,
            ) + instance.distance(v, next_v))
        };

        delta_c1 + delta_c2
    };

    proof {
        let s = *solution;
        let inst = *instance;
        let nn = inst.n();
        let mv = Move::InterRouteExchange { v1: u, v2: v };
        lemma_find_in_valid(s, nn, CycleId::Cycle1, pos1 as int);
        lemma_find_in_valid(s, nn, CycleId::Cycle2, pos2 as int);
        assert(u != v);
        assert(apply_move_spec(mv, s).0 == s.cycle1@.update(pos1 as int, v));
        assert(apply_move_spec(mv, s).1 == s.cycle2@.update(pos2 as int, u));
        if n1 == 1 {
            lemma_cycle_update_singleton(inst, s.cycle1@, v);
        } else {
            lemma_cycle_update_at(inst, s.cycle1@, pos1 as int, v);
        }
        if n2 == 1 {
            lemma_cycle_update_singleton(inst, s.cycle2@, u);
        } else {
            lemma_cycle_update_at(inst, s.cycle2@, pos2 as int, u);
        }
    }

    Some(EvaluatedMove { move_type: Move::InterRouteExchange { v1: u, v2: v }, delta })
}

} // verus!
