//! The search engine: drives iterate-evaluate-apply cycles over the move
//! neighborhoods until a local optimum, under one of four selection
//! policies.

use vstd::prelude::*;

use rand::seq::SliceRandom;

use crate::cost::lemma_cycle_cost_bounds;
use crate::cost::pair_cost;
use crate::instance::Instance;
use crate::moves::inter_route::evaluate_inter_route_exchange;
use crate::moves::inter_route::inter_route_args_ok;
use crate::moves::intra_route::edge_exchange_args_ok;
use crate::moves::intra_route::evaluate_candidate_intra_route_edge_exchange;
use crate::moves::intra_route::evaluate_intra_route_3opt;
use crate::moves::intra_route::evaluate_intra_route_edge_exchange;
use crate::moves::intra_route::evaluate_intra_route_or_opt;
use crate::moves::intra_route::evaluate_intra_route_vertex_exchange;
use crate::moves::intra_route::or_opt_args_ok;
use crate::moves::intra_route::three_opt_choice;
use crate::moves::intra_route::vertex_exchange_args_ok;
use crate::moves::types::CycleId;
use crate::moves::types::EvaluatedMove;
use crate::moves::types::Move;
use crate::moves::types::apply_move_spec;
use crate::moves::types::or_opt_rearranged;
use crate::solution::Solution;
use crate::solution::check_edge_spec;
use crate::solution::cycle_of;
use crate::solution::find_node_spec;
use crate::MAX_DIMENSION;
use crate::MAX_DISTANCE;

verus! {

/// Selection policy of the engine.
#[derive(Debug, Clone, Copy, PartialEq, Eq, Structural)]
pub enum SearchVariant {
    Steepest,
    Greedy,
    CandidateSteepest(usize),
    MoveListSteepest,
}

/// Which intra-route move family the engine evaluates (inter-route
/// exchanges are always evaluated).
#[derive(Debug, Clone, Copy, PartialEq, Eq, Structural)]
pub enum NeighborhoodType {
    VertexExchange,
    EdgeExchange,
    ThreeOpt,
    OrOpt,
}

/// How a caller intends to produce the engine's starting tour pair.  The
/// construction itself is the caller's responsibility; the engine only
/// records the choice.
#[derive(Debug, Clone, Copy, PartialEq, Eq, Structural)]
pub enum InitialSolutionType {
    Random,
    Heuristic(HeuristicAlgorithm),
}

/// The constructive heuristic a caller may use for the starting tour pair.
#[derive(Debug, Clone, Copy, PartialEq, Eq, Structural)]
pub enum HeuristicAlgorithm {
    WeightedRegret,
}

/// Caller-supplied progress notification, invoked once per iteration and at
/// termination.  Used solely for observability: it must never influence
/// control flow and may be a no-op.
pub trait ProgressSink {
    fn notify(&mut self, message: String);
}

/// A progress sink that discards every message.
pub struct SilentProgress;

impl ProgressSink for SilentProgress {
    fn notify(&mut self, _message: String) {
    }
}

/// Exact signed change in total tour length that applying `m` to `s` would
/// cause.
pub open spec fn move_pair_delta(inst: Instance, s: Solution, m: Move) -> int {
    pair_cost(inst, apply_move_spec(m, s).0, apply_move_spec(m, s).1) - pair_cost(
        inst,
        s.cycle1@,
        s.cycle2@,
    )
}

/// An evaluated move whose recorded delta is strictly improving and exactly
/// the cost change its application to `s` would cause.
pub open spec fn improving_exact(inst: Instance, s: Solution, em: EvaluatedMove) -> bool {
    &&& em.delta < 0
    &&& em.delta as int == move_pair_delta(inst, s, em.move_type)
    &&& -(MAX_DIMENSION as int * MAX_DISTANCE as int) <= em.delta as int
}

/// The inter-route exchange move the evaluator emits for a position pair.
pub open spec fn inter_move_at(s: Solution, p1: int, p2: int) -> Move {
    Move::InterRouteExchange { v1: s.cycle1@[p1], v2: s.cycle2@[p2] }
}

/// The vertex-exchange move the evaluator emits for a position pair.
pub open spec fn vertex_move_at(s: Solution, cid: CycleId, p1: int, p2: int) -> Move {
    let cy = cycle_of(s, cid);
    let lo = if p1 < p2 { p1 } else { p2 };
    let hi = if p1 < p2 { p2 } else { p1 };
    Move::IntraRouteVertexExchange { v1: cy[lo], v2: cy[hi], cycle: cid }
}

/// The edge-exchange move the evaluator emits for a position pair.
pub open spec fn edge_move_at(s: Solution, cid: CycleId, p1: int, p2: int) -> Move {
    let cy = cycle_of(s, cid);
    let n = cy.len() as int;
    Move::IntraRouteEdgeExchange {
        a: cy[p1],
        b: cy[(p1 + 1) % n],
        c: cy[p2],
        d: cy[(p2 + 1) % n],
        cycle: cid,
    }
}

/// The three-opt triples the full scan enumerates: all three segments hold
/// at least two nodes.
pub open spec fn three_opt_scan_ok(cy: Seq<usize>, p1: int, p2: int, p3: int) -> bool {
    &&& cy.len() >= 6
    &&& 0 <= p1
    &&& p1 + 2 <= p2
    &&& p2 + 2 <= p3
    &&& p3 < cy.len()
}

/// No single move of the scanned full neighborhood reduces the cost of
/// `s`: the termination guarantee of the steepest policy.  (The three-opt
/// scan enumerates the triples whose three segments all hold at least two
/// nodes.)
pub open spec fn steepest_local_optimum(inst: Instance, s: Solution, nt: NeighborhoodType) -> bool {
    &&& forall|p1: int, p2: int|
        inter_route_args_ok(s, p1, p2) ==> move_pair_delta(inst, s, #[trigger] inter_move_at(s, p1, p2))
            >= 0
    &&& nt == NeighborhoodType::VertexExchange ==> forall|cid: CycleId, p1: int, p2: int|
        vertex_exchange_args_ok(cycle_of(s, cid), p1, p2) ==> move_pair_delta(
            inst,
            s,
            #[trigger] vertex_move_at(s, cid, p1, p2),
        ) >= 0
    &&& nt == NeighborhoodType::EdgeExchange ==> forall|cid: CycleId, p1: int, p2: int|
        edge_exchange_args_ok(cycle_of(s, cid), p1, p2) ==> move_pair_delta(
            inst,
            s,
            #[trigger] edge_move_at(s, cid, p1, p2),
        ) >= 0
    &&& nt == NeighborhoodType::ThreeOpt ==> forall|cid: CycleId, p1: int, p2: int, p3: int|
        three_opt_scan_ok(cycle_of(s, cid), p1, p2, p3) ==> (#[trigger] three_opt_choice(
            inst,
            cycle_of(s, cid),
            p1,
            p2,
            p3,
        )).0 >= 0
    &&& nt == NeighborhoodType::OrOpt ==> forall|cid: CycleId, from: int, len: int, to: int|
        or_opt_args_ok(cycle_of(s, cid), from, len, to) ==> crate::cost::cycle_cost(
            inst,
            #[trigger] or_opt_rearranged(cycle_of(s, cid), from, len, to),
        ) - crate::cost::cycle_cost(inst, cycle_of(s, cid)) >= 0
}


/// Whether the candidate move pair `(na, nb)` — a node and one of its near
/// neighbors — admits no improving move in the configured candidate
/// neighborhood of `s`.
pub open spec fn candidate_pair_nonimproving(
    inst: Instance,
    s: Solution,
    nt: NeighborhoodType,
    na: usize,
    nb: usize,
) -> bool {
    match (find_node_spec(s, na), find_node_spec(s, nb)) {
        (Some((ca, pa)), Some((cb, pb))) => if ca != cb {
            let p1 = if ca == CycleId::Cycle1 { pa } else { pb };
            let p2 = if ca == CycleId::Cycle1 { pb } else { pa };
            inter_route_args_ok(s, p1, p2) ==> move_pair_delta(inst, s, inter_move_at(s, p1, p2))
                >= 0
        } else {
            match nt {
                NeighborhoodType::EdgeExchange => edge_exchange_args_ok(cycle_of(s, ca), pa, pb)
                    ==> move_pair_delta(inst, s, edge_move_at(s, ca, pa, pb)) >= 0,
                NeighborhoodType::VertexExchange => vertex_exchange_args_ok(
                    cycle_of(s, ca),
                    pa,
                    pb,
                ) ==> move_pair_delta(inst, s, vertex_move_at(s, ca, pa, pb)) >= 0,
                NeighborhoodType::ThreeOpt => true,
                NeighborhoodType::OrOpt => true,
            }
        },
        _ => true,
    }
}

/// No move of the candidate neighborhood — moves whose endpoints are among
/// each node's precomputed nearest neighbors — reduces the cost of `s`: the
/// termination guarantee of the candidate-bounded steepest policy.
pub open spec fn candidate_local_optimum(inst: Instance, s: Solution, nt: NeighborhoodType)
    -> bool {
    forall|na: int, t: int|
        0 <= na < inst.n() && 0 <= t < inst.nearest_neighbors@[na]@.len()
            ==> #[trigger] candidate_pair_nonimproving(
            inst,
            s,
            nt,
            na as usize,
            inst.nearest_neighbors@[na]@[t],
        )
}

/// Whether a move belongs to the neighborhood a full scan enumerates:
/// inter-route exchanges always, intra-route moves only from the configured
/// family.
pub open spec fn in_configured_family(nt: NeighborhoodType, m: Move) -> bool {
    match m {
        Move::InterRouteExchange { .. } => true,
        Move::IntraRouteVertexExchange { .. } => nt == NeighborhoodType::VertexExchange,
        Move::IntraRouteEdgeExchange { .. } => nt == NeighborhoodType::EdgeExchange,
        Move::IntraRoute3Opt { .. } => nt == NeighborhoodType::ThreeOpt,
        Move::IntraRouteOrOpt { .. } => nt == NeighborhoodType::OrOpt,
    }
}

/// Whether a move belongs to the candidate neighborhood: inter-route
/// exchanges, or the configured family if that is vertex or edge exchange;
/// never three-opt or or-opt.
pub open spec fn in_candidate_family(nt: NeighborhoodType, m: Move) -> bool {
    match m {
        Move::InterRouteExchange { .. } => true,
        Move::IntraRouteVertexExchange { .. } => nt == NeighborhoodType::VertexExchange,
        Move::IntraRouteEdgeExchange { .. } => nt == NeighborhoodType::EdgeExchange,
        Move::IntraRoute3Opt { .. } => false,
        Move::IntraRouteOrOpt { .. } => false,
    }
}

/// Whether an exchange-family move joins exactly the node pair `{x, y}`:
/// the swapped node ids, or the tails of the two removed edges.
pub open spec fn move_joins(m: Move, x: usize, y: usize) -> bool {
    match m {
        Move::InterRouteExchange { v1, v2 } => (v1 == x && v2 == y) || (v1 == y && v2 == x),
        Move::IntraRouteVertexExchange { v1, v2, .. } => (v1 == x && v2 == y) || (v1 == y && v2
            == x),
        Move::IntraRouteEdgeExchange { a, c, .. } => (a == x && c == y) || (a == y && c == x),
        Move::IntraRoute3Opt { .. } => false,
        Move::IntraRouteOrOpt { .. } => false,
    }
}

/// The unordered node pair an exchange-family move joins, smaller id
/// first.  (Meaningless for the segment families, which carry positions.)
pub open spec fn joined_pair(m: Move) -> (usize, usize) {
    match m {
        Move::InterRouteExchange { v1, v2 } => if v1 < v2 { (v1, v2) } else { (v2, v1) },
        Move::IntraRouteVertexExchange { v1, v2, .. } => if v1 < v2 { (v1, v2) } else { (v2, v1) },
        Move::IntraRouteEdgeExchange { a, c, .. } => if a < c { (a, c) } else { (c, a) },
        Move::IntraRoute3Opt { .. } => (0usize, 0usize),
        Move::IntraRouteOrOpt { .. } => (0usize, 0usize),
    }
}

/// Whether an exchange-family move names at least one node of `nodes`.
pub open spec fn move_touches(m: Move, nodes: Seq<usize>) -> bool {
    match m {
        Move::InterRouteExchange { v1, v2 } => nodes.contains(v1) || nodes.contains(v2),
        Move::IntraRouteVertexExchange { v1, v2, .. } => nodes.contains(v1) || nodes.contains(v2),
        Move::IntraRouteEdgeExchange { a, b, c, d, .. } => nodes.contains(a) || nodes.contains(b)
            || nodes.contains(c) || nodes.contains(d),
        Move::IntraRoute3Opt { .. } => false,
        Move::IntraRouteOrOpt { .. } => false,
    }
}

/// A near-neighbor pair whose move improves refutes candidate local
/// optimality.
proof fn lemma_pair_refutes_candidate_optimum(
    inst: Instance,
    s: Solution,
    nt: NeighborhoodType,
    na: int,
    t: int,
)
    requires
        0 <= na < inst.n(),
        0 <= t < inst.nearest_neighbors@[na]@.len(),
        !candidate_pair_nonimproving(inst, s, nt, na as usize, inst.nearest_neighbors@[na]@[t]),
    ensures
        !candidate_local_optimum(inst, s, nt),
{
    if candidate_local_optimum(inst, s, nt) {
        assert(candidate_pair_nonimproving(
            inst,
            s,
            nt,
            na as usize,
            inst.nearest_neighbors@[na]@[t],
        ));
    }
}


/// The smallest recorded delta in a move list; zero for an empty list (the
/// do-nothing baseline).
pub open spec fn delta_floor(moves: Seq<EvaluatedMove>) -> int
    decreases moves.len(),
{
    if moves.len() == 0 {
        0
    } else {
        let rest = delta_floor(moves.drop_last());
        let last = moves.last().delta as int;
        if last < rest {
            last
        } else {
            rest
        }
    }
}

/// Appending an entry lowers the floor to that entry's delta if it is
/// smaller, and otherwise keeps it.
pub proof fn lemma_delta_floor_push(moves: Seq<EvaluatedMove>, m: EvaluatedMove)
    ensures
        delta_floor(moves.push(m)) == if (m.delta as int) < delta_floor(moves) {
            m.delta as int
        } else {
            delta_floor(moves)
        },
{
    assert(moves.push(m).drop_last() =~= moves);
    assert(moves.push(m).last() == m);
}

/// A non-empty list of strictly improving entries attains its floor.
pub proof fn lemma_delta_floor_attained(moves: Seq<EvaluatedMove>)
    requires
        moves.len() > 0,
        forall|i: int| 0 <= i < moves.len() ==> (#[trigger] moves[i]).delta < 0,
    ensures
        exists|i: int|
            0 <= i < moves.len() && (#[trigger] moves[i]).delta as int == delta_floor(moves),
    decreases moves.len(),
{
    let last = moves.last().delta as int;
    if moves.len() == 1 || last < delta_floor(moves.drop_last()) {
        assert(moves[moves.len() - 1].delta as int == delta_floor(moves));
    } else {
        assert forall|i: int|
            0 <= i < moves.drop_last().len() implies (#[trigger] moves.drop_last()[i]).delta
            < 0 by {
            assert(moves.drop_last()[i] == moves[i]);
        }
        lemma_delta_floor_attained(moves.drop_last());
        let j = choose|j: int|
            0 <= j < moves.drop_last().len() && (#[trigger] moves.drop_last()[j]).delta as int
                == delta_floor(moves.drop_last());
        assert(moves[j] == moves.drop_last()[j]);
    }
}


/// The returned list attains the scanned neighborhood's minimum: every move
/// the full scan enumerates changes the cost by at least the smallest
/// recorded delta, and a non-empty list holds an entry with exactly that
/// delta.  (For an empty list the floor is the do-nothing baseline zero.)
pub open spec fn attains_neighborhood_minimum(
    inst: Instance,
    s: Solution,
    nt: NeighborhoodType,
    moves: Seq<EvaluatedMove>,
) -> bool {
    &&& forall|p1: int, p2: int|
        inter_route_args_ok(s, p1, p2) ==> move_pair_delta(
            inst,
            s,
            #[trigger] inter_move_at(s, p1, p2),
        ) >= delta_floor(moves)
    &&& nt == NeighborhoodType::VertexExchange ==> forall|cid: CycleId, p1: int, p2: int|
        vertex_exchange_args_ok(cycle_of(s, cid), p1, p2) ==> move_pair_delta(
            inst,
            s,
            #[trigger] vertex_move_at(s, cid, p1, p2),
        ) >= delta_floor(moves)
    &&& nt == NeighborhoodType::EdgeExchange ==> forall|cid: CycleId, p1: int, p2: int|
        edge_exchange_args_ok(cycle_of(s, cid), p1, p2) ==> move_pair_delta(
            inst,
            s,
            #[trigger] edge_move_at(s, cid, p1, p2),
        ) >= delta_floor(moves)
    &&& nt == NeighborhoodType::ThreeOpt ==> forall|cid: CycleId, p1: int, p2: int, p3: int|
        three_opt_scan_ok(cycle_of(s, cid), p1, p2, p3) ==> (#[trigger] three_opt_choice(
            inst,
            cycle_of(s, cid),
            p1,
            p2,
            p3,
        )).0 >= delta_floor(moves)
    &&& nt == NeighborhoodType::OrOpt ==> forall|cid: CycleId, from: int, len: int, to: int|
        or_opt_args_ok(cycle_of(s, cid), from, len, to) ==> crate::cost::cycle_cost(
            inst,
            #[trigger] or_opt_rearranged(cycle_of(s, cid), from, len, to),
        ) - crate::cost::cycle_cost(inst, cycle_of(s, cid)) >= delta_floor(moves)
    &&& moves.len() > 0 ==> exists|i: int|
        0 <= i < moves.len() && (#[trigger] moves[i]).delta as int == delta_floor(moves)
}

/// The set `r` holds `v` and, if `v` lies in a cycle of more than one
/// node, its current tour predecessor and successor.
pub open spec fn holds_node_and_tour_neighbors(s: Solution, v: usize, r: Seq<usize>) -> bool {
    &&& r.contains(v)
    &&& match find_node_spec(s, v) {
        Some((cid, pos)) => {
            let cy = cycle_of(s, cid);
            cy.len() >= 2 ==> r.contains(cy[if pos == 0 { cy.len() - 1 } else { pos - 1 }])
                && r.contains(cy[if pos + 1 == cy.len() { 0 } else { pos + 1 }])
        },
        None => true,
    }
}

/// Entries are ordered by non-decreasing delta.
pub open spec fn sorted_by_delta(s: Seq<EvaluatedMove>) -> bool {
    forall|i: int, j: int| 0 <= i < j < s.len() ==> s[i].delta <= s[j].delta
}

/// Swapping two entries of a sequence keeps its multiset of elements.
proof fn lemma_seq_swap_multiset<A>(s: Seq<A>, i: int, j: int)
    requires
        0 <= i < s.len(),
        0 <= j < s.len(),
    ensures
        s.update(i, s[j]).update(j, s[i]).to_multiset() == s.to_multiset(),
{
    broadcast use vstd::seq_lib::lemma_multiset_commutative;
    broadcast use vstd::multiset::group_multiset_axioms;

    if i == j {
        assert(s.update(i, s[j]).update(j, s[i]) =~= s);
    } else {
        let p = if i < j { i } else { j };
        let q = if i < j { j } else { i };
        let upd = s.update(i, s[j]).update(j, s[i]);
        assert(s =~= s.take(p) + seq![s[p]] + s.subrange(p + 1, q) + seq![s[q]] + s.skip(q + 1));
        assert(upd =~= s.take(p) + seq![s[q]] + s.subrange(p + 1, q) + seq![s[p]] + s.skip(q + 1));
        assert(upd.to_multiset() =~= s.to_multiset());
    }
}

/// Every element of a sequence with the same multiset as `a` occurs in `a`.
proof fn lemma_multiset_membership<A>(a: Seq<A>, b: Seq<A>)
    requires
        a.to_multiset() == b.to_multiset(),
    ensures
        forall|i: int| 0 <= i < b.len() ==> a.contains(#[trigger] b[i]),
{
    broadcast use vstd::multiset::group_multiset_axioms;

    a.to_multiset_ensures();
    b.to_multiset_ensures();
    assert forall|i: int| 0 <= i < b.len() implies a.contains(#[trigger] b[i]) by {
        assert(b.contains(b[i]));
        assert(b.to_multiset().count(b[i]) > 0);
    }
}

/// Sorts the worklist by non-decreasing delta (selection sort; the order of
/// equal-delta entries is not specified).
fn sort_moves(moves: &mut Vec<EvaluatedMove>)
    ensures
        final(moves)@.to_multiset() == old(moves)@.to_multiset(),
        sorted_by_delta(final(moves)@),
        final(moves)@.len() == old(moves)@.len(),
{
    let n = moves.len();
    let mut i: usize = 0;
    while i < n
        invariant
            i <= n,
            n == moves@.len(),
            moves@.to_multiset() == old(moves)@.to_multiset(),
            forall|a: int, b: int| 0 <= a < b < i ==> moves@[a].delta <= moves@[b].delta,
            forall|a: int, b: int|
                0 <= a < i && i <= b < n ==> moves@[a].delta <= moves@[b].delta,
        decreases n - i,
    {
        let mut min_idx = i;
        let mut j = i + 1;
        while j < n
            invariant
                i <= min_idx < j <= n,
                n == moves@.len(),
                forall|k: int| i <= k < j ==> moves@[min_idx as int].delta <= moves@[k].delta,
            decreases n - j,
        {
            if moves[j].delta < moves[min_idx].delta {
                min_idx = j;
            }
            j += 1;
        }
        let x = moves[i];
        let y = moves[min_idx];
        let ghost pre = moves@;
        moves[i] = y;
        moves[min_idx] = x;
        proof {
            assert(moves@ =~= pre.update(i as int, pre[min_idx as int]).update(
                min_idx as int,
                pre[i as int],
            ));
            lemma_seq_swap_multiset(pre, i as int, min_idx as int);
        }
        i += 1;
    }
}


/// A delta that is exact for a valid solution can undercut the current cost
/// by at most the largest possible total tour length.
proof fn lemma_delta_lower_bound(inst: Instance, s: Solution, m: Move)
    requires
        inst.wf(),
        s.valid(inst.n()),
    ensures
        move_pair_delta(inst, s, m) >= -(MAX_DIMENSION as int * MAX_DISTANCE as int),
{
    let p = apply_move_spec(m, s);
    crate::moves::types::lemma_apply_preserves_partition(m, s, inst.n());
    let all_new = p.0 + p.1;
    assert forall|i: int| 0 <= i < p.0.len() implies (#[trigger] p.0[i]) < inst.n() by {
        assert(all_new[i] == p.0[i]);
    }
    assert forall|i: int| 0 <= i < p.1.len() implies (#[trigger] p.1[i]) < inst.n() by {
        assert(all_new[p.0.len() + i] == p.1[i]);
    }
    lemma_cycle_cost_bounds(inst, p.0);
    lemma_cycle_cost_bounds(inst, p.1);
    s.lemma_valid_in_range(inst.n());
    lemma_cycle_cost_bounds(inst, s.cycle1@);
    lemma_cycle_cost_bounds(inst, s.cycle2@);
    assert(s.cycle1@.len() * MAX_DISTANCE as int + s.cycle2@.len() * MAX_DISTANCE as int
        <= MAX_DIMENSION as int * MAX_DISTANCE as int) by (nonlinear_arith)
        requires
            s.cycle1@.len() + s.cycle2@.len() <= MAX_DIMENSION as int,
            MAX_DISTANCE as int >= 0,
    ;
}

/// Relies on rand's `SliceRandom::shuffle`: it permutes the elements of the
/// slice in place, so the multiset of entries is unchanged.
#[verifier::external_body]
fn shuffle_moves(moves: &mut Vec<EvaluatedMove>)
    ensures
        final(moves)@.to_multiset() == old(moves)@.to_multiset(),
{
    moves.shuffle(&mut rand::thread_rng());
}

/// The text `format!` renders for the candidate policy's name: it depends
/// on the arguments alone.
pub uninterp spec fn candidate_name_text(
    k: int,
    neighborhood: Seq<char>,
    init: Seq<char>,
    extra: Seq<char>,
) -> Seq<char>;

/// The text `format!` renders for the other policies' names: it depends on
/// the arguments alone.
pub uninterp spec fn plain_name_text(
    kind: Seq<char>,
    neighborhood: Seq<char>,
    init: Seq<char>,
    extra: Seq<char>,
) -> Seq<char>;

/// Relies on std's `format!` to render the candidate policy's descriptive
/// name, including its neighbor count; the result depends on the arguments
/// alone.
#[verifier::external_body]
fn format_candidate_name(k: usize, neighborhood: &str, init: &str, extra: &str) -> (r: String)
    ensures
        r@ == candidate_name_text(k as int, neighborhood@, init@, extra@),
{
    format!("Local Search (Candidate k={}, {}, Init: {}{})", k, neighborhood, init, extra)
}

/// Relies on std's `format!` to render the engine's descriptive name; the
/// result depends on the arguments alone.
#[verifier::external_body]
fn format_plain_name(kind: &str, neighborhood: &str, init: &str, extra: &str) -> (r: String)
    ensures
        r@ == plain_name_text(kind@, neighborhood@, init@, extra@),
{
    format!("Local Search ({}, {}, Init: {}{})", kind, neighborhood, init, extra)
}

/// The descriptive name `new` builds: a pure function of the four
/// configuration arguments.
pub open spec fn engine_name(
    variant: SearchVariant,
    neighborhood: NeighborhoodType,
    init: InitialSolutionType,
    verify_delta: bool,
) -> Seq<char> {
    let neighborhood_text: Seq<char> = match neighborhood {
        NeighborhoodType::VertexExchange => "VertexExchange"@,
        NeighborhoodType::EdgeExchange => "EdgeExchange"@,
        NeighborhoodType::ThreeOpt => "ThreeOpt"@,
        NeighborhoodType::OrOpt => "OrOpt"@,
    };
    let extra_text: Seq<char> = if verify_delta && (neighborhood == NeighborhoodType::OrOpt
        || neighborhood == NeighborhoodType::ThreeOpt) {
        ", VerifyDelta"@
    } else {
        ""@
    };
    let init_text: Seq<char> = match init {
        InitialSolutionType::Random => "Random"@,
        InitialSolutionType::Heuristic(HeuristicAlgorithm::WeightedRegret) => {
            "Heuristic(WeightedRegret)"@
        },
    };
    match variant {
        SearchVariant::Steepest => plain_name_text(
            "Steepest"@,
            neighborhood_text,
            init_text,
            extra_text,
        ),
        SearchVariant::Greedy => plain_name_text(
            "Greedy"@,
            neighborhood_text,
            init_text,
            extra_text,
        ),
        SearchVariant::CandidateSteepest(k) => candidate_name_text(
            k as int,
            neighborhood_text,
            init_text,
            extra_text,
        ),
        SearchVariant::MoveListSteepest => plain_name_text(
            "MoveListSteepest"@,
            neighborhood_text,
            init_text,
            extra_text,
        ),
    }
}

/// Relies on std's `format!` to render one per-iteration progress message.
#[verifier::external_body]
fn format_iter_message(iteration: usize, cost: i64) -> String {
    format!("[Iter: {}] Cost: {}", iteration, cost)
}

/// Relies on std's `format!` to render the termination message.
#[verifier::external_body]
fn format_final_message(reason: &str, cost: i64) -> String {
    format!("[Finished] {} Final Cost: {}", reason, cost)
}

/// Relies on std's `format!` to render the cost-divergence diagnostic: the
/// incremental tracker disagreed with the recomputed true cost and was
/// overridden.
#[verifier::external_body]
fn format_divergence_message(incremental: i64, recomputed: i64) -> String {
    format!(
        "[WARN] Cost mismatch after apply! Incremental cost: {}, Real cost: {}",
        incremental,
        recomputed,
    )
}

/// Whether the worklist already holds a structurally identical move.
fn contains_move(moves: &Vec<EvaluatedMove>, m: &Move) -> (r: bool)
    ensures
        r == exists|i: int| 0 <= i < moves@.len() && (#[trigger] moves@[i]).move_type == *m,
{
    let n = moves.len();
    let mut i: usize = 0;
    while i < n
        invariant
            i <= n,
            n == moves@.len(),
            forall|k: int| 0 <= k < i ==> (#[trigger] moves@[k]).move_type != *m,
        decreases n - i,
    {
        if moves[i].move_type == *m {
            return true;
        }
        i += 1;
    }
    false
}

/// Index of the first entry with the smallest delta.
fn pick_best(moves: &Vec<EvaluatedMove>) -> (r: usize)
    requires
        moves@.len() > 0,
    ensures
        r < moves@.len(),
        forall|k: int| 0 <= k < moves@.len() ==> moves@[r as int].delta <= (#[trigger] moves@[k]).delta,
{
    let n = moves.len();
    let mut best: usize = 0;
    let mut i: usize = 1;
    while i < n
        invariant
            best < i <= n,
            n == moves@.len(),
            forall|k: int| 0 <= k < i ==> moves@[best as int].delta <= (#[trigger] moves@[k]).delta,
        decreases n - i,
    {
        if moves[i].delta < moves[best].delta {
            best = i;
        }
        i += 1;
    }
    best
}

/// The local-search engine: a selection policy, a move neighborhood, the
/// caller's choice of starting-solution construction, the optional
/// computational re-verification of three-opt and or-opt deltas, and a
/// descriptive name.
#[derive(Debug, Clone)]
pub struct LocalSearch {
    pub variant: SearchVariant,
    pub neighborhood: NeighborhoodType,
    pub initial_solution_type: InitialSolutionType,
    pub verify_delta_computationally: bool,
    pub name_str: String,
}

/// The local-optimality notion the configured policy terminates with: the
/// candidate neighborhood for candidate-bounded steepest, the scanned full
/// neighborhood otherwise.
pub open spec fn active_optimum(ls: LocalSearch, inst: Instance, s: Solution) -> bool {
    match ls.variant {
        SearchVariant::CandidateSteepest(_) => candidate_local_optimum(inst, s, ls.neighborhood),
        _ => steepest_local_optimum(inst, s, ls.neighborhood),
    }
}

impl LocalSearch {
    /// Builds an engine configuration and its descriptive name.
    pub fn new(
        variant: SearchVariant,
        neighborhood: NeighborhoodType,
        initial_solution_type: InitialSolutionType,
        verify_delta_computationally: bool,
    ) -> (r: LocalSearch)
        ensures
            r.variant == variant,
            r.neighborhood == neighborhood,
            r.initial_solution_type == initial_solution_type,
            r.verify_delta_computationally == verify_delta_computationally,
            r.name_str@ == engine_name(
                variant,
                neighborhood,
                initial_solution_type,
                verify_delta_computationally,
            ),
    {
        let neighborhood_str = match neighborhood {
            NeighborhoodType::VertexExchange => "VertexExchange",
            NeighborhoodType::EdgeExchange => "EdgeExchange",
            NeighborhoodType::ThreeOpt => "ThreeOpt",
            NeighborhoodType::OrOpt => "OrOpt",
        };
        let extra = if verify_delta_computationally && (matches!(
            neighborhood,
            NeighborhoodType::OrOpt,
        ) || matches!(neighborhood, NeighborhoodType::ThreeOpt)) {
            ", VerifyDelta"
        } else {
            ""
        };
        let init_str = match initial_solution_type {
            InitialSolutionType::Random => "Random",
            InitialSolutionType::Heuristic(HeuristicAlgorithm::WeightedRegret) => {
                "Heuristic(WeightedRegret)"
            },
        };
        let name_str = match variant {
            SearchVariant::Steepest => format_plain_name("Steepest", neighborhood_str, init_str, extra),
            SearchVariant::Greedy => format_plain_name("Greedy", neighborhood_str, init_str, extra),
            SearchVariant::CandidateSteepest(k) => format_candidate_name(
                k,
                neighborhood_str,
                init_str,
                extra,
            ),
            SearchVariant::MoveListSteepest => format_plain_name(
                "MoveListSteepest",
                neighborhood_str,
                init_str,
                extra,
            ),
        };
        LocalSearch {
            variant,
            neighborhood,
            initial_solution_type,
            verify_delta_computationally,
            name_str,
        }
    }

    /// The engine's descriptive name.
    pub fn name(&self) -> &str {
        self.name_str.as_str()
    }

    /// The tour predecessor and successor of a node, if it lies in a cycle
    /// of more than one node.
    fn get_neighbors(&self, solution: &Solution, node: usize) -> (r: (Option<usize>, Option<usize>))
        ensures
            ({
                match find_node_spec(*solution, node) {
                    Some((cid, pos)) => {
                        let cy = cycle_of(*solution, cid);
                        if cy.len() <= 1 {
                            r == (None::<usize>, None::<usize>)
                        } else {
                            r == (
                                Some(cy[if pos == 0 { cy.len() - 1 } else { pos - 1 }]),
                                Some(cy[if pos + 1 == cy.len() { 0 } else { pos + 1 }]),
                            )
                        }
                    },
                    None => r == (None::<usize>, None::<usize>),
                }
            }),
    {
        if let Some((cycle_id, pos)) = solution.find_node(node) {
            let cycle = solution.get_cycle(cycle_id);
            let n = cycle.len();
            if n <= 1 {
                (None, None)
            } else {
                let pred_pos = if pos == 0 {
                    n - 1
                } else {
                    pos - 1
                };
                let succ_pos = if pos + 1 == n {
                    0
                } else {
                    pos + 1
                };
                (Some(cycle[pred_pos]), Some(cycle[succ_pos]))
            }
        } else {
            (None, None)
        }
    }
}

/// What `is_move_valid` decides: whether a move's structural preconditions
/// still hold in the present solution.
pub open spec fn move_valid_spec(s: Solution, m: Move) -> bool {
    match m {
        Move::InterRouteExchange { v1, v2 } => match (
            find_node_spec(s, v1),
            find_node_spec(s, v2),
        ) {
            (Some((c1, _p1)), Some((c2, _p2))) => c1 != c2,
            _ => false,
        },
        Move::IntraRouteVertexExchange { v1, v2, cycle } => match (
            find_node_spec(s, v1),
            find_node_spec(s, v2),
        ) {
            (Some((c1, _p1)), Some((c2, _p2))) => c1 == cycle && c2 == cycle,
            _ => false,
        },
        Move::IntraRouteEdgeExchange { a, b, c, d, cycle } => check_edge_spec(
            cycle_of(s, cycle),
            a,
            b,
        ) == Some(1i8) && check_edge_spec(cycle_of(s, cycle), c, d) == Some(1i8),
        Move::IntraRoute3Opt { cycle, .. } => cycle_of(s, cycle).len() >= 6,
        Move::IntraRouteOrOpt { cycle, .. } => cycle_of(s, cycle).len() >= 4,
    }
}

impl LocalSearch {
    /// Re-validates a worklist entry's structural preconditions against the
    /// present solution; cached entries outlive the tours they were
    /// evaluated on, and invalidation is conservative, not exhaustive.
    fn is_move_valid(&self, solution: &Solution, move_type: &Move) -> (r: bool)
        ensures
            r == move_valid_spec(*solution, *move_type),
    {
        match move_type {
            Move::InterRouteExchange { v1, v2 } => {
                let info1 = solution.find_node(*v1);
                let info2 = solution.find_node(*v2);
                match (info1, info2) {
                    (Some((c1, _)), Some((c2, _))) => c1 != c2,
                    _ => false,
                }
            },
            Move::IntraRouteVertexExchange { v1, v2, cycle } => {
                let info1 = solution.find_node(*v1);
                let info2 = solution.find_node(*v2);
                match (info1, info2) {
                    (Some((c1, _)), Some((c2, _))) => c1 == *cycle && c2 == *cycle,
                    _ => false,
                }
            },
            Move::IntraRouteEdgeExchange { a, b, c, d, cycle } => {
                let edge1_check = solution.check_edge_in_cycle(solution.get_cycle(*cycle), *a, *b);
                let edge2_check = solution.check_edge_in_cycle(solution.get_cycle(*cycle), *c, *d);
                edge1_check == Some(1) && edge2_check == Some(1)
            },
            Move::IntraRoute3Opt { cycle, .. } => solution.get_cycle(*cycle).len() >= 6,
            Move::IntraRouteOrOpt { cycle, .. } => solution.get_cycle(*cycle).len() >= 4,
        }
    }

    /// The nodes whose incident tour edges an applied move may have changed:
    /// the move's endpoints and their current tour neighbors (for the
    /// segment-based families, every node of the touched span).
    fn identify_affected_nodes(&self, applied_move: &Move, solution: &Solution) -> (r: Vec<usize>)
        ensures
            r@.no_duplicates(),
            match *applied_move {
                Move::InterRouteExchange { v1, v2 } => holds_node_and_tour_neighbors(
                    *solution,
                    v1,
                    r@,
                ) && holds_node_and_tour_neighbors(*solution, v2, r@),
                Move::IntraRouteVertexExchange { v1, v2, .. } => holds_node_and_tour_neighbors(
                    *solution,
                    v1,
                    r@,
                ) && holds_node_and_tour_neighbors(*solution, v2, r@),
                Move::IntraRouteEdgeExchange { a, b, c, d, .. } => holds_node_and_tour_neighbors(
                    *solution,
                    a,
                    r@,
                ) && holds_node_and_tour_neighbors(*solution, b, r@)
                    && holds_node_and_tour_neighbors(*solution, c, r@)
                    && holds_node_and_tour_neighbors(*solution, d, r@),
                Move::IntraRoute3Opt { pos1, pos3, cycle, .. } => {
                    let cy = cycle_of(*solution, cycle);
                    forall|i: int|
                        pos1 <= i <= pos3 && 0 <= i < cy.len() ==> r@.contains(#[trigger] cy[i])
                },
                Move::IntraRouteOrOpt { from_pos, chain_length, to_pos, cycle } => {
                    let cy = cycle_of(*solution, cycle);
                    &&& forall|i: int|
                        0 <= i < chain_length && from_pos + i < cy.len() ==> r@.contains(
                            #[trigger] cy[from_pos + i],
                        )
                    &&& to_pos < cy.len() ==> r@.contains(cy[to_pos as int])
                },
            },
    {
        let mut affected: Vec<usize> = Vec::new();
        match applied_move {
            Move::InterRouteExchange { v1, v2 } => {
                let ghost s0 = *solution;
                self.add_node_and_neighbors(*v1, solution, &mut affected);
                let ghost a1 = affected@;
                self.add_node_and_neighbors(*v2, solution, &mut affected);
                proof {
                    lemma_holds_neighbors_grows(s0, *v1, a1, affected@);
                }
            },
            Move::IntraRouteVertexExchange { v1, v2, .. } => {
                let ghost s0 = *solution;
                self.add_node_and_neighbors(*v1, solution, &mut affected);
                let ghost a1 = affected@;
                self.add_node_and_neighbors(*v2, solution, &mut affected);
                proof {
                    lemma_holds_neighbors_grows(s0, *v1, a1, affected@);
                }
            },
            Move::IntraRouteEdgeExchange { a, b, c, d, .. } => {
                let ghost s0 = *solution;
                self.add_node_and_neighbors(*a, solution, &mut affected);
                let ghost a1 = affected@;
                self.add_node_and_neighbors(*b, solution, &mut affected);
                let ghost a2 = affected@;
                self.add_node_and_neighbors(*c, solution, &mut affected);
                let ghost a3 = affected@;
                self.add_node_and_neighbors(*d, solution, &mut affected);
                proof {
                    lemma_holds_neighbors_grows(s0, *c, a3, affected@);
                    lemma_holds_neighbors_grows(s0, *b, a2, a3);
                    lemma_holds_neighbors_grows(s0, *b, a3, affected@);
                    lemma_holds_neighbors_grows(s0, *a, a1, a2);
                    lemma_holds_neighbors_grows(s0, *a, a2, a3);
                    lemma_holds_neighbors_grows(s0, *a, a3, affected@);
                }
            },
            Move::IntraRoute3Opt { pos1, pos3, cycle, .. } => {
                let cycle_vec = solution.get_cycle(*cycle);
                let len = cycle_vec.len();
                let ghost cy = cycle_of(*solution, *cycle);
                let mut i: usize = 0;
                while i < len
                    invariant
                        i <= len,
                        len == cy.len(),
                        cy == cycle_of(*solution, *cycle),
                        cycle_vec@ == cy,
                        affected@.no_duplicates(),
                        forall|j: int|
                            *pos1 <= j < i && j <= *pos3 ==> affected@.contains(#[trigger] cy[j]),
                    decreases len - i,
                {
                    if i >= *pos1 && i <= *pos3 {
                        push_if_absent(&mut affected, cycle_vec[i]);
                    }
                    i += 1;
                }
            },
            Move::IntraRouteOrOpt { from_pos, chain_length, to_pos, cycle } => {
                let cycle_vec = solution.get_cycle(*cycle);
                let len = cycle_vec.len();
                let ghost cy = cycle_of(*solution, *cycle);
                let mut i: usize = 0;
                while i < *chain_length
                    invariant
                        len == cy.len(),
                        cy == cycle_of(*solution, *cycle),
                        cycle_vec@ == cy,
                        affected@.no_duplicates(),
                        forall|j: int|
                            0 <= j < i && *from_pos + j < len ==> affected@.contains(
                                #[trigger] cy[*from_pos + j],
                            ),
                    decreases *chain_length - i,
                {
                    if *from_pos <= len && i < len - *from_pos {
                        push_if_absent(&mut affected, cycle_vec[*from_pos + i]);
                    }
                    i += 1;
                }
                if *to_pos < len {
                    push_if_absent(&mut affected, cycle_vec[*to_pos]);
                }
            },
        }
        affected
    }

    /// Adds a node and its current tour neighbors to the affected set.
    fn add_node_and_neighbors(&self, node: usize, solution: &Solution, affected: &mut Vec<usize>)
        requires
            old(affected)@.no_duplicates(),
        ensures
            final(affected)@.no_duplicates(),
            holds_node_and_tour_neighbors(*solution, node, final(affected)@),
            forall|x: usize| old(affected)@.contains(x) ==> final(affected)@.contains(x),
    {
        push_if_absent(affected, node);
        let (pred, succ) = self.get_neighbors(solution, node);
        if let (Some(p), Some(q)) = (pred, succ) {
            push_if_absent(affected, p);
            push_if_absent(affected, q);
        }
    }

    /// Whether a cached move touches any of the affected nodes (the
    /// segment-based families are invalidated wholesale).
    fn move_involves_nodes(&self, move_type: &Move, affected_nodes: &Vec<usize>) -> (r: bool)
        ensures
            affected_nodes@.len() == 0 ==> r == false,
            r == (affected_nodes@.len() > 0 && match *move_type {
                Move::InterRouteExchange { v1, v2 } => affected_nodes@.contains(v1)
                    || affected_nodes@.contains(v2),
                Move::IntraRouteVertexExchange { v1, v2, .. } => affected_nodes@.contains(v1)
                    || affected_nodes@.contains(v2),
                Move::IntraRouteEdgeExchange { a, b, c, d, .. } => affected_nodes@.contains(a)
                    || affected_nodes@.contains(b) || affected_nodes@.contains(c)
                    || affected_nodes@.contains(d),
                Move::IntraRoute3Opt { .. } => true,
                Move::IntraRouteOrOpt { .. } => true,
            }),
    {
        if affected_nodes.len() == 0 {
            return false;
        }
        match move_type {
            Move::InterRouteExchange { v1, v2 } => {
                contains_node(affected_nodes, *v1) || contains_node(affected_nodes, *v2)
            },
            Move::IntraRouteVertexExchange { v1, v2, .. } => {
                contains_node(affected_nodes, *v1) || contains_node(affected_nodes, *v2)
            },
            Move::IntraRouteEdgeExchange { a, b, c, d, .. } => {
                contains_node(affected_nodes, *a) || contains_node(affected_nodes, *b)
                    || contains_node(affected_nodes, *c) || contains_node(affected_nodes, *d)
            },
            Move::IntraRoute3Opt { .. } => true,
            Move::IntraRouteOrOpt { .. } => true,
        }
    }
}

/// Whether `nodes` holds `v`.
fn contains_node(nodes: &Vec<usize>, v: usize) -> (r: bool)
    ensures
        r == nodes@.contains(v),
{
    let n = nodes.len();
    let mut i: usize = 0;
    while i < n
        invariant
            i <= n,
            n == nodes@.len(),
            forall|k: int| 0 <= k < i ==> nodes@[k] != v,
        decreases n - i,
    {
        if nodes[i] == v {
            return true;
        }
        i += 1;
    }
    false
}

/// Appends `v` unless it is already present, keeping the vector
/// duplicate-free.
fn push_if_absent(nodes: &mut Vec<usize>, v: usize)
    requires
        old(nodes)@.no_duplicates(),
    ensures
        final(nodes)@.no_duplicates(),
        final(nodes)@.contains(v),
        forall|x: usize| old(nodes)@.contains(x) ==> final(nodes)@.contains(x),
{
    if !contains_node(nodes, v) {
        nodes.push(v);
        proof {
            assert(nodes@.last() == v);
            assert forall|x: usize| old(nodes)@.contains(x) implies nodes@.contains(x) by {
                let i = choose|i: int| 0 <= i < old(nodes)@.len() && old(nodes)@[i] == x;
                assert(nodes@[i] == x);
            }
        }
    }
}


/// Circular offset arithmetic: the offset from `p` to `q` around a cycle of
/// length `n`, and how the degenerate offsets correspond to coincidence and
/// adjacency.
proof fn lemma_circ_offset(n: int, p: int, q: int)
    requires
        2 <= n,
        0 <= p < n,
        0 <= q < n,
    ensures
        ({
            let off = (q - p + n) % n;
            &&& 0 <= off < n
            &&& (p + off) % n == q
            &&& (off == 0 <==> p == q)
            &&& (off == 1 <==> (p + 1) % n == q)
            &&& (off == n - 1 <==> (q + 1) % n == p)
        }),
{
    let off = (q - p + n) % n;
    assert(off == if q >= p { q - p } else { q - p + n }) by (nonlinear_arith)
        requires 0 <= p < n && 0 <= q < n && off == (q - p + n) % n;
    assert((p + off) % n == q) by (nonlinear_arith)
        requires 0 <= q < n && (p + off == q || p + off == q + n);
    assert((p + 1) % n == if p + 1 == n { 0int } else { p + 1 }) by (nonlinear_arith)
        requires 0 <= p < n;
    assert((q + 1) % n == if q + 1 == n { 0int } else { q + 1 }) by (nonlinear_arith)
        requires 0 <= q < n;
}

/// Scans every inter-route position pair and collects the improving
/// exchanges; if nothing was collected, no inter-route exchange improves.
fn scan_inter_moves(instance: &Instance, solution: &Solution, moves: &mut Vec<EvaluatedMove>)
    requires
        instance.wf(),
        solution.valid(instance.n()),
        forall|k: int|
            0 <= k < old(moves)@.len() ==> improving_exact(
                *instance,
                *solution,
                #[trigger] old(moves)@[k],
            ),
        forall|k: int, nt: NeighborhoodType|
            0 <= k < old(moves)@.len() ==> #[trigger] in_configured_family(
                nt,
                old(moves)@[k].move_type,
            ),
        delta_floor(old(moves)@) <= 0,
    ensures
        final(moves)@.len() >= old(moves)@.len(),
        delta_floor(final(moves)@) <= 0,
        forall|k: int|
            0 <= k < final(moves)@.len() ==> improving_exact(
                *instance,
                *solution,
                #[trigger] final(moves)@[k],
            ),
        forall|k: int, nt: NeighborhoodType|
            0 <= k < final(moves)@.len() ==> #[trigger] in_configured_family(
                nt,
                final(moves)@[k].move_type,
            ),
        delta_floor(final(moves)@) <= delta_floor(old(moves)@),
        forall|p1: int, p2: int|
            inter_route_args_ok(*solution, p1, p2) ==> move_pair_delta(
                *instance,
                *solution,
                #[trigger] inter_move_at(*solution, p1, p2),
            ) >= delta_floor(final(moves)@),
        final(moves)@.len() > old(moves)@.len() ==> exists|p1: int, p2: int|
            inter_route_args_ok(*solution, p1, p2) && move_pair_delta(
                *instance,
                *solution,
                #[trigger] inter_move_at(*solution, p1, p2),
            ) < 0,
{
    let n1 = solution.cycle1.len();
    let n2 = solution.cycle2.len();
    if n1 == 0 || n2 == 0 {
        return;
    }
    let mut pos1: usize = 0;
    while pos1 < n1
        invariant
            instance.wf(),
            solution.valid(instance.n()),
            pos1 <= n1,
            n1 == solution.cycle1@.len(),
            n2 == solution.cycle2@.len(),
            n1 > 0,
            n2 > 0,
            moves@.len() >= old(moves)@.len(),
            forall|k: int|
                0 <= k < moves@.len() ==> improving_exact(
                    *instance,
                    *solution,
                    #[trigger] moves@[k],
                ),
            forall|k: int, nt: NeighborhoodType|
                0 <= k < moves@.len() ==> #[trigger] in_configured_family(
                    nt,
                    moves@[k].move_type,
                ),
            delta_floor(moves@) <= delta_floor(old(moves)@),
            delta_floor(moves@) <= 0,
            forall|q1: int, q2: int|
                0 <= q1 < pos1 && inter_route_args_ok(*solution, q1, q2) ==> move_pair_delta(
                    *instance,
                    *solution,
                    #[trigger] inter_move_at(*solution, q1, q2),
                ) >= delta_floor(moves@),
            moves@.len() > old(moves)@.len() ==> exists|p1: int, p2: int|
                inter_route_args_ok(*solution, p1, p2) && move_pair_delta(
                    *instance,
                    *solution,
                    #[trigger] inter_move_at(*solution, p1, p2),
                ) < 0,
        decreases n1 - pos1,
    {
        let mut pos2: usize = 0;
        while pos2 < n2
            invariant
                instance.wf(),
                solution.valid(instance.n()),
                pos1 < n1,
                pos2 <= n2,
                n1 == solution.cycle1@.len(),
                n2 == solution.cycle2@.len(),
                moves@.len() >= old(moves)@.len(),
                forall|k: int|
                    0 <= k < moves@.len() ==> improving_exact(
                        *instance,
                        *solution,
                        #[trigger] moves@[k],
                    ),
                forall|k: int, nt: NeighborhoodType|
                    0 <= k < moves@.len() ==> #[trigger] in_configured_family(
                        nt,
                        moves@[k].move_type,
                    ),
                delta_floor(moves@) <= delta_floor(old(moves)@),
                delta_floor(moves@) <= 0,
                forall|q1: int, q2: int|
                    0 <= q1 < pos1 && inter_route_args_ok(*solution, q1, q2) ==> move_pair_delta(
                        *instance,
                        *solution,
                        #[trigger] inter_move_at(*solution, q1, q2),
                    ) >= delta_floor(moves@),
                forall|q2: int|
                    0 <= q2 < pos2 && inter_route_args_ok(*solution, pos1 as int, q2)
                        ==> move_pair_delta(
                        *instance,
                        *solution,
                        #[trigger] inter_move_at(*solution, pos1 as int, q2),
                    ) >= delta_floor(moves@),
                moves@.len() > old(moves)@.len() ==> exists|p1: int, p2: int|
                    inter_route_args_ok(*solution, p1, p2) && move_pair_delta(
                        *instance,
                        *solution,
                        #[trigger] inter_move_at(*solution, p1, p2),
                    ) < 0,
            decreases n2 - pos2,
        {
            if let Some(m) = evaluate_inter_route_exchange(solution, instance, pos1, pos2) {
                if m.delta < 0 {
                    proof {
                        lemma_delta_lower_bound(*instance, *solution, m.move_type);
                        assert(inter_route_args_ok(*solution, pos1 as int, pos2 as int)
                            && move_pair_delta(
                            *instance,
                            *solution,
                            inter_move_at(*solution, pos1 as int, pos2 as int),
                        ) < 0);
                        assert forall|nt2: NeighborhoodType| #[trigger] in_configured_family(
                            nt2,
                            m.move_type,
                        ) by {}
                    }
                    let ghost pre_push = moves@;
                    moves.push(m);
                    proof {
                        lemma_delta_floor_push(pre_push, m);
                        assert forall|k: int, nt2: NeighborhoodType|
                            0 <= k < moves@.len() implies #[trigger] in_configured_family(
                            nt2,
                            moves@[k].move_type,
                        ) by {
                            if k < pre_push.len() {
                                assert(moves@[k] == pre_push[k]);
                                assert(in_configured_family(nt2, pre_push[k].move_type));
                            } else {
                                assert(moves@[k] == m);
                            }
                        }
                    }
                }
            }
            pos2 += 1;
        }
        pos1 += 1;
    }
}

/// Scans every vertex-exchange position pair of one cycle; if nothing was
/// collected, no vertex exchange in that cycle improves.
fn scan_vertex_moves(
    instance: &Instance,
    solution: &Solution,
    cid: CycleId,
    moves: &mut Vec<EvaluatedMove>,
)
    requires
        instance.wf(),
        solution.valid(instance.n()),
        forall|k: int|
            0 <= k < old(moves)@.len() ==> improving_exact(
                *instance,
                *solution,
                #[trigger] old(moves)@[k],
            ),
        forall|k: int|
            0 <= k < old(moves)@.len() ==> in_configured_family(
                NeighborhoodType::VertexExchange,
                (#[trigger] old(moves)@[k]).move_type,
            ),
        delta_floor(old(moves)@) <= 0,
    ensures
        final(moves)@.len() >= old(moves)@.len(),
        delta_floor(final(moves)@) <= delta_floor(old(moves)@),
        delta_floor(final(moves)@) <= 0,
        forall|k: int|
            0 <= k < final(moves)@.len() ==> improving_exact(
                *instance,
                *solution,
                #[trigger] final(moves)@[k],
            ),
        forall|k: int|
            0 <= k < final(moves)@.len() ==> in_configured_family(
                NeighborhoodType::VertexExchange,
                (#[trigger] final(moves)@[k]).move_type,
            ),
        forall|p1: int, p2: int|
            vertex_exchange_args_ok(cycle_of(*solution, cid), p1, p2) ==> move_pair_delta(
                *instance,
                *solution,
                #[trigger] vertex_move_at(*solution, cid, p1, p2),
            ) >= delta_floor(final(moves)@),
        final(moves)@.len() > old(moves)@.len() ==> exists|p1: int, p2: int|
            vertex_exchange_args_ok(cycle_of(*solution, cid), p1, p2) && move_pair_delta(
                *instance,
                *solution,
                #[trigger] vertex_move_at(*solution, cid, p1, p2),
            ) < 0,
{
    let cycle_vec = solution.get_cycle(cid);
    let n = cycle_vec.len();
    if n < 2 {
        return;
    }
    let mut pos1: usize = 0;
    while pos1 < n
        invariant
            instance.wf(),
            solution.valid(instance.n()),
            pos1 <= n,
            n == cycle_of(*solution, cid).len(),
            n >= 2,
            moves@.len() >= old(moves)@.len(),
            forall|k: int|
                0 <= k < moves@.len() ==> improving_exact(
                    *instance,
                    *solution,
                    #[trigger] moves@[k],
                ),
            forall|k: int|
                0 <= k < moves@.len() ==> in_configured_family(
                    NeighborhoodType::VertexExchange,
                    (#[trigger] moves@[k]).move_type,
                ),
            delta_floor(moves@) <= delta_floor(old(moves)@),
            delta_floor(moves@) <= 0,
            forall|q1: int, q2: int|
                0 <= q1 < pos1 && q1 < q2 < n ==> move_pair_delta(
                    *instance,
                    *solution,
                    #[trigger] vertex_move_at(*solution, cid, q1, q2),
                ) >= delta_floor(moves@),
            moves@.len() > old(moves)@.len() ==> exists|p1: int, p2: int|
                vertex_exchange_args_ok(cycle_of(*solution, cid), p1, p2) && move_pair_delta(
                    *instance,
                    *solution,
                    #[trigger] vertex_move_at(*solution, cid, p1, p2),
                ) < 0,
        decreases n - pos1,
    {
        let mut pos2: usize = pos1 + 1;
        while pos2 < n
            invariant
                instance.wf(),
                solution.valid(instance.n()),
                pos1 < n,
                pos1 < pos2 <= n,
                n == cycle_of(*solution, cid).len(),
                n >= 2,
                moves@.len() >= old(moves)@.len(),
                forall|k: int|
                    0 <= k < moves@.len() ==> improving_exact(
                        *instance,
                        *solution,
                        #[trigger] moves@[k],
                    ),
                forall|k: int|
                    0 <= k < moves@.len() ==> in_configured_family(
                        NeighborhoodType::VertexExchange,
                        (#[trigger] moves@[k]).move_type,
                    ),
                delta_floor(moves@) <= delta_floor(old(moves)@),
                delta_floor(moves@) <= 0,
                forall|q1: int, q2: int|
                    0 <= q1 < pos1 && q1 < q2 < n ==> move_pair_delta(
                        *instance,
                        *solution,
                        #[trigger] vertex_move_at(*solution, cid, q1, q2),
                    ) >= delta_floor(moves@),
                forall|q2: int|
                    pos1 < q2 < pos2 ==> move_pair_delta(
                        *instance,
                        *solution,
                        #[trigger] vertex_move_at(*solution, cid, pos1 as int, q2),
                    ) >= delta_floor(moves@),
                moves@.len() > old(moves)@.len() ==> exists|p1: int, p2: int|
                    vertex_exchange_args_ok(cycle_of(*solution, cid), p1, p2) && move_pair_delta(
                        *instance,
                        *solution,
                        #[trigger] vertex_move_at(*solution, cid, p1, p2),
                    ) < 0,
            decreases n - pos2,
        {
            if let Some(m) = evaluate_intra_route_vertex_exchange(
                solution,
                instance,
                cid,
                pos1,
                pos2,
            ) {
                if m.delta < 0 {
                    proof {
                        lemma_delta_lower_bound(*instance, *solution, m.move_type);
                        assert(vertex_exchange_args_ok(
                            cycle_of(*solution, cid),
                            pos1 as int,
                            pos2 as int,
                        ) && move_pair_delta(
                            *instance,
                            *solution,
                            vertex_move_at(*solution, cid, pos1 as int, pos2 as int),
                        ) < 0);
                        lemma_delta_floor_push(moves@, m);
                    }
                    moves.push(m);
                }
            }
            pos2 += 1;
        }
        pos1 += 1;
    }
    proof {
        assert forall|p1: int, p2: int|
            vertex_exchange_args_ok(cycle_of(*solution, cid), p1, p2) implies move_pair_delta(
            *instance,
            *solution,
            #[trigger] vertex_move_at(*solution, cid, p1, p2),
        ) >= delta_floor(moves@) by {
            if p1 < p2 {
                assert(move_pair_delta(
                    *instance,
                    *solution,
                    vertex_move_at(*solution, cid, p1, p2),
                ) >= delta_floor(moves@));
            } else {
                assert(vertex_move_at(*solution, cid, p1, p2) == vertex_move_at(
                    *solution,
                    cid,
                    p2,
                    p1,
                ));
                assert(move_pair_delta(
                    *instance,
                    *solution,
                    vertex_move_at(*solution, cid, p2, p1),
                ) >= delta_floor(moves@));
            }
        }
    }
}

/// Scans every non-degenerate edge-exchange position pair of one cycle; if
/// nothing was collected, no edge exchange in that cycle improves.
fn scan_edge_moves(
    instance: &Instance,
    solution: &Solution,
    cid: CycleId,
    moves: &mut Vec<EvaluatedMove>,
)
    requires
        instance.wf(),
        solution.valid(instance.n()),
        forall|k: int|
            0 <= k < old(moves)@.len() ==> improving_exact(
                *instance,
                *solution,
                #[trigger] old(moves)@[k],
            ),
        forall|k: int|
            0 <= k < old(moves)@.len() ==> in_configured_family(
                NeighborhoodType::EdgeExchange,
                (#[trigger] old(moves)@[k]).move_type,
            ),
        delta_floor(old(moves)@) <= 0,
    ensures
        final(moves)@.len() >= old(moves)@.len(),
        delta_floor(final(moves)@) <= delta_floor(old(moves)@),
        delta_floor(final(moves)@) <= 0,
        forall|k: int|
            0 <= k < final(moves)@.len() ==> improving_exact(
                *instance,
                *solution,
                #[trigger] final(moves)@[k],
            ),
        forall|k: int|
            0 <= k < final(moves)@.len() ==> in_configured_family(
                NeighborhoodType::EdgeExchange,
                (#[trigger] final(moves)@[k]).move_type,
            ),
        forall|p1: int, p2: int|
            edge_exchange_args_ok(cycle_of(*solution, cid), p1, p2) ==> move_pair_delta(
                *instance,
                *solution,
                #[trigger] edge_move_at(*solution, cid, p1, p2),
            ) >= delta_floor(final(moves)@),
        final(moves)@.len() > old(moves)@.len() ==> exists|p1: int, p2: int|
            edge_exchange_args_ok(cycle_of(*solution, cid), p1, p2) && move_pair_delta(
                *instance,
                *solution,
                #[trigger] edge_move_at(*solution, cid, p1, p2),
            ) < 0,
{
    let cycle_vec = solution.get_cycle(cid);
    let n = cycle_vec.len();
    if n < 3 {
        return;
    }
    let mut pos1: usize = 0;
    while pos1 < n
        invariant
            instance.wf(),
            solution.valid(instance.n()),
            pos1 <= n,
            n == cycle_of(*solution, cid).len(),
            n >= 3,
            moves@.len() >= old(moves)@.len(),
            forall|k: int|
                0 <= k < moves@.len() ==> improving_exact(
                    *instance,
                    *solution,
                    #[trigger] moves@[k],
                ),
            forall|k: int|
                0 <= k < moves@.len() ==> in_configured_family(
                    NeighborhoodType::EdgeExchange,
                    (#[trigger] moves@[k]).move_type,
                ),
            delta_floor(moves@) <= delta_floor(old(moves)@),
            delta_floor(moves@) <= 0,
            forall|q1: int, q2: int|
                0 <= q1 < pos1 && edge_exchange_args_ok(cycle_of(*solution, cid), q1, q2)
                    ==> move_pair_delta(
                    *instance,
                    *solution,
                    #[trigger] edge_move_at(*solution, cid, q1, q2),
                ) >= delta_floor(moves@),
            moves@.len() > old(moves)@.len() ==> exists|p1: int, p2: int|
                edge_exchange_args_ok(cycle_of(*solution, cid), p1, p2) && move_pair_delta(
                    *instance,
                    *solution,
                    #[trigger] edge_move_at(*solution, cid, p1, p2),
                ) < 0,
        decreases n - pos1,
    {
        let mut off: usize = 2;
        while off < n - 1
            invariant
                instance.wf(),
                solution.valid(instance.n()),
                pos1 < n,
                2 <= off <= n - 1,
                n == cycle_of(*solution, cid).len(),
                n >= 3,
                moves@.len() >= old(moves)@.len(),
                forall|k: int|
                    0 <= k < moves@.len() ==> improving_exact(
                        *instance,
                        *solution,
                        #[trigger] moves@[k],
                    ),
                forall|k: int|
                    0 <= k < moves@.len() ==> in_configured_family(
                        NeighborhoodType::EdgeExchange,
                        (#[trigger] moves@[k]).move_type,
                    ),
                delta_floor(moves@) <= delta_floor(old(moves)@),
                delta_floor(moves@) <= 0,
                forall|q1: int, q2: int|
                    0 <= q1 < pos1 && edge_exchange_args_ok(cycle_of(*solution, cid), q1, q2)
                        ==> move_pair_delta(
                        *instance,
                        *solution,
                        #[trigger] edge_move_at(*solution, cid, q1, q2),
                    ) >= delta_floor(moves@),
                forall|q2: int|
                    0 <= q2 < n && 2 <= (q2 - pos1 + n) % (n as int) < off
                        && edge_exchange_args_ok(cycle_of(*solution, cid), pos1 as int, q2)
                        ==> move_pair_delta(
                        *instance,
                        *solution,
                        #[trigger] edge_move_at(*solution, cid, pos1 as int, q2),
                    ) >= delta_floor(moves@),
                moves@.len() > old(moves)@.len() ==> exists|p1: int, p2: int|
                    edge_exchange_args_ok(cycle_of(*solution, cid), p1, p2) && move_pair_delta(
                        *instance,
                        *solution,
                        #[trigger] edge_move_at(*solution, cid, p1, p2),
                    ) < 0,
            decreases n - 1 - off,
        {
            let pos2 = (pos1 + off) % n;
            proof {
                lemma_circ_offset(n as int, pos1 as int, pos2 as int);
                let ni = n as int;
                let p1i = pos1 as int;
                let offi = off as int;
                let p2i = pos2 as int;
                assert((p2i - p1i + ni) % ni == offi) by (nonlinear_arith)
                    requires
                        0 <= p1i && p1i < ni && 0 <= offi && offi < ni && p2i == (p1i + offi) % ni,
                ;
            }
            if let Some(m) = evaluate_intra_route_edge_exchange(
                solution,
                instance,
                cid,
                pos1,
                pos2,
            ) {
                if m.delta < 0 {
                    proof {
                        lemma_delta_lower_bound(*instance, *solution, m.move_type);
                        assert(edge_exchange_args_ok(
                            cycle_of(*solution, cid),
                            pos1 as int,
                            pos2 as int,
                        ) && move_pair_delta(
                            *instance,
                            *solution,
                            edge_move_at(*solution, cid, pos1 as int, pos2 as int),
                        ) < 0);
                        lemma_delta_floor_push(moves@, m);
                    }
                    moves.push(m);
                }
            }
            proof {
                assert forall|q2: int|
                    0 <= q2 < n && #[trigger] ((q2 - pos1 as int + n) % (n as int)) == off as int
                    implies q2 == pos2 as int by {
                    lemma_circ_offset(n as int, pos1 as int, q2);
                }
            }
            off += 1;
        }
        proof {
            assert forall|q2: int|
                edge_exchange_args_ok(cycle_of(*solution, cid), pos1 as int, q2)
                    implies move_pair_delta(
                *instance,
                *solution,
                #[trigger] edge_move_at(*solution, cid, pos1 as int, q2),
            ) >= delta_floor(moves@) by {
                lemma_circ_offset(n as int, pos1 as int, q2);
                let o = (q2 - pos1 as int + n) % (n as int);
                assert(o != 0 && o != 1 && o != n - 1);
                assert(2 <= o < n - 1);
            }
        }
        pos1 += 1;
    }
}


/// Recomputes a candidate move's true delta by applying it to a scratch
/// copy of the tour and diffing full costs: the optional safety net for the
/// three-opt and or-opt evaluators, at quadratic extra cost per candidate.
#[verifier::rlimit(100)]
#[verifier::spinoff_prover]
fn verify_delta(instance: &Instance, solution: &Solution, m: &EvaluatedMove) -> (r: i64)
    requires
        instance.wf(),
        solution.valid(instance.n()),
        m.delta as int == move_pair_delta(*instance, *solution, m.move_type),
    ensures
        r == m.delta,
{
    proof {
        solution.lemma_valid_in_range(instance.n());
    }
    let cost_before = solution.calculate_cost(instance);
    let mut temp_solution = solution.duplicate();
    proof {
        assert(temp_solution.valid(instance.n()));
    }
    m.move_type.apply(&mut temp_solution);
    proof {
        crate::moves::types::lemma_apply_preserves_partition(
            m.move_type,
            *solution,
            instance.n(),
        );
        temp_solution.lemma_valid_in_range(instance.n());
    }
    let cost_after = temp_solution.calculate_cost(instance);
    cost_after - cost_before
}

/// Scans every three-opt triple whose segments each hold at least two
/// nodes; if nothing was collected, no scanned three-opt reconnection
/// improves.
#[verifier::rlimit(100)]
#[verifier::spinoff_prover]
fn scan_three_opt_moves(
    instance: &Instance,
    solution: &Solution,
    cid: CycleId,
    verify: bool,
    moves: &mut Vec<EvaluatedMove>,
)
    requires
        instance.wf(),
        solution.valid(instance.n()),
        forall|k: int|
            0 <= k < old(moves)@.len() ==> improving_exact(
                *instance,
                *solution,
                #[trigger] old(moves)@[k],
            ),
        forall|k: int|
            0 <= k < old(moves)@.len() ==> in_configured_family(
                NeighborhoodType::ThreeOpt,
                (#[trigger] old(moves)@[k]).move_type,
            ),
        delta_floor(old(moves)@) <= 0,
    ensures
        final(moves)@.len() >= old(moves)@.len(),
        delta_floor(final(moves)@) <= delta_floor(old(moves)@),
        delta_floor(final(moves)@) <= 0,
        forall|k: int|
            0 <= k < final(moves)@.len() ==> improving_exact(
                *instance,
                *solution,
                #[trigger] final(moves)@[k],
            ),
        forall|k: int|
            0 <= k < final(moves)@.len() ==> in_configured_family(
                NeighborhoodType::ThreeOpt,
                (#[trigger] final(moves)@[k]).move_type,
            ),
        forall|p1: int, p2: int, p3: int|
            three_opt_scan_ok(cycle_of(*solution, cid), p1, p2, p3) ==> (
            #[trigger] three_opt_choice(*instance, cycle_of(*solution, cid), p1, p2, p3)).0
                >= delta_floor(final(moves)@),
        final(moves)@.len() > old(moves)@.len() ==> exists|p1: int, p2: int, p3: int|
            three_opt_scan_ok(cycle_of(*solution, cid), p1, p2, p3) && (#[trigger] three_opt_choice(
                *instance,
                cycle_of(*solution, cid),
                p1,
                p2,
                p3,
            )).0 < 0,
{
    let cycle_vec = solution.get_cycle(cid);
    let n = cycle_vec.len();
    if n < 6 {
        return;
    }
    let mut pos1: usize = 0;
    while pos1 < n - 4
        invariant
            instance.wf(),
            solution.valid(instance.n()),
            pos1 <= n - 4,
            n == cycle_of(*solution, cid).len(),
            n >= 6,
            moves@.len() >= old(moves)@.len(),
            forall|k: int|
                0 <= k < moves@.len() ==> improving_exact(
                    *instance,
                    *solution,
                    #[trigger] moves@[k],
                ),
            forall|k: int|
                0 <= k < moves@.len() ==> in_configured_family(
                    NeighborhoodType::ThreeOpt,
                    (#[trigger] moves@[k]).move_type,
                ),
            delta_floor(moves@) <= delta_floor(old(moves)@),
            delta_floor(moves@) <= 0,
            forall|q1: int, q2: int, q3: int|
                0 <= q1 < pos1 && three_opt_scan_ok(cycle_of(*solution, cid), q1, q2, q3) ==> (
                #[trigger] three_opt_choice(*instance, cycle_of(*solution, cid), q1, q2, q3)).0
                    >= delta_floor(moves@),
            moves@.len() > old(moves)@.len() ==> exists|p1: int, p2: int, p3: int|
                three_opt_scan_ok(cycle_of(*solution, cid), p1, p2, p3) && (
                #[trigger] three_opt_choice(*instance, cycle_of(*solution, cid), p1, p2, p3)).0
                    < 0,
        decreases n - 4 - pos1,
    {
        let mut pos2: usize = pos1 + 2;
        while pos2 < n - 2
            invariant
                instance.wf(),
                solution.valid(instance.n()),
                pos1 < n - 4,
                pos1 + 2 <= pos2 <= n - 2,
                n == cycle_of(*solution, cid).len(),
                n >= 6,
                moves@.len() >= old(moves)@.len(),
                forall|k: int|
                    0 <= k < moves@.len() ==> improving_exact(
                        *instance,
                        *solution,
                        #[trigger] moves@[k],
                    ),
                forall|k: int|
                    0 <= k < moves@.len() ==> in_configured_family(
                        NeighborhoodType::ThreeOpt,
                        (#[trigger] moves@[k]).move_type,
                    ),
                delta_floor(moves@) <= delta_floor(old(moves)@),
                delta_floor(moves@) <= 0,
                forall|q1: int, q2: int, q3: int|
                    0 <= q1 < pos1 && three_opt_scan_ok(cycle_of(*solution, cid), q1, q2, q3)
                        ==> (#[trigger] three_opt_choice(
                        *instance,
                        cycle_of(*solution, cid),
                        q1,
                        q2,
                        q3,
                    )).0 >= delta_floor(moves@),
                forall|q2: int, q3: int|
                    q2 < pos2 && three_opt_scan_ok(cycle_of(*solution, cid), pos1 as int, q2, q3)
                        ==> (#[trigger] three_opt_choice(
                        *instance,
                        cycle_of(*solution, cid),
                        pos1 as int,
                        q2,
                        q3,
                    )).0 >= delta_floor(moves@),
                moves@.len() > old(moves)@.len() ==> exists|p1: int, p2: int, p3: int|
                    three_opt_scan_ok(cycle_of(*solution, cid), p1, p2, p3) && (
                    #[trigger] three_opt_choice(*instance, cycle_of(*solution, cid), p1, p2, p3)).0
                        < 0,
            decreases n - 2 - pos2,
        {
            let mut pos3: usize = pos2 + 2;
            while pos3 < n
                invariant
                    instance.wf(),
                    solution.valid(instance.n()),
                    pos1 < n - 4,
                    pos1 + 2 <= pos2 < n - 2,
                    pos2 + 2 <= pos3 <= n,
                    n == cycle_of(*solution, cid).len(),
                    n >= 6,
                    moves@.len() >= old(moves)@.len(),
                    forall|k: int|
                        0 <= k < moves@.len() ==> improving_exact(
                            *instance,
                            *solution,
                            #[trigger] moves@[k],
                        ),
                    forall|k: int|
                        0 <= k < moves@.len() ==> in_configured_family(
                            NeighborhoodType::ThreeOpt,
                            (#[trigger] moves@[k]).move_type,
                        ),
                    delta_floor(moves@) <= delta_floor(old(moves)@),
                    delta_floor(moves@) <= 0,
                    forall|q1: int, q2: int, q3: int|
                        0 <= q1 < pos1 && three_opt_scan_ok(cycle_of(*solution, cid), q1, q2, q3)
                            ==> (#[trigger] three_opt_choice(
                            *instance,
                            cycle_of(*solution, cid),
                            q1,
                            q2,
                            q3,
                        )).0 >= delta_floor(moves@),
                    forall|q2: int, q3: int|
                        q2 < pos2 && three_opt_scan_ok(
                            cycle_of(*solution, cid),
                            pos1 as int,
                            q2,
                            q3,
                        ) ==> (#[trigger] three_opt_choice(
                            *instance,
                            cycle_of(*solution, cid),
                            pos1 as int,
                            q2,
                            q3,
                        )).0 >= delta_floor(moves@),
                    forall|q3: int|
                        q3 < pos3 && three_opt_scan_ok(
                            cycle_of(*solution, cid),
                            pos1 as int,
                            pos2 as int,
                            q3,
                        ) ==> (#[trigger] three_opt_choice(
                            *instance,
                            cycle_of(*solution, cid),
                            pos1 as int,
                            pos2 as int,
                            q3,
                        )).0 >= delta_floor(moves@),
                    moves@.len() > old(moves)@.len() ==> exists|p1: int, p2: int, p3: int|
                        three_opt_scan_ok(cycle_of(*solution, cid), p1, p2, p3) && (
                        #[trigger] three_opt_choice(
                            *instance,
                            cycle_of(*solution, cid),
                            p1,
                            p2,
                            p3,
                        )).0 < 0,
                decreases n - pos3,
            {
                if let Some(m) = evaluate_intra_route_3opt(
                    solution,
                    instance,
                    cid,
                    pos1,
                    pos2,
                    pos3,
                ) {
                    let final_delta = if verify {
                        verify_delta(instance, solution, &m)
                    } else {
                        m.delta
                    };
                    if final_delta < 0 {
                        proof {
                            lemma_delta_lower_bound(*instance, *solution, m.move_type);
                            assert(three_opt_scan_ok(
                                cycle_of(*solution, cid),
                                pos1 as int,
                                pos2 as int,
                                pos3 as int,
                            ) && three_opt_choice(
                                *instance,
                                cycle_of(*solution, cid),
                                pos1 as int,
                                pos2 as int,
                                pos3 as int,
                            ).0 < 0);
                            lemma_delta_floor_push(
                                moves@,
                                EvaluatedMove { move_type: m.move_type, delta: final_delta },
                            );
                        }
                        moves.push(EvaluatedMove { move_type: m.move_type, delta: final_delta });
                    }
                }
                pos3 += 1;
            }
            pos2 += 1;
        }
        proof {
            assert forall|q2: int, q3: int|
                three_opt_scan_ok(cycle_of(*solution, cid), pos1 as int, q2, q3) implies (
            #[trigger] three_opt_choice(
                *instance,
                cycle_of(*solution, cid),
                pos1 as int,
                q2,
                q3,
            )).0 >= delta_floor(moves@) by {
                assert(q2 + 2 <= q3 && q3 < n);
                assert(q2 < pos2 as int);
            }
        }
        pos1 += 1;
    }
}

/// Scans every or-opt chain relocation; if nothing was collected, no or-opt
/// relocation improves.
#[verifier::rlimit(100)]
#[verifier::spinoff_prover]
fn scan_or_opt_moves(
    instance: &Instance,
    solution: &Solution,
    cid: CycleId,
    verify: bool,
    moves: &mut Vec<EvaluatedMove>,
)
    requires
        instance.wf(),
        solution.valid(instance.n()),
        forall|k: int|
            0 <= k < old(moves)@.len() ==> improving_exact(
                *instance,
                *solution,
                #[trigger] old(moves)@[k],
            ),
        forall|k: int|
            0 <= k < old(moves)@.len() ==> in_configured_family(
                NeighborhoodType::OrOpt,
                (#[trigger] old(moves)@[k]).move_type,
            ),
        delta_floor(old(moves)@) <= 0,
    ensures
        final(moves)@.len() >= old(moves)@.len(),
        delta_floor(final(moves)@) <= delta_floor(old(moves)@),
        delta_floor(final(moves)@) <= 0,
        forall|k: int|
            0 <= k < final(moves)@.len() ==> improving_exact(
                *instance,
                *solution,
                #[trigger] final(moves)@[k],
            ),
        forall|k: int|
            0 <= k < final(moves)@.len() ==> in_configured_family(
                NeighborhoodType::OrOpt,
                (#[trigger] final(moves)@[k]).move_type,
            ),
        forall|from: int, len: int, to: int|
            or_opt_args_ok(cycle_of(*solution, cid), from, len, to) ==> crate::cost::cycle_cost(
                *instance,
                #[trigger] or_opt_rearranged(cycle_of(*solution, cid), from, len, to),
            ) - crate::cost::cycle_cost(*instance, cycle_of(*solution, cid)) >= delta_floor(
                final(moves)@,
            ),
        final(moves)@.len() > old(moves)@.len() ==> exists|from: int, len: int, to: int|
            or_opt_args_ok(cycle_of(*solution, cid), from, len, to) && crate::cost::cycle_cost(
                *instance,
                #[trigger] or_opt_rearranged(cycle_of(*solution, cid), from, len, to),
            ) - crate::cost::cycle_cost(*instance, cycle_of(*solution, cid)) < 0,
{
    let cycle_vec = solution.get_cycle(cid);
    let n = cycle_vec.len();
    if n < 4 {
        return;
    }
    let mut chain_length: usize = 1;
    while chain_length <= 3
        invariant
            instance.wf(),
            solution.valid(instance.n()),
            1 <= chain_length <= 4,
            n == cycle_of(*solution, cid).len(),
            n >= 4,
            moves@.len() >= old(moves)@.len(),
            forall|k: int|
                0 <= k < moves@.len() ==> improving_exact(
                    *instance,
                    *solution,
                    #[trigger] moves@[k],
                ),
            forall|k: int|
                0 <= k < moves@.len() ==> in_configured_family(
                    NeighborhoodType::OrOpt,
                    (#[trigger] moves@[k]).move_type,
                ),
            delta_floor(moves@) <= delta_floor(old(moves)@),
            delta_floor(moves@) <= 0,
            forall|from: int, len: int, to: int|
                1 <= len < chain_length && or_opt_args_ok(cycle_of(*solution, cid), from, len, to)
                    ==> crate::cost::cycle_cost(
                    *instance,
                    #[trigger] or_opt_rearranged(cycle_of(*solution, cid), from, len, to),
                ) - crate::cost::cycle_cost(*instance, cycle_of(*solution, cid)) >= delta_floor(
                    moves@,
                ),
            moves@.len() > old(moves)@.len() ==> exists|from: int, len: int, to: int|
                or_opt_args_ok(cycle_of(*solution, cid), from, len, to) && crate::cost::cycle_cost(
                    *instance,
                    #[trigger] or_opt_rearranged(cycle_of(*solution, cid), from, len, to),
                ) - crate::cost::cycle_cost(*instance, cycle_of(*solution, cid)) < 0,
        decreases 4 - chain_length,
    {
        let mut from_pos: usize = 0;
        while from_pos < n
            invariant
                instance.wf(),
                solution.valid(instance.n()),
                1 <= chain_length <= 3,
                from_pos <= n,
                n == cycle_of(*solution, cid).len(),
                n >= 4,
                moves@.len() >= old(moves)@.len(),
                forall|k: int|
                    0 <= k < moves@.len() ==> improving_exact(
                        *instance,
                        *solution,
                        #[trigger] moves@[k],
                    ),
                forall|k: int|
                    0 <= k < moves@.len() ==> in_configured_family(
                        NeighborhoodType::OrOpt,
                        (#[trigger] moves@[k]).move_type,
                    ),
                delta_floor(moves@) <= delta_floor(old(moves)@),
                delta_floor(moves@) <= 0,
                forall|from: int, len: int, to: int|
                    1 <= len < chain_length && or_opt_args_ok(
                        cycle_of(*solution, cid),
                        from,
                        len,
                        to,
                    ) ==> crate::cost::cycle_cost(
                        *instance,
                        #[trigger] or_opt_rearranged(cycle_of(*solution, cid), from, len, to),
                    ) - crate::cost::cycle_cost(*instance, cycle_of(*solution, cid))
                        >= delta_floor(moves@),
                forall|from: int, to: int|
                    0 <= from < from_pos && or_opt_args_ok(
                        cycle_of(*solution, cid),
                        from,
                        chain_length as int,
                        to,
                    ) ==> crate::cost::cycle_cost(
                        *instance,
                        #[trigger] or_opt_rearranged(
                            cycle_of(*solution, cid),
                            from,
                            chain_length as int,
                            to,
                        ),
                    ) - crate::cost::cycle_cost(*instance, cycle_of(*solution, cid))
                        >= delta_floor(moves@),
                moves@.len() > old(moves)@.len() ==> exists|from: int, len: int, to: int|
                    or_opt_args_ok(cycle_of(*solution, cid), from, len, to)
                        && crate::cost::cycle_cost(
                        *instance,
                        #[trigger] or_opt_rearranged(cycle_of(*solution, cid), from, len, to),
                    ) - crate::cost::cycle_cost(*instance, cycle_of(*solution, cid)) < 0,
            decreases n - from_pos,
        {
            let mut to_pos: usize = 0;
            while to_pos < n
                invariant
                    instance.wf(),
                    solution.valid(instance.n()),
                    1 <= chain_length <= 3,
                    from_pos < n,
                    to_pos <= n,
                    n == cycle_of(*solution, cid).len(),
                    n >= 4,
                    moves@.len() >= old(moves)@.len(),
                    forall|k: int|
                        0 <= k < moves@.len() ==> improving_exact(
                            *instance,
                            *solution,
                            #[trigger] moves@[k],
                        ),
                    forall|k: int|
                        0 <= k < moves@.len() ==> in_configured_family(
                            NeighborhoodType::OrOpt,
                            (#[trigger] moves@[k]).move_type,
                        ),
                    delta_floor(moves@) <= delta_floor(old(moves)@),
                    delta_floor(moves@) <= 0,
                    forall|fr: int, ln: int, t: int|
                        1 <= ln < chain_length && or_opt_args_ok(
                            cycle_of(*solution, cid),
                            fr,
                            ln,
                            t,
                        ) ==> crate::cost::cycle_cost(
                            *instance,
                            #[trigger] or_opt_rearranged(cycle_of(*solution, cid), fr, ln, t),
                        ) - crate::cost::cycle_cost(*instance, cycle_of(*solution, cid))
                            >= delta_floor(moves@),
                    forall|from: int, to: int|
                        0 <= from < from_pos && or_opt_args_ok(
                            cycle_of(*solution, cid),
                            from,
                            chain_length as int,
                            to,
                        ) ==> crate::cost::cycle_cost(
                            *instance,
                            #[trigger] or_opt_rearranged(
                                cycle_of(*solution, cid),
                                from,
                                chain_length as int,
                                to,
                            ),
                        ) - crate::cost::cycle_cost(*instance, cycle_of(*solution, cid))
                            >= delta_floor(moves@),
                    forall|to: int|
                        0 <= to < to_pos && or_opt_args_ok(
                            cycle_of(*solution, cid),
                            from_pos as int,
                            chain_length as int,
                            to,
                        ) ==> crate::cost::cycle_cost(
                            *instance,
                            #[trigger] or_opt_rearranged(
                                cycle_of(*solution, cid),
                                from_pos as int,
                                chain_length as int,
                                to,
                            ),
                        ) - crate::cost::cycle_cost(*instance, cycle_of(*solution, cid))
                            >= delta_floor(moves@),
                    moves@.len() > old(moves)@.len() ==> exists|from: int, len: int, to: int|
                        or_opt_args_ok(cycle_of(*solution, cid), from, len, to)
                            && crate::cost::cycle_cost(
                            *instance,
                            #[trigger] or_opt_rearranged(cycle_of(*solution, cid), from, len, to),
                        ) - crate::cost::cycle_cost(*instance, cycle_of(*solution, cid)) < 0,
                decreases n - to_pos,
            {
                if let Some(m) = evaluate_intra_route_or_opt(
                    solution,
                    instance,
                    cid,
                    from_pos,
                    chain_length,
                    to_pos,
                ) {
                    let final_delta = if verify {
                        verify_delta(instance, solution, &m)
                    } else {
                        m.delta
                    };
                    if final_delta < 0 {
                        proof {
                            lemma_delta_lower_bound(*instance, *solution, m.move_type);
                            assert(or_opt_args_ok(
                                cycle_of(*solution, cid),
                                from_pos as int,
                                chain_length as int,
                                to_pos as int,
                            ) && crate::cost::cycle_cost(
                                *instance,
                                or_opt_rearranged(
                                    cycle_of(*solution, cid),
                                    from_pos as int,
                                    chain_length as int,
                                    to_pos as int,
                                ),
                            ) - crate::cost::cycle_cost(*instance, cycle_of(*solution, cid)) < 0);
                            lemma_delta_floor_push(
                                moves@,
                                EvaluatedMove { move_type: m.move_type, delta: final_delta },
                            );
                        }
                        moves.push(EvaluatedMove { move_type: m.move_type, delta: final_delta });
                    }
                }
                to_pos += 1;
            }
            from_pos += 1;
        }
        proof {
            assert forall|from: int, to: int|
                or_opt_args_ok(
                    cycle_of(*solution, cid),
                    from,
                    chain_length as int,
                    to,
                ) implies crate::cost::cycle_cost(
                *instance,
                #[trigger] or_opt_rearranged(
                    cycle_of(*solution, cid),
                    from,
                    chain_length as int,
                    to,
                ),
            ) - crate::cost::cycle_cost(*instance, cycle_of(*solution, cid)) >= delta_floor(
                moves@,
            ) by {
                assert(from < from_pos as int);
            }
        }
        chain_length += 1;
    }
}


impl LocalSearch {
    /// Evaluates the full neighborhood (inter-route exchanges plus the
    /// configured intra-route family in both cycles) and collects every
    /// strictly improving move with its exact delta.  An empty result means
    /// the solution is a local optimum of the scanned neighborhood.
    fn generate_all_improving_moves(&self, instance: &Instance, solution: &Solution) -> (moves:
        Vec<EvaluatedMove>)
        requires
            instance.wf(),
            solution.valid(instance.n()),
        ensures
            forall|k: int|
                0 <= k < moves@.len() ==> improving_exact(
                    *instance,
                    *solution,
                    #[trigger] moves@[k],
                ),
            forall|k: int|
                0 <= k < moves@.len() ==> in_configured_family(
                    self.neighborhood,
                    (#[trigger] moves@[k]).move_type,
                ),
            moves@.len() == 0 ==> steepest_local_optimum(*instance, *solution, self.neighborhood),
            moves@.len() > 0 ==> !steepest_local_optimum(*instance, *solution, self.neighborhood),
            attains_neighborhood_minimum(*instance, *solution, self.neighborhood, moves@),
    {
        let mut moves: Vec<EvaluatedMove> = Vec::new();
        scan_inter_moves(instance, solution, &mut moves);
        let ghost len_inter = moves@.len();
        let ghost mut len_mid = len_inter;
        match self.neighborhood {
            NeighborhoodType::VertexExchange => {
                scan_vertex_moves(instance, solution, CycleId::Cycle1, &mut moves);
                proof {
                    len_mid = moves@.len();
                }
                scan_vertex_moves(instance, solution, CycleId::Cycle2, &mut moves);
            },
            NeighborhoodType::EdgeExchange => {
                scan_edge_moves(instance, solution, CycleId::Cycle1, &mut moves);
                proof {
                    len_mid = moves@.len();
                }
                scan_edge_moves(instance, solution, CycleId::Cycle2, &mut moves);
            },
            NeighborhoodType::ThreeOpt => {
                scan_three_opt_moves(
                    instance,
                    solution,
                    CycleId::Cycle1,
                    self.verify_delta_computationally,
                    &mut moves,
                );
                proof {
                    len_mid = moves@.len();
                }
                scan_three_opt_moves(
                    instance,
                    solution,
                    CycleId::Cycle2,
                    self.verify_delta_computationally,
                    &mut moves,
                );
            },
            NeighborhoodType::OrOpt => {
                scan_or_opt_moves(
                    instance,
                    solution,
                    CycleId::Cycle1,
                    self.verify_delta_computationally,
                    &mut moves,
                );
                proof {
                    len_mid = moves@.len();
                }
                scan_or_opt_moves(
                    instance,
                    solution,
                    CycleId::Cycle2,
                    self.verify_delta_computationally,
                    &mut moves,
                );
            },
        }
        proof {
            if moves@.len() > 0 {
                lemma_delta_floor_attained(moves@);
            }
            assert forall|cid: CycleId, p1: int, p2: int|
                vertex_exchange_args_ok(cycle_of(*solution, cid), p1, p2) && self.neighborhood
                    == NeighborhoodType::VertexExchange implies move_pair_delta(
                *instance,
                *solution,
                #[trigger] vertex_move_at(*solution, cid, p1, p2),
            ) >= delta_floor(moves@) by {
                match cid {
                    CycleId::Cycle1 => {},
                    CycleId::Cycle2 => {},
                }
            }
            assert forall|cid: CycleId, p1: int, p2: int|
                edge_exchange_args_ok(cycle_of(*solution, cid), p1, p2) && self.neighborhood
                    == NeighborhoodType::EdgeExchange implies move_pair_delta(
                *instance,
                *solution,
                #[trigger] edge_move_at(*solution, cid, p1, p2),
            ) >= delta_floor(moves@) by {
                match cid {
                    CycleId::Cycle1 => {},
                    CycleId::Cycle2 => {},
                }
            }
            assert forall|cid: CycleId, p1: int, p2: int, p3: int|
                three_opt_scan_ok(cycle_of(*solution, cid), p1, p2, p3) && self.neighborhood
                    == NeighborhoodType::ThreeOpt implies (#[trigger] three_opt_choice(
                *instance,
                cycle_of(*solution, cid),
                p1,
                p2,
                p3,
            )).0 >= delta_floor(moves@) by {
                match cid {
                    CycleId::Cycle1 => {},
                    CycleId::Cycle2 => {},
                }
            }
            assert forall|cid: CycleId, from: int, len: int, to: int|
                or_opt_args_ok(cycle_of(*solution, cid), from, len, to) && self.neighborhood
                    == NeighborhoodType::OrOpt implies crate::cost::cycle_cost(
                *instance,
                #[trigger] or_opt_rearranged(cycle_of(*solution, cid), from, len, to),
            ) - crate::cost::cycle_cost(*instance, cycle_of(*solution, cid)) >= delta_floor(
                moves@,
            ) by {
                match cid {
                    CycleId::Cycle1 => {},
                    CycleId::Cycle2 => {},
                }
            }
            if moves@.len() > 0 {
                assert(!steepest_local_optimum(*instance, *solution, self.neighborhood)) by {
                    if steepest_local_optimum(*instance, *solution, self.neighborhood) {
                        if len_inter > 0 {
                            let (p1, p2) = choose|p1: int, p2: int|
                                inter_route_args_ok(*solution, p1, p2) && move_pair_delta(
                                    *instance,
                                    *solution,
                                    #[trigger] inter_move_at(*solution, p1, p2),
                                ) < 0;
                            assert(move_pair_delta(
                                *instance,
                                *solution,
                                inter_move_at(*solution, p1, p2),
                            ) >= 0);
                        } else {
                            let cid = if len_mid > len_inter {
                                CycleId::Cycle1
                            } else {
                                CycleId::Cycle2
                            };
                            match self.neighborhood {
                                NeighborhoodType::VertexExchange => {
                                    let (p1, p2) = choose|p1: int, p2: int|
                                        vertex_exchange_args_ok(cycle_of(*solution, cid), p1, p2)
                                            && move_pair_delta(
                                            *instance,
                                            *solution,
                                            #[trigger] vertex_move_at(*solution, cid, p1, p2),
                                        ) < 0;
                                    assert(move_pair_delta(
                                        *instance,
                                        *solution,
                                        vertex_move_at(*solution, cid, p1, p2),
                                    ) >= 0);
                                },
                                NeighborhoodType::EdgeExchange => {
                                    let (p1, p2) = choose|p1: int, p2: int|
                                        edge_exchange_args_ok(cycle_of(*solution, cid), p1, p2)
                                            && move_pair_delta(
                                            *instance,
                                            *solution,
                                            #[trigger] edge_move_at(*solution, cid, p1, p2),
                                        ) < 0;
                                    assert(move_pair_delta(
                                        *instance,
                                        *solution,
                                        edge_move_at(*solution, cid, p1, p2),
                                    ) >= 0);
                                },
                                NeighborhoodType::ThreeOpt => {
                                    let (p1, p2, p3) = choose|p1: int, p2: int, p3: int|
                                        three_opt_scan_ok(cycle_of(*solution, cid), p1, p2, p3)
                                            && (#[trigger] three_opt_choice(
                                            *instance,
                                            cycle_of(*solution, cid),
                                            p1,
                                            p2,
                                            p3,
                                        )).0 < 0;
                                    assert(three_opt_choice(
                                        *instance,
                                        cycle_of(*solution, cid),
                                        p1,
                                        p2,
                                        p3,
                                    ).0 >= 0);
                                },
                                NeighborhoodType::OrOpt => {
                                    let (from, len, to) = choose|from: int, len: int, to: int|
                                        or_opt_args_ok(cycle_of(*solution, cid), from, len, to)
                                            && crate::cost::cycle_cost(
                                            *instance,
                                            #[trigger] or_opt_rearranged(
                                                cycle_of(*solution, cid),
                                                from,
                                                len,
                                                to,
                                            ),
                                        ) - crate::cost::cycle_cost(
                                            *instance,
                                            cycle_of(*solution, cid),
                                        ) < 0;
                                    assert(crate::cost::cycle_cost(
                                        *instance,
                                        or_opt_rearranged(cycle_of(*solution, cid), from, len, to),
                                    ) - crate::cost::cycle_cost(
                                        *instance,
                                        cycle_of(*solution, cid),
                                    ) >= 0);
                                },
                            }
                        }
                    }
                }
            }
            if moves@.len() == 0 {
                assert forall|cid: CycleId, p1: int, p2: int|
                    vertex_exchange_args_ok(cycle_of(*solution, cid), p1, p2)
                        && self.neighborhood == NeighborhoodType::VertexExchange
                        implies move_pair_delta(
                    *instance,
                    *solution,
                    #[trigger] vertex_move_at(*solution, cid, p1, p2),
                ) >= 0 by {
                    match cid {
                        CycleId::Cycle1 => {},
                        CycleId::Cycle2 => {},
                    }
                }
                assert forall|cid: CycleId, p1: int, p2: int|
                    edge_exchange_args_ok(cycle_of(*solution, cid), p1, p2) && self.neighborhood
                        == NeighborhoodType::EdgeExchange implies move_pair_delta(
                    *instance,
                    *solution,
                    #[trigger] edge_move_at(*solution, cid, p1, p2),
                ) >= 0 by {
                    match cid {
                        CycleId::Cycle1 => {},
                        CycleId::Cycle2 => {},
                    }
                }
                assert forall|cid: CycleId, p1: int, p2: int, p3: int|
                    three_opt_scan_ok(cycle_of(*solution, cid), p1, p2, p3) && self.neighborhood
                        == NeighborhoodType::ThreeOpt implies (#[trigger] three_opt_choice(
                    *instance,
                    cycle_of(*solution, cid),
                    p1,
                    p2,
                    p3,
                )).0 >= 0 by {
                    match cid {
                        CycleId::Cycle1 => {},
                        CycleId::Cycle2 => {},
                    }
                }
                assert forall|cid: CycleId, from: int, len: int, to: int|
                    or_opt_args_ok(cycle_of(*solution, cid), from, len, to) && self.neighborhood
                        == NeighborhoodType::OrOpt implies crate::cost::cycle_cost(
                    *instance,
                    #[trigger] or_opt_rearranged(cycle_of(*solution, cid), from, len, to),
                ) - crate::cost::cycle_cost(*instance, cycle_of(*solution, cid)) >= 0 by {
                    match cid {
                        CycleId::Cycle1 => {},
                        CycleId::Cycle2 => {},
                    }
                }
            }
        }
        moves
    }

    /// Evaluates only the moves whose endpoints are each other's near
    /// neighbors: inter-route exchanges across cycles, and the configured
    /// intra-route family (vertex or edge exchange) within a cycle.  An
    /// empty result means the solution is a local optimum of the candidate
    /// neighborhood.
    fn generate_candidate_moves(
        &self,
        instance: &Instance,
        solution: &Solution,
        _k: usize,
    ) -> (moves: Vec<EvaluatedMove>)
        requires
            instance.wf(),
            solution.valid(instance.n()),
            instance.n() > 0 ==> instance.nearest_neighbors@[0]@.len() > 0,
        ensures
            forall|k: int|
                0 <= k < moves@.len() ==> improving_exact(
                    *instance,
                    *solution,
                    #[trigger] moves@[k],
                ),
            moves@.len() == 0 ==> candidate_local_optimum(
                *instance,
                *solution,
                self.neighborhood,
            ),
            forall|k: int|
                0 <= k < moves@.len() ==> in_candidate_family(
                    self.neighborhood,
                    (#[trigger] moves@[k]).move_type,
                ),
            forall|k: int|
                0 <= k < moves@.len() ==> exists|na: int, t: int|
                    0 <= na < instance.n() && 0 <= t < instance.nearest_neighbors@[na]@.len()
                        && move_joins(
                        (#[trigger] moves@[k]).move_type,
                        na as usize,
                        #[trigger] instance.nearest_neighbors@[na]@[t],
                    ),
            moves@.len() > 0 ==> !candidate_local_optimum(
                *instance,
                *solution,
                self.neighborhood,
            ),
    {
        let mut moves: Vec<EvaluatedMove> = Vec::new();
        let dim = instance.size();
        let mut node_a: usize = 0;
        while node_a < dim
            invariant
                instance.wf(),
                solution.valid(instance.n()),
                dim == instance.n(),
                dim > 0 ==> instance.nearest_neighbors@[0]@.len() > 0,
                node_a <= dim,
                forall|k: int|
                    0 <= k < moves@.len() ==> improving_exact(
                        *instance,
                        *solution,
                        #[trigger] moves@[k],
                    ),
                forall|k: int|
                    0 <= k < moves@.len() ==> in_candidate_family(
                        self.neighborhood,
                        (#[trigger] moves@[k]).move_type,
                    ),
                forall|k: int|
                    0 <= k < moves@.len() ==> exists|na: int, t: int|
                        0 <= na < instance.n() && 0 <= t < instance.nearest_neighbors@[na]@.len()
                            && move_joins(
                            (#[trigger] moves@[k]).move_type,
                            na as usize,
                            #[trigger] instance.nearest_neighbors@[na]@[t],
                        ),
                moves@.len() > 0 ==> !candidate_local_optimum(
                    *instance,
                    *solution,
                    self.neighborhood,
                ),
                moves@.len() == 0 ==> forall|qa: int, qt: int|
                    0 <= qa < node_a && 0 <= qt < instance.nearest_neighbors@[qa]@.len()
                        ==> #[trigger] candidate_pair_nonimproving(
                        *instance,
                        *solution,
                        self.neighborhood,
                        qa as usize,
                        instance.nearest_neighbors@[qa]@[qt],
                    ),
            decreases dim - node_a,
        {
            let node_a_info_opt = solution.find_node(node_a);
            if let Some((cycle_a, pos_a)) = node_a_info_opt {
                let neighbors = instance.get_nearest_neighbors(node_a);
                let num_neighbors = neighbors.len();
                let mut t: usize = 0;
                while t < num_neighbors
                    invariant
                        instance.wf(),
                        solution.valid(instance.n()),
                        dim == instance.n(),
                        node_a < dim,
                        t <= num_neighbors,
                        num_neighbors == neighbors@.len(),
                        neighbors@ == instance.nearest_neighbors@[node_a as int]@,
                        find_node_spec(*solution, node_a) == Some((cycle_a, pos_a as int)),
                        pos_a < cycle_of(*solution, cycle_a).len(),
                        cycle_of(*solution, cycle_a)[pos_a as int] == node_a,
                        forall|k: int|
                            0 <= k < moves@.len() ==> improving_exact(
                                *instance,
                                *solution,
                                #[trigger] moves@[k],
                            ),
                        forall|k: int|
                            0 <= k < moves@.len() ==> in_candidate_family(
                                self.neighborhood,
                                (#[trigger] moves@[k]).move_type,
                            ),
                        forall|k: int|
                            0 <= k < moves@.len() ==> exists|na: int, t: int|
                                0 <= na < instance.n() && 0 <= t < instance.nearest_neighbors@[na]@.len()
                                    && move_joins(
                                    (#[trigger] moves@[k]).move_type,
                                    na as usize,
                                    #[trigger] instance.nearest_neighbors@[na]@[t],
                                ),
                        moves@.len() > 0 ==> !candidate_local_optimum(
                            *instance,
                            *solution,
                            self.neighborhood,
                        ),
                        moves@.len() == 0 ==> forall|qa: int, qt: int|
                            0 <= qa < node_a && 0 <= qt < instance.nearest_neighbors@[qa]@.len()
                                ==> #[trigger] candidate_pair_nonimproving(
                                *instance,
                                *solution,
                                self.neighborhood,
                                qa as usize,
                                instance.nearest_neighbors@[qa]@[qt],
                            ),
                        moves@.len() == 0 ==> forall|qt: int|
                            0 <= qt < t ==> #[trigger] candidate_pair_nonimproving(
                                *instance,
                                *solution,
                                self.neighborhood,
                                node_a,
                                neighbors@[qt],
                            ),
                    decreases num_neighbors - t,
                {
                    let node_b = neighbors[t];
                    if node_a != node_b {
                        let node_b_info_opt = solution.find_node(node_b);
                        if let Some((cycle_b, pos_b)) = node_b_info_opt {
                            if cycle_a != cycle_b {
                                let (actual_pos_a, actual_pos_b) = if cycle_a == CycleId::Cycle1 {
                                    (pos_a, pos_b)
                                } else {
                                    (pos_b, pos_a)
                                };
                                if let Some(m) = evaluate_inter_route_exchange(
                                    solution,
                                    instance,
                                    actual_pos_a,
                                    actual_pos_b,
                                ) {
                                    if m.delta < 0 {
                                        proof {
                                            lemma_delta_lower_bound(
                                                *instance,
                                                *solution,
                                                m.move_type,
                                            );
                                            assert(m.move_type == inter_move_at(
                                                *solution,
                                                actual_pos_a as int,
                                                actual_pos_b as int,
                                            ));
                                            assert(move_joins(m.move_type, node_a, node_b));
                                            assert(instance.nearest_neighbors@[
                                                node_a as int]@[t as int] == node_b);
                                            assert(!candidate_pair_nonimproving(
                                                *instance,
                                                *solution,
                                                self.neighborhood,
                                                node_a,
                                                node_b,
                                            ));
                                            lemma_pair_refutes_candidate_optimum(
                                                *instance,
                                                *solution,
                                                self.neighborhood,
                                                node_a as int,
                                                t as int,
                                            );
                                        }
                                        moves.push(m);
                                    }
                                }
                            } else {
                                match self.neighborhood {
                                    NeighborhoodType::EdgeExchange => {
                                        if let Some(m) =
                                            evaluate_candidate_intra_route_edge_exchange(
                                            solution,
                                            instance,
                                            cycle_a,
                                            pos_a,
                                            pos_b,
                                        ) {
                                            if m.delta < 0 {
                                                proof {
                                                    lemma_delta_lower_bound(
                                                        *instance,
                                                        *solution,
                                                        m.move_type,
                                                    );
                                                    assert(m.move_type == edge_move_at(
                                                        *solution,
                                                        cycle_a,
                                                        pos_a as int,
                                                        pos_b as int,
                                                    ));
                                                    assert(move_joins(
                                                        m.move_type,
                                                        node_a,
                                                        node_b,
                                                    ));
                                                    assert(instance.nearest_neighbors@[
                                                        node_a as int]@[t as int] == node_b);
                                                    assert(!candidate_pair_nonimproving(
                                                        *instance,
                                                        *solution,
                                                        self.neighborhood,
                                                        node_a,
                                                        node_b,
                                                    ));
                                                    lemma_pair_refutes_candidate_optimum(
                                                        *instance,
                                                        *solution,
                                                        self.neighborhood,
                                                        node_a as int,
                                                        t as int,
                                                    );
                                                }
                                                moves.push(m);
                                            }
                                        }
                                    },
                                    NeighborhoodType::VertexExchange => {
                                        if let Some(m) = evaluate_intra_route_vertex_exchange(
                                            solution,
                                            instance,
                                            cycle_a,
                                            pos_a,
                                            pos_b,
                                        ) {
                                            if m.delta < 0 {
                                                proof {
                                                    lemma_delta_lower_bound(
                                                        *instance,
                                                        *solution,
                                                        m.move_type,
                                                    );
                                                    assert(m.move_type == vertex_move_at(
                                                        *solution,
                                                        cycle_a,
                                                        pos_a as int,
                                                        pos_b as int,
                                                    ));
                                                    assert(move_joins(
                                                        m.move_type,
                                                        node_a,
                                                        node_b,
                                                    ));
                                                    assert(instance.nearest_neighbors@[
                                                        node_a as int]@[t as int] == node_b);
                                                    assert(!candidate_pair_nonimproving(
                                                        *instance,
                                                        *solution,
                                                        self.neighborhood,
                                                        node_a,
                                                        node_b,
                                                    ));
                                                    lemma_pair_refutes_candidate_optimum(
                                                        *instance,
                                                        *solution,
                                                        self.neighborhood,
                                                        node_a as int,
                                                        t as int,
                                                    );
                                                }
                                                moves.push(m);
                                            }
                                        }
                                    },
                                    NeighborhoodType::ThreeOpt => {},
                                    NeighborhoodType::OrOpt => {},
                                }
                            }
                        }
                    }
                    proof {
                        if moves@.len() == 0 {
                            assert(candidate_pair_nonimproving(
                                *instance,
                                *solution,
                                self.neighborhood,
                                node_a,
                                node_b,
                            ));
                        }
                    }
                    t += 1;
                }
            } else {
                proof {
                    assert forall|qt: int|
                        0 <= qt < instance.nearest_neighbors@[node_a as int]@.len()
                            implies #[trigger] candidate_pair_nonimproving(
                        *instance,
                        *solution,
                        self.neighborhood,
                        node_a,
                        instance.nearest_neighbors@[node_a as int]@[qt],
                    ) by {
                        assert(find_node_spec(*solution, node_a) is None);
                    }
                }
            }
            node_a += 1;
        }
        moves
    }

    /// Regenerates candidate moves local to the affected nodes after a
    /// worklist apply: inter-route exchanges against the other cycle and
    /// the configured intra-route family within the same cycle.
    fn generate_moves_around_nodes(
        &self,
        instance: &Instance,
        solution: &Solution,
        affected_nodes: &Vec<usize>,
    ) -> (moves: Vec<EvaluatedMove>)
        requires
            instance.wf(),
            solution.valid(instance.n()),
        ensures
            forall|k: int|
                0 <= k < moves@.len() ==> improving_exact(
                    *instance,
                    *solution,
                    #[trigger] moves@[k],
                ),
            forall|k: int|
                0 <= k < moves@.len() ==> in_candidate_family(
                    self.neighborhood,
                    (#[trigger] moves@[k]).move_type,
                ),
            forall|k: int|
                0 <= k < moves@.len() ==> move_touches(
                    (#[trigger] moves@[k]).move_type,
                    affected_nodes@,
                ),
            forall|i: int, j: int|
                0 <= i < j < moves@.len() && (#[trigger] moves@[i]).move_type
                    is InterRouteExchange && (#[trigger] moves@[j]).move_type
                    is InterRouteExchange ==> joined_pair(moves@[i].move_type) != joined_pair(
                    moves@[j].move_type,
                ),
            forall|i: int, j: int|
                0 <= i < j < moves@.len() && (#[trigger] moves@[i]).move_type
                    is IntraRouteVertexExchange && (#[trigger] moves@[j]).move_type
                    is IntraRouteVertexExchange ==> joined_pair(moves@[i].move_type)
                    != joined_pair(moves@[j].move_type),
    {
        let mut moves: Vec<EvaluatedMove> = Vec::new();
        if affected_nodes.len() == 0 {
            return moves;
        }
        let mut considered_vertex_pairs: Vec<(usize, usize)> = Vec::new();
        let mut considered_inter_pairs: Vec<(usize, usize)> = Vec::new();
        let count = affected_nodes.len();
        let mut idx: usize = 0;
        while idx < count
            invariant
                instance.wf(),
                solution.valid(instance.n()),
                idx <= count,
                count == affected_nodes@.len(),
                forall|k: int|
                    0 <= k < moves@.len() ==> improving_exact(
                        *instance,
                        *solution,
                        #[trigger] moves@[k],
                    ),
                forall|k: int|
                    0 <= k < moves@.len() ==> in_candidate_family(
                        self.neighborhood,
                        (#[trigger] moves@[k]).move_type,
                    ),
                forall|k: int|
                    0 <= k < moves@.len() ==> move_touches(
                        (#[trigger] moves@[k]).move_type,
                        affected_nodes@,
                    ),
                forall|k: int|
                    0 <= k < moves@.len() && (#[trigger] moves@[k]).move_type is InterRouteExchange
                        ==> considered_inter_pairs@.contains(joined_pair(moves@[k].move_type)),
                forall|k: int|
                    0 <= k < moves@.len() && (#[trigger] moves@[k]).move_type is IntraRouteVertexExchange
                        ==> considered_vertex_pairs@.contains(joined_pair(moves@[k].move_type)),
                forall|i: int, j: int|
                    0 <= i < j < moves@.len() && (#[trigger] moves@[i]).move_type is InterRouteExchange
                        && (#[trigger] moves@[j]).move_type is InterRouteExchange ==> joined_pair(
                        moves@[i].move_type,
                    ) != joined_pair(moves@[j].move_type),
                forall|i: int, j: int|
                    0 <= i < j < moves@.len() && (#[trigger] moves@[i]).move_type is IntraRouteVertexExchange
                        && (#[trigger] moves@[j]).move_type is IntraRouteVertexExchange ==> joined_pair(
                        moves@[i].move_type,
                    ) != joined_pair(moves@[j].move_type),
            decreases count - idx,
        {
            let node_a = affected_nodes[idx];
            proof {
                assert(affected_nodes@[idx as int] == node_a);
            }
            if let Some((cycle_id_a, pos_a)) = solution.find_node(node_a) {
                let other_cycle_id = if cycle_id_a == CycleId::Cycle1 {
                    CycleId::Cycle2
                } else {
                    CycleId::Cycle1
                };
                let other_len = solution.get_cycle(other_cycle_id).len();
                let mut pos_b: usize = 0;
                while pos_b < other_len
                    invariant
                        instance.wf(),
                        solution.valid(instance.n()),
                        pos_b <= other_len,
                        other_len == cycle_of(*solution, other_cycle_id).len(),
                        find_node_spec(*solution, node_a) == Some((cycle_id_a, pos_a as int)),
                        pos_a < cycle_of(*solution, cycle_id_a).len(),
                        cycle_of(*solution, cycle_id_a)[pos_a as int] == node_a,
                        affected_nodes@.contains(node_a),
                        other_cycle_id != cycle_id_a,
                        forall|k: int|
                            0 <= k < moves@.len() ==> improving_exact(
                                *instance,
                                *solution,
                                #[trigger] moves@[k],
                            ),
                        forall|k: int|
                            0 <= k < moves@.len() ==> in_candidate_family(
                                self.neighborhood,
                                (#[trigger] moves@[k]).move_type,
                            ),
                        forall|k: int|
                            0 <= k < moves@.len() ==> move_touches(
                                (#[trigger] moves@[k]).move_type,
                                affected_nodes@,
                            ),
                        forall|k: int|
                            0 <= k < moves@.len() && (#[trigger] moves@[k]).move_type is InterRouteExchange
                                ==> considered_inter_pairs@.contains(joined_pair(moves@[k].move_type)),
                        forall|k: int|
                            0 <= k < moves@.len() && (#[trigger] moves@[k]).move_type is IntraRouteVertexExchange
                                ==> considered_vertex_pairs@.contains(joined_pair(moves@[k].move_type)),
                        forall|i: int, j: int|
                            0 <= i < j < moves@.len() && (#[trigger] moves@[i]).move_type is InterRouteExchange
                                && (#[trigger] moves@[j]).move_type is InterRouteExchange ==> joined_pair(
                                moves@[i].move_type,
                            ) != joined_pair(moves@[j].move_type),
                        forall|i: int, j: int|
                            0 <= i < j < moves@.len() && (#[trigger] moves@[i]).move_type is IntraRouteVertexExchange
                                && (#[trigger] moves@[j]).move_type is IntraRouteVertexExchange ==> joined_pair(
                                moves@[i].move_type,
                            ) != joined_pair(moves@[j].move_type),
                    decreases other_len - pos_b,
                {
                    let node_b = solution.get_cycle(other_cycle_id)[pos_b];
                    let pair = if node_a < node_b {
                        (node_a, node_b)
                    } else {
                        (node_b, node_a)
                    };
                    if !contains_pair(&considered_inter_pairs, pair.0, pair.1) {
                        let ghost pre_considered = considered_inter_pairs@;
                        considered_inter_pairs.push(pair);
                        proof {
                            assert(!pre_considered.contains(pair));
                            assert forall|k: int|
                                0 <= k < moves@.len() && (#[trigger] moves@[k]).move_type
                                    is InterRouteExchange
                                implies considered_inter_pairs@.contains(
                                joined_pair(moves@[k].move_type),
                            ) by {
                                lemma_pairs_contains_push(
                                    pre_considered,
                                    pair,
                                    joined_pair(moves@[k].move_type),
                                );
                            }
                        }
                        let (eval_pos1, eval_pos2) = if cycle_id_a == CycleId::Cycle1 {
                            (pos_a, pos_b)
                        } else {
                            (pos_b, pos_a)
                        };
                        if let Some(m) = evaluate_inter_route_exchange(
                            solution,
                            instance,
                            eval_pos1,
                            eval_pos2,
                        ) {
                            if m.delta < 0 {
                                proof {
                                    lemma_delta_lower_bound(*instance, *solution, m.move_type);
                                    assert(move_joins(m.move_type, node_a, node_b));
                                    assert(move_touches(m.move_type, affected_nodes@));
                                    assert(joined_pair(m.move_type) == pair);
                                    assert forall|k: int|
                                        0 <= k < moves@.len() && (#[trigger] moves@[k]).move_type
                                            is InterRouteExchange
                                        implies joined_pair(moves@[k].move_type) != pair by {
                                        assert(pre_considered.contains(
                                            joined_pair(moves@[k].move_type),
                                        ));
                                    }
                                }
                                let ghost pre_moves = moves@;
                                moves.push(m);
                                proof {
                                    assert(considered_inter_pairs@[considered_inter_pairs@.len()
                                        - 1] == pair);
                                    assert forall|k: int|
                                        0 <= k < moves@.len() && (#[trigger] moves@[k]).move_type
                                            is InterRouteExchange
                                        implies considered_inter_pairs@.contains(
                                        joined_pair(moves@[k].move_type),
                                    ) by {
                                        if k < pre_moves.len() {
                                            assert(moves@[k] == pre_moves[k]);
                                        } else {
                                            assert(moves@[k] == m);
                                        }
                                    }
                                }
                            }
                        }
                    }
                    pos_b += 1;
                }
                let same_len = solution.get_cycle(cycle_id_a).len();
                let mut pos_c: usize = 0;
                while pos_c < same_len
                    invariant
                        instance.wf(),
                        solution.valid(instance.n()),
                        pos_c <= same_len,
                        same_len == cycle_of(*solution, cycle_id_a).len(),
                        find_node_spec(*solution, node_a) == Some((cycle_id_a, pos_a as int)),
                        pos_a < cycle_of(*solution, cycle_id_a).len(),
                        cycle_of(*solution, cycle_id_a)[pos_a as int] == node_a,
                        affected_nodes@.contains(node_a),
                        forall|k: int|
                            0 <= k < moves@.len() ==> improving_exact(
                                *instance,
                                *solution,
                                #[trigger] moves@[k],
                            ),
                        forall|k: int|
                            0 <= k < moves@.len() ==> in_candidate_family(
                                self.neighborhood,
                                (#[trigger] moves@[k]).move_type,
                            ),
                        forall|k: int|
                            0 <= k < moves@.len() ==> move_touches(
                                (#[trigger] moves@[k]).move_type,
                                affected_nodes@,
                            ),
                        forall|k: int|
                            0 <= k < moves@.len() && (#[trigger] moves@[k]).move_type is InterRouteExchange
                                ==> considered_inter_pairs@.contains(joined_pair(moves@[k].move_type)),
                        forall|k: int|
                            0 <= k < moves@.len() && (#[trigger] moves@[k]).move_type is IntraRouteVertexExchange
                                ==> considered_vertex_pairs@.contains(joined_pair(moves@[k].move_type)),
                        forall|i: int, j: int|
                            0 <= i < j < moves@.len() && (#[trigger] moves@[i]).move_type is InterRouteExchange
                                && (#[trigger] moves@[j]).move_type is InterRouteExchange ==> joined_pair(
                                moves@[i].move_type,
                            ) != joined_pair(moves@[j].move_type),
                        forall|i: int, j: int|
                            0 <= i < j < moves@.len() && (#[trigger] moves@[i]).move_type is IntraRouteVertexExchange
                                && (#[trigger] moves@[j]).move_type is IntraRouteVertexExchange ==> joined_pair(
                                moves@[i].move_type,
                            ) != joined_pair(moves@[j].move_type),
                    decreases same_len - pos_c,
                {
                    let node_b = solution.get_cycle(cycle_id_a)[pos_c];
                    if node_a != node_b {
                        match self.neighborhood {
                            NeighborhoodType::VertexExchange => {
                                let pair = if node_a < node_b {
                                    (node_a, node_b)
                                } else {
                                    (node_b, node_a)
                                };
                                if !contains_pair(&considered_vertex_pairs, pair.0, pair.1) {
                                    let ghost pre_considered = considered_vertex_pairs@;
                                    considered_vertex_pairs.push(pair);
                                    proof {
                                        assert(!pre_considered.contains(pair));
                                        assert forall|k: int|
                                            0 <= k < moves@.len() && (
                                            #[trigger] moves@[k]).move_type
                                                is IntraRouteVertexExchange
                                            implies considered_vertex_pairs@.contains(
                                            joined_pair(moves@[k].move_type),
                                        ) by {
                                            lemma_pairs_contains_push(
                                                pre_considered,
                                                pair,
                                                joined_pair(moves@[k].move_type),
                                            );
                                        }
                                    }
                                    if let Some(m) = evaluate_intra_route_vertex_exchange(
                                        solution,
                                        instance,
                                        cycle_id_a,
                                        pos_a,
                                        pos_c,
                                    ) {
                                        if m.delta < 0 {
                                            proof {
                                                lemma_delta_lower_bound(
                                                    *instance,
                                                    *solution,
                                                    m.move_type,
                                                );
                                                assert(move_joins(
                                                    m.move_type,
                                                    node_a,
                                                    node_b,
                                                ));
                                                assert(move_touches(
                                                    m.move_type,
                                                    affected_nodes@,
                                                ));
                                                assert(joined_pair(m.move_type) == pair);
                                                assert forall|k: int|
                                                    0 <= k < moves@.len() && (
                                                    #[trigger] moves@[k]).move_type
                                                        is IntraRouteVertexExchange
                                                    implies joined_pair(moves@[k].move_type)
                                                    != pair by {
                                                    assert(pre_considered.contains(
                                                        joined_pair(moves@[k].move_type),
                                                    ));
                                                }
                                            }
                                            let ghost pre_moves = moves@;
                                            moves.push(m);
                                            proof {
                                                assert(considered_vertex_pairs@[
                                                    considered_vertex_pairs@.len() - 1] == pair);
                                                assert forall|k: int|
                                                    0 <= k < moves@.len() && (
                                                    #[trigger] moves@[k]).move_type
                                                        is IntraRouteVertexExchange
                                                    implies considered_vertex_pairs@.contains(
                                                    joined_pair(moves@[k].move_type),
                                                ) by {
                                                    if k < pre_moves.len() {
                                                        assert(moves@[k] == pre_moves[k]);
                                                    } else {
                                                        assert(moves@[k] == m);
                                                    }
                                                }
                                            }
                                        }
                                    }
                                }
                            },
                            NeighborhoodType::EdgeExchange => {
                                let diff = if pos_a > pos_c {
                                    pos_a - pos_c
                                } else {
                                    pos_c - pos_a
                                };
                                if same_len >= 3 && diff != 1 && diff != same_len - 1 {
                                    if let Some(m) = evaluate_intra_route_edge_exchange(
                                        solution,
                                        instance,
                                        cycle_id_a,
                                        pos_a,
                                        pos_c,
                                    ) {
                                        if m.delta < 0 {
                                            proof {
                                                lemma_delta_lower_bound(
                                                    *instance,
                                                    *solution,
                                                    m.move_type,
                                                );
                                                assert(m.move_type == edge_move_at(
                                                    *solution,
                                                    cycle_id_a,
                                                    pos_a as int,
                                                    pos_c as int,
                                                ));
                                                assert(move_touches(
                                                    m.move_type,
                                                    affected_nodes@,
                                                ));
                                            }
                                            moves.push(m);
                                        }
                                    }
                                }
                            },
                            NeighborhoodType::ThreeOpt => {},
                            NeighborhoodType::OrOpt => {},
                        }
                    }
                    pos_c += 1;
                }
            }
            idx += 1;
        }
        moves
    }
}


/// Seq containment survives appending.
proof fn lemma_pairs_contains_push(pairs: Seq<(usize, usize)>, p: (usize, usize), q: (usize, usize))
    requires
        pairs.contains(q),
    ensures
        pairs.push(p).contains(q),
{
    let i = choose|i: int| 0 <= i < pairs.len() && pairs[i] == q;
    assert(pairs.push(p)[i] == q);
}

/// The node-and-neighbors property survives growing the set.
proof fn lemma_holds_neighbors_grows(s: Solution, v: usize, small: Seq<usize>, big: Seq<usize>)
    requires
        holds_node_and_tour_neighbors(s, v, small),
        forall|x: usize| small.contains(x) ==> big.contains(x),
    ensures
        holds_node_and_tour_neighbors(s, v, big),
{
}

/// Whether the pair list already holds `(a, b)`.
fn contains_pair(pairs: &Vec<(usize, usize)>, a: usize, b: usize) -> (r: bool)
    ensures
        r == exists|i: int| 0 <= i < pairs@.len() && (#[trigger] pairs@[i]) == (a, b),
{
    let n = pairs.len();
    let mut i: usize = 0;
    while i < n
        invariant
            i <= n,
            n == pairs@.len(),
            forall|k: int| 0 <= k < i ==> (#[trigger] pairs@[k]) != (a, b),
        decreases n - i,
    {
        let (x, y) = pairs[i];
        if x == a && y == b {
            return true;
        }
        i += 1;
    }
    false
}


impl LocalSearch {
    /// Performs local search starting from the given solution: the engine
    /// owns its copy of the tour pair, refines it until no improving move
    /// remains in the active neighborhood (or cost fails to strictly
    /// decrease, a defensive stop), and returns it.  Cost never increases:
    /// the result is never worse than the starting solution.  Under the
    /// steepest policy the result is a local optimum of the scanned full
    /// neighborhood.
    pub fn solve_from_solution<S: ProgressSink>(
        &self,
        instance: &Instance,
        initial_solution: Solution,
        progress_callback: &mut S,
    ) -> (r: Solution)
        requires
            instance.wf(),
            initial_solution.valid(instance.n()),
            self.variant is CandidateSteepest && instance.n() > 0
                ==> instance.nearest_neighbors@[0]@.len() > 0,
        ensures
            r.valid(instance.n()),
            pair_cost(*instance, r.cycle1@, r.cycle2@) <= pair_cost(
                *instance,
                initial_solution.cycle1@,
                initial_solution.cycle2@,
            ),
            self.variant == SearchVariant::Steepest ==> steepest_local_optimum(
                *instance,
                r,
                self.neighborhood,
            ),
            self.variant is CandidateSteepest ==> candidate_local_optimum(
                *instance,
                r,
                self.neighborhood,
            ),
            self.variant == SearchVariant::Greedy ==> steepest_local_optimum(
                *instance,
                r,
                self.neighborhood,
            ),
            self.variant == SearchVariant::MoveListSteepest ==> steepest_local_optimum(
                *instance,
                r,
                self.neighborhood,
            ) || pair_cost(*instance, r.cycle1@, r.cycle2@) < pair_cost(
                *instance,
                initial_solution.cycle1@,
                initial_solution.cycle2@,
            ),
            self.variant == SearchVariant::MoveListSteepest && !steepest_local_optimum(
                *instance,
                initial_solution,
                self.neighborhood,
            ) ==> pair_cost(*instance, r.cycle1@, r.cycle2@) < pair_cost(
                *instance,
                initial_solution.cycle1@,
                initial_solution.cycle2@,
            ),
            active_optimum(*self, *instance, initial_solution) ==> r.cycle1@
                == initial_solution.cycle1@ && r.cycle2@ == initial_solution.cycle2@,
    {
        self.apply_local_search(instance, initial_solution, progress_callback)
    }

    /// The iterate-evaluate-apply cycle shared by all policies.
    #[verifier::rlimit(100)]
    fn apply_local_search<S: ProgressSink>(
        &self,
        instance: &Instance,
        initial_solution: Solution,
        progress_callback: &mut S,
    ) -> (r: Solution)
        requires
            instance.wf(),
            initial_solution.valid(instance.n()),
            self.variant is CandidateSteepest && instance.n() > 0
                ==> instance.nearest_neighbors@[0]@.len() > 0,
        ensures
            r.valid(instance.n()),
            pair_cost(*instance, r.cycle1@, r.cycle2@) <= pair_cost(
                *instance,
                initial_solution.cycle1@,
                initial_solution.cycle2@,
            ),
            self.variant == SearchVariant::Steepest ==> steepest_local_optimum(
                *instance,
                r,
                self.neighborhood,
            ),
            self.variant is CandidateSteepest ==> candidate_local_optimum(
                *instance,
                r,
                self.neighborhood,
            ),
            self.variant == SearchVariant::Greedy ==> steepest_local_optimum(
                *instance,
                r,
                self.neighborhood,
            ),
            self.variant == SearchVariant::MoveListSteepest ==> steepest_local_optimum(
                *instance,
                r,
                self.neighborhood,
            ) || pair_cost(*instance, r.cycle1@, r.cycle2@) < pair_cost(
                *instance,
                initial_solution.cycle1@,
                initial_solution.cycle2@,
            ),
            self.variant == SearchVariant::MoveListSteepest && !steepest_local_optimum(
                *instance,
                initial_solution,
                self.neighborhood,
            ) ==> pair_cost(*instance, r.cycle1@, r.cycle2@) < pair_cost(
                *instance,
                initial_solution.cycle1@,
                initial_solution.cycle2@,
            ),
            active_optimum(*self, *instance, initial_solution) ==> r.cycle1@
                == initial_solution.cycle1@ && r.cycle2@ == initial_solution.cycle2@,
    {
        let ghost n = instance.n();
        let ghost initial_cost = pair_cost(
            *instance,
            initial_solution.cycle1@,
            initial_solution.cycle2@,
        );
        let ghost cap = MAX_DIMENSION as int * MAX_DISTANCE as int;
        let mut current_solution = initial_solution;
        let ghost init_snap = current_solution;
        proof {
            current_solution.lemma_valid_in_range(n);
        }
        let mut current_cost = current_solution.calculate_cost(instance);
        let mut iteration: usize = 0;

        let mut move_list: Vec<EvaluatedMove> = Vec::new();
        if matches!(self.variant, SearchVariant::MoveListSteepest) {
            move_list = self.generate_all_improving_moves(instance, &current_solution);
            let ghost pre_sort = move_list@;
            sort_moves(&mut move_list);
            proof {
                lemma_multiset_membership(pre_sort, move_list@);
                assert forall|k: int|
                    0 <= k < move_list@.len() implies -cap <= (#[trigger] move_list@[k]).delta < 0
                    && improving_exact(*instance, current_solution, move_list@[k]) by {
                    assert(pre_sort.contains(move_list@[k]));
                    let j = choose|j: int| 0 <= j < pre_sort.len() && pre_sort[j] == move_list@[k];
                    assert(pre_sort[j] == move_list@[k]);
                }
                pre_sort.to_multiset_ensures();
                move_list@.to_multiset_ensures();
                assert(move_list@.len() == pre_sort.len());
            }
        }

        loop
            invariant
                instance.wf(),
                n == instance.n(),
                self.variant is CandidateSteepest && instance.n() > 0
                    ==> instance.nearest_neighbors@[0]@.len() > 0,
                current_solution.valid(n),
                current_cost as int == pair_cost(
                    *instance,
                    current_solution.cycle1@,
                    current_solution.cycle2@,
                ),
                0 <= current_cost as int <= cap,
                current_cost as int <= initial_cost,
                cap == MAX_DIMENSION as int * MAX_DISTANCE as int,
                initial_cost == pair_cost(
                    *instance,
                    initial_solution.cycle1@,
                    initial_solution.cycle2@,
                ),
                forall|k: int|
                    0 <= k < move_list@.len() ==> -cap <= (#[trigger] move_list@[k]).delta < 0,
                init_snap == initial_solution,
                current_cost as int >= initial_cost ==> current_solution == init_snap,
                active_optimum(*self, *instance, init_snap) ==> current_solution == init_snap,
                self.variant == SearchVariant::MoveListSteepest && current_solution == init_snap
                    ==> (forall|k: int|
                    0 <= k < move_list@.len() ==> improving_exact(
                        *instance,
                        current_solution,
                        #[trigger] move_list@[k],
                    )) && (move_list@.len() > 0 ==> !steepest_local_optimum(
                    *instance,
                    current_solution,
                    self.neighborhood,
                )),
            decreases current_cost,
        {
            if iteration < usize::MAX {
                iteration += 1;
            }
            let cost_before_exec = current_cost;
            progress_callback.notify(format_iter_message(iteration, current_cost));

            match self.variant {
                SearchVariant::Steepest => {
                    let current_improving_moves = self.generate_all_improving_moves(
                        instance,
                        &current_solution,
                    );
                    if current_improving_moves.len() == 0 {
                        progress_callback.notify(
                            format_final_message(
                                "Local optimum found or no improving moves.",
                                current_cost,
                            ),
                        );
                        return current_solution;
                    }
                    let best = pick_best(&current_improving_moves);
                    let applied_move = current_improving_moves[best];
                    let ghost pre = current_solution;
                    applied_move.move_type.apply(&mut current_solution);
                    proof {
                        current_solution.lemma_valid_in_range(n);
                    }
                    current_cost = current_cost + applied_move.delta;
                    let real_cost_after_apply = current_solution.calculate_cost(instance);
                    if real_cost_after_apply != current_cost {
                        progress_callback.notify(
                            format_divergence_message(current_cost, real_cost_after_apply),
                        );
                        current_cost = real_cost_after_apply;
                    }
                    if current_cost >= cost_before_exec {
                        progress_callback.notify(
                            format_final_message(
                                "No significant cost improvement.",
                                current_cost,
                            ),
                        );
                        return current_solution;
                    }
                },
                SearchVariant::Greedy => {
                    let mut current_improving_moves = self.generate_all_improving_moves(
                        instance,
                        &current_solution,
                    );
                    let ghost pre_shuffle = current_improving_moves@;
                    shuffle_moves(&mut current_improving_moves);
                    proof {
                        lemma_multiset_membership(pre_shuffle, current_improving_moves@);
                        pre_shuffle.to_multiset_ensures();
                        current_improving_moves@.to_multiset_ensures();
                        assert forall|k: int|
                            0 <= k < current_improving_moves@.len() implies improving_exact(
                            *instance,
                            current_solution,
                            #[trigger] current_improving_moves@[k],
                        ) by {
                            assert(pre_shuffle.contains(current_improving_moves@[k]));
                            let j = choose|j: int|
                                0 <= j < pre_shuffle.len() && pre_shuffle[j]
                                    == current_improving_moves@[k];
                            assert(pre_shuffle[j] == current_improving_moves@[k]);
                        }
                    }
                    if current_improving_moves.len() == 0 {
                        progress_callback.notify(
                            format_final_message(
                                "Local optimum found or no improving moves.",
                                current_cost,
                            ),
                        );
                        return current_solution;
                    }
                    let applied_move = current_improving_moves[0];
                    applied_move.move_type.apply(&mut current_solution);
                    proof {
                        current_solution.lemma_valid_in_range(n);
                    }
                    current_cost = current_cost + applied_move.delta;
                    let real_cost_after_apply = current_solution.calculate_cost(instance);
                    if real_cost_after_apply != current_cost {
                        progress_callback.notify(
                            format_divergence_message(current_cost, real_cost_after_apply),
                        );
                        current_cost = real_cost_after_apply;
                    }
                    if current_cost >= cost_before_exec {
                        progress_callback.notify(
                            format_final_message(
                                "No significant cost improvement.",
                                current_cost,
                            ),
                        );
                        return current_solution;
                    }
                },
                SearchVariant::CandidateSteepest(k) => {
                    let current_improving_moves = self.generate_candidate_moves(
                        instance,
                        &current_solution,
                        k,
                    );
                    if current_improving_moves.len() == 0 {
                        progress_callback.notify(
                            format_final_message(
                                "Local optimum found or no improving moves.",
                                current_cost,
                            ),
                        );
                        return current_solution;
                    }
                    let best = pick_best(&current_improving_moves);
                    let applied_move = current_improving_moves[best];
                    applied_move.move_type.apply(&mut current_solution);
                    proof {
                        current_solution.lemma_valid_in_range(n);
                    }
                    current_cost = current_cost + applied_move.delta;
                    let real_cost_after_apply = current_solution.calculate_cost(instance);
                    if real_cost_after_apply != current_cost {
                        progress_callback.notify(
                            format_divergence_message(current_cost, real_cost_after_apply),
                        );
                        current_cost = real_cost_after_apply;
                    }
                    if current_cost >= cost_before_exec {
                        progress_callback.notify(
                            format_final_message(
                                "No significant cost improvement.",
                                current_cost,
                            ),
                        );
                        return current_solution;
                    }
                },
                SearchVariant::MoveListSteepest => {
                    let list_len = move_list.len();
                    let mut found_index: usize = 0;
                    let mut found = false;
                    let mut scan: usize = 0;
                    while scan < list_len && !found
                        invariant
                            scan <= list_len,
                            list_len == move_list@.len(),
                            found ==> found_index < list_len,
                        decreases (if found { 0int } else { 1int }), list_len - scan,
                    {
                        if move_list[scan].delta < 0 && self.is_move_valid(
                            &current_solution,
                            &move_list[scan].move_type,
                        ) {
                            found_index = scan;
                            found = true;
                        } else {
                            scan += 1;
                        }
                    }
                    if !found {
                        // the worklist has drained; invalidation is conservative, so
                        // rescan the full neighborhood before declaring termination
                        let fresh = self.generate_all_improving_moves(
                            instance,
                            &current_solution,
                        );
                        if fresh.len() == 0 {
                            progress_callback.notify(
                                format_final_message(
                                    "Local optimum found or no improving moves.",
                                    current_cost,
                                ),
                            );
                            proof {
                                assert(steepest_local_optimum(
                                    *instance,
                                    current_solution,
                                    self.neighborhood,
                                ));
                            }
                            return current_solution;
                        }
                        move_list = fresh;
                        let ghost pre_sort = move_list@;
                        sort_moves(&mut move_list);
                        proof {
                            lemma_multiset_membership(pre_sort, move_list@);
                            assert forall|k: int|
                                0 <= k < move_list@.len() implies -cap <= (
                            #[trigger] move_list@[k]).delta < 0 && improving_exact(
                                *instance,
                                current_solution,
                                move_list@[k],
                            ) by {
                                assert(pre_sort.contains(move_list@[k]));
                                let j = choose|j: int|
                                    0 <= j < pre_sort.len() && pre_sort[j] == move_list@[k];
                                assert(pre_sort[j] == move_list@[k]);
                            }
                            pre_sort.to_multiset_ensures();
                            move_list@.to_multiset_ensures();
                            assert(move_list@.len() == pre_sort.len());
                        }
                        found_index = 0;
                    }
                    let applied_move = move_list[found_index];
                    let ghost applied_is_exact = improving_exact(
                        *instance,
                        current_solution,
                        applied_move,
                    );
                    let ghost came_from_snap = current_solution == init_snap;
                    proof {
                        if current_solution == init_snap || !found {
                            assert(applied_is_exact);
                        }
                        if came_from_snap {
                            assert(!steepest_local_optimum(
                                *instance,
                                current_solution,
                                self.neighborhood,
                            ));
                        }
                    }
                    let ghost pre_solution = current_solution;
                    let snapshot = current_solution.duplicate();
                    applied_move.move_type.apply(&mut current_solution);
                    proof {
                        current_solution.lemma_valid_in_range(n);
                    }
                    let tentative = current_cost + applied_move.delta;
                    let real_cost_after_apply = current_solution.calculate_cost(instance);
                    current_cost = if real_cost_after_apply != tentative {
                        progress_callback.notify(
                            format_divergence_message(tentative, real_cost_after_apply),
                        );
                        real_cost_after_apply
                    } else {
                        tentative
                    };

                    move_list.remove(found_index);
                    proof {
                        assert forall|t: int|
                            0 <= t < move_list@.len() implies -cap <= (
                        #[trigger] move_list@[t]).delta < 0 by {}
                    }
                    let affected_nodes = self.identify_affected_nodes(
                        &applied_move.move_type,
                        &current_solution,
                    );
                    let kept_len = move_list.len();
                    let mut kept: Vec<EvaluatedMove> = Vec::new();
                    let mut t: usize = 0;
                    while t < kept_len
                        invariant
                            t <= kept_len,
                            kept_len == move_list@.len(),
                            cap == MAX_DIMENSION as int * MAX_DISTANCE as int,
                            forall|w: int|
                                0 <= w < move_list@.len() ==> -cap <= (
                                #[trigger] move_list@[w]).delta < 0,
                            forall|w: int|
                                0 <= w < kept@.len() ==> -cap <= (#[trigger] kept@[w]).delta < 0,
                        decreases kept_len - t,
                    {
                        let keep_it = !self.move_involves_nodes(
                            &move_list[t].move_type,
                            &affected_nodes,
                        );
                        if keep_it {
                            let m = move_list[t];
                            kept.push(m);
                        }
                        t += 1;
                    }
                    move_list = kept;

                    let new_potential_moves = self.generate_moves_around_nodes(
                        instance,
                        &current_solution,
                        &affected_nodes,
                    );
                    let new_len = new_potential_moves.len();
                    let mut w: usize = 0;
                    while w < new_len
                        invariant
                            instance.wf(),
                            current_solution.valid(n),
                            n == instance.n(),
                            w <= new_len,
                            new_len == new_potential_moves@.len(),
                            cap == MAX_DIMENSION as int * MAX_DISTANCE as int,
                            forall|q: int|
                                0 <= q < new_potential_moves@.len() ==> improving_exact(
                                    *instance,
                                    current_solution,
                                    #[trigger] new_potential_moves@[q],
                                ),
                            forall|q: int|
                                0 <= q < move_list@.len() ==> -cap <= (
                                #[trigger] move_list@[q]).delta < 0,
                        decreases new_len - w,
                    {
                        let new_move = new_potential_moves[w];
                        if new_move.delta < 0 && !contains_move(&move_list, &new_move.move_type) {
                            move_list.push(new_move);
                        }
                        w += 1;
                    }
                    let ghost pre_sort = move_list@;
                    sort_moves(&mut move_list);
                    proof {
                        lemma_multiset_membership(pre_sort, move_list@);
                        assert forall|q: int|
                            0 <= q < move_list@.len() implies -cap <= (
                        #[trigger] move_list@[q]).delta < 0 by {
                            assert(pre_sort.contains(move_list@[q]));
                            let j = choose|j: int|
                                0 <= j < pre_sort.len() && pre_sort[j] == move_list@[q];
                            assert(pre_sort[j] == move_list@[q]);
                        }
                    }

                    if current_cost >= cost_before_exec {
                        proof {
                            if applied_is_exact {
                                assert(applied_move.delta as int == pair_cost(
                                    *instance,
                                    apply_move_spec(applied_move.move_type, pre_solution).0,
                                    apply_move_spec(applied_move.move_type, pre_solution).1,
                                ) - pair_cost(
                                    *instance,
                                    pre_solution.cycle1@,
                                    pre_solution.cycle2@,
                                ));
                                assert(real_cost_after_apply as int == cost_before_exec as int
                                    + applied_move.delta as int);
                                assert(false);
                            }
                            assert(!came_from_snap);
                            assert((cost_before_exec as int) < initial_cost);
                        }
                        current_solution = snapshot;
                        current_cost = cost_before_exec;
                        progress_callback.notify(
                            format_final_message(
                                "No significant cost improvement.",
                                current_cost,
                            ),
                        );
                        return current_solution;
                    }
                },
            }
        }
    }
}

} // verus!
