//! The closed set of structural tour transformations: a tagged variant per
//! move family, the evaluated form carrying an exact cost delta, and the
//! in-place application of a move to a solution.

use vstd::prelude::*;

use crate::solution::Solution;
use crate::solution::cycle_of;
use crate::solution::find_node_spec;
use crate::solution::lemma_pair_valid_multiset;
use crate::solution::pair_valid;

verus! {

/// Which of the two tours of a solution a move refers to.
#[derive(Debug, Clone, Copy, PartialEq, Eq, Hash, Structural)]
pub enum CycleId {
    Cycle1,
    Cycle2,
}

/// One structural transformation of a tour pair.  Each variant carries the
/// node ids or positions needed to validate and to apply it.
#[derive(Debug, Clone, Copy, PartialEq, Eq, Hash, Structural)]
pub enum Move {
    /// Swap node `v1` (in one cycle) with node `v2` (in the other).
    InterRouteExchange { v1: usize, v2: usize },
    /// Swap nodes `v1` and `v2` within `cycle`.
    IntraRouteVertexExchange { v1: usize, v2: usize, cycle: CycleId },
    /// Two-opt: remove edges `(a, b)` and `(c, d)` of `cycle`, add `(a, c)`
    /// and `(b, d)`, reversing the sub-sequence between `b` and `c`.
    IntraRouteEdgeExchange { a: usize, b: usize, c: usize, d: usize, cycle: CycleId },
    /// Three-opt: reconnect the three segments ending at the strictly
    /// increasing positions `pos1 < pos2 < pos3`, using the reconnection
    /// pattern tagged by `case`.
    IntraRoute3Opt { pos1: usize, pos2: usize, pos3: usize, cycle: CycleId, case: u8 },
    /// Or-opt: relocate the chain of `chain_length` nodes starting at
    /// `from_pos` so that it ends up in front of the node currently at
    /// `to_pos`.
    IntraRouteOrOpt { from_pos: usize, chain_length: usize, to_pos: usize, cycle: CycleId },
}

/// A move together with the exact signed change in total tour length that
/// applying it now would cause.
#[derive(Debug, Clone, Copy)]
pub struct EvaluatedMove {
    pub move_type: Move,
    pub delta: i64,
}

/// The two cycles of a solution as a pair of sequences.
pub open spec fn pair_of(s: Solution) -> (Seq<usize>, Seq<usize>) {
    (s.cycle1@, s.cycle2@)
}

/// The pair obtained by replacing the chosen cycle of `s` with `newcy`.
pub open spec fn pair_with(s: Solution, cycle: CycleId, newcy: Seq<usize>) -> (
    Seq<usize>,
    Seq<usize>,
) {
    match cycle {
        CycleId::Cycle1 => (newcy, s.cycle2@),
        CycleId::Cycle2 => (s.cycle1@, newcy),
    }
}

/// Effect of an inter-route exchange: each node is looked up by id; if they
/// sit in different cycles they are swapped by value, otherwise the solution
/// is left unmodified.
pub open spec fn apply_inter_spec(s: Solution, v1: usize, v2: usize) -> (Seq<usize>, Seq<usize>) {
    match (find_node_spec(s, v1), find_node_spec(s, v2)) {
        (Some((CycleId::Cycle1, p1)), Some((CycleId::Cycle2, p2))) => (
            s.cycle1@.update(p1, v2),
            s.cycle2@.update(p2, v1),
        ),
        (Some((CycleId::Cycle2, p1)), Some((CycleId::Cycle1, p2))) => (
            s.cycle1@.update(p2, v1),
            s.cycle2@.update(p1, v2),
        ),
        _ => pair_of(s),
    }
}

/// Effect of an intra-route vertex exchange: both nodes must be found in the
/// named cycle, and are swapped by position; otherwise no change.
pub open spec fn apply_vertex_spec(s: Solution, v1: usize, v2: usize, cycle: CycleId) -> (
    Seq<usize>,
    Seq<usize>,
) {
    match (find_node_spec(s, v1), find_node_spec(s, v2)) {
        (Some((c1, p1)), Some((c2, p2))) => if c1 == cycle && c2 == cycle {
            let cy = cycle_of(s, cycle);
            pair_with(s, cycle, cy.update(p1, cy[p2]).update(p2, cy[p1]))
        } else {
            pair_of(s)
        },
        _ => pair_of(s),
    }
}

/// The cycle with its circular window from position `start` to position
/// `end` (inclusive, possibly wrapping past the sequence boundary) reversed
/// in place.
pub open spec fn reverse_window(cy: Seq<usize>, start: int, end: int) -> Seq<usize> {
    if start <= end {
        cy.take(start) + cy.subrange(start, end + 1).reverse() + cy.skip(end + 1)
    } else {
        let r = (cy.skip(start) + cy.take(end + 1)).reverse();
        r.skip(cy.len() - start) + cy.subrange(end + 1, start) + r.take(cy.len() - start)
    }
}

/// Effect of an edge exchange: nodes `b` and `c` are looked up in the named
/// cycle, the window between them is oriented so that its boundary edges are
/// `(a, b)` and `(c, d)`, and that window is reversed; if neither
/// orientation matches the stored endpoints, no change.
pub open spec fn apply_edge_spec(
    s: Solution,
    a: usize,
    b: usize,
    c: usize,
    d: usize,
    cycle: CycleId,
) -> (Seq<usize>, Seq<usize>) {
    let cy = cycle_of(s, cycle);
    let n = cy.len() as int;
    match (find_node_spec(s, b), find_node_spec(s, c)) {
        (Some((cb, pb)), Some((cc, pc))) => if cb == cycle && cc == cycle && n >= 2 && pb != pc {
            let prev_b = cy[if pb == 0 { n - 1 } else { pb - 1 }];
            let next_b = cy[if pb + 1 == n { 0 } else { pb + 1 }];
            let prev_c = cy[if pc == 0 { n - 1 } else { pc - 1 }];
            let next_c = cy[if pc + 1 == n { 0 } else { pc + 1 }];
            if prev_b == a && next_c == d {
                pair_with(s, cycle, reverse_window(cy, pb, pc))
            } else if prev_c == a && next_b == d {
                pair_with(s, cycle, reverse_window(cy, pc, pb))
            } else {
                pair_of(s)
            }
        } else {
            pair_of(s)
        },
        _ => pair_of(s),
    }
}

/// The four three-opt reconnection patterns, over the segments
/// `p = cy[..=pos1]`, `s1 = cy[pos1+1..=pos2]`, `s2 = cy[pos2+1..=pos3]`,
/// `t = cy[pos3+1..]`.
pub open spec fn three_opt_rearranged(
    cy: Seq<usize>,
    pos1: int,
    pos2: int,
    pos3: int,
    case: u8,
) -> Seq<usize> {
    let p = cy.take(pos1 + 1);
    let s1 = cy.subrange(pos1 + 1, pos2 + 1);
    let s2 = cy.subrange(pos2 + 1, pos3 + 1);
    let t = cy.skip(pos3 + 1);
    if case == 1 {
        p + s1.reverse() + s2.reverse() + t
    } else if case == 2 {
        p + s2.reverse() + s1 + t
    } else if case == 3 {
        p + s2 + s1 + t
    } else {
        p + s2 + s1.reverse() + t
    }
}

/// Effect of a three-opt move: the stored reconnection pattern is replayed
/// on the three segments; structurally impossible positions or an unknown
/// pattern tag leave the solution unmodified.
pub open spec fn apply_three_opt_spec(
    s: Solution,
    pos1: int,
    pos2: int,
    pos3: int,
    cycle: CycleId,
    case: u8,
) -> (Seq<usize>, Seq<usize>) {
    let cy = cycle_of(s, cycle);
    if 0 <= pos1 < pos2 && pos2 < pos3 && pos3 < cy.len() && 1 <= case <= 4 {
        pair_with(s, cycle, three_opt_rearranged(cy, pos1, pos2, pos3, case))
    } else {
        pair_of(s)
    }
}

/// The cycle with the chain `cy[from..from+len]` relocated in front of the
/// node currently at `to`.
pub open spec fn or_opt_rearranged(cy: Seq<usize>, from: int, len: int, to: int) -> Seq<usize> {
    let chain = cy.subrange(from, from + len);
    if to < from {
        cy.take(to) + chain + cy.subrange(to, from) + cy.skip(from + len)
    } else {
        cy.take(from) + cy.subrange(from + len, to) + chain + cy.skip(to)
    }
}

/// Effect of an or-opt move: the chain is removed and reinserted in front of
/// the node at `to_pos`; a request whose chain or target is out of range, or
/// whose target falls inside the chain's own span, leaves the solution
/// unmodified.
pub open spec fn apply_or_opt_spec(
    s: Solution,
    from: int,
    len: int,
    to: int,
    cycle: CycleId,
) -> (Seq<usize>, Seq<usize>) {
    let cy = cycle_of(s, cycle);
    if 1 <= len && from >= 0 && from + len <= cy.len() && 0 <= to < cy.len() && (to < from || to
        > from + len) {
        pair_with(s, cycle, or_opt_rearranged(cy, from, len, to))
    } else {
        pair_of(s)
    }
}

/// Effect of applying any move to a solution, as a pure function of the
/// move and the tour pair.
pub open spec fn apply_move_spec(m: Move, s: Solution) -> (Seq<usize>, Seq<usize>) {
    match m {
        Move::InterRouteExchange { v1, v2 } => apply_inter_spec(s, v1, v2),
        Move::IntraRouteVertexExchange { v1, v2, cycle } => apply_vertex_spec(s, v1, v2, cycle),
        Move::IntraRouteEdgeExchange { a, b, c, d, cycle } => apply_edge_spec(s, a, b, c, d, cycle),
        Move::IntraRoute3Opt { pos1, pos2, pos3, cycle, case } => apply_three_opt_spec(
            s,
            pos1 as int,
            pos2 as int,
            pos3 as int,
            cycle,
            case,
        ),
        Move::IntraRouteOrOpt { from_pos, chain_length, to_pos, cycle } => apply_or_opt_spec(
            s,
            from_pos as int,
            chain_length as int,
            to_pos as int,
            cycle,
        ),
    }
}


/// The node multiset of a swap of two positions is unchanged.
proof fn lemma_ms_swap(cy: Seq<usize>, i: int, j: int)
    requires
        0 <= i < cy.len(),
        0 <= j < cy.len(),
    ensures
        cy.update(i, cy[j]).update(j, cy[i]).to_multiset() == cy.to_multiset(),
{
    broadcast use vstd::seq_lib::lemma_multiset_commutative;
    broadcast use vstd::multiset::group_multiset_axioms;

    if i == j {
        assert(cy.update(i, cy[j]).update(j, cy[i]) =~= cy);
    } else {
        let p = if i < j { i } else { j };
        let q = if i < j { j } else { i };
        let upd = cy.update(i, cy[j]).update(j, cy[i]);
        assert(cy =~= cy.take(p) + seq![cy[p]] + cy.subrange(p + 1, q) + seq![cy[q]] + cy.skip(
            q + 1,
        ));
        assert(upd =~= cy.take(p) + seq![cy[q]] + cy.subrange(p + 1, q) + seq![cy[p]] + cy.skip(
            q + 1,
        ));
        assert(upd.to_multiset() =~= cy.to_multiset());
    }
}

/// The node multiset of the two cycles together is unchanged by an
/// inter-route value swap at in-range positions.
proof fn lemma_ms_cross_swap(c1: Seq<usize>, c2: Seq<usize>, p1: int, p2: int)
    requires
        0 <= p1 < c1.len(),
        0 <= p2 < c2.len(),
    ensures
        (c1.update(p1, c2[p2]) + c2.update(p2, c1[p1])).to_multiset() == (c1 + c2).to_multiset(),
{
    broadcast use vstd::seq_lib::lemma_multiset_commutative;
    broadcast use vstd::multiset::group_multiset_axioms;

    let u = c1[p1];
    let v = c2[p2];
    assert(c1 =~= c1.take(p1) + seq![u] + c1.skip(p1 + 1));
    assert(c2 =~= c2.take(p2) + seq![v] + c2.skip(p2 + 1));
    assert(c1.update(p1, v) =~= c1.take(p1) + seq![v] + c1.skip(p1 + 1));
    assert(c2.update(p2, u) =~= c2.take(p2) + seq![u] + c2.skip(p2 + 1));
    assert((c1.update(p1, v) + c2.update(p2, u)).to_multiset() =~= (c1 + c2).to_multiset());
}

/// Reversing a circular window does not change the node multiset.
proof fn lemma_ms_reverse_window(cy: Seq<usize>, start: int, end: int)
    requires
        0 <= start < cy.len(),
        0 <= end < cy.len(),
    ensures
        reverse_window(cy, start, end).to_multiset() == cy.to_multiset(),
{
    broadcast use vstd::seq_lib::lemma_multiset_commutative;
    broadcast use vstd::multiset::group_multiset_axioms;

    let n = cy.len() as int;
    if start <= end {
        let mid = cy.subrange(start, end + 1);
        mid.lemma_reverse_to_multiset();
        assert(cy =~= cy.take(start) + mid + cy.skip(end + 1));
        assert(reverse_window(cy, start, end).to_multiset() =~= cy.to_multiset());
    } else {
        let k = n - start;
        let w = cy.skip(start) + cy.take(end + 1);
        let r = w.reverse();
        let mid = cy.subrange(end + 1, start);
        w.lemma_reverse_to_multiset();
        assert(r =~= r.take(k) + r.skip(k));
        assert(r.to_multiset() == (r.take(k) + r.skip(k)).to_multiset());
        assert((r.skip(k) + mid + r.take(k)).to_multiset() =~= r.to_multiset().add(
            mid.to_multiset(),
        ));
        assert(cy =~= cy.take(end + 1) + mid + cy.skip(start));
        assert(cy.to_multiset() =~= w.to_multiset().add(mid.to_multiset()));
        assert(reverse_window(cy, start, end).to_multiset() =~= cy.to_multiset());
    }
}

/// A three-opt reconnection does not change the node multiset.
proof fn lemma_ms_three_opt(cy: Seq<usize>, pos1: int, pos2: int, pos3: int, case: u8)
    requires
        0 <= pos1 < pos2 < pos3 < cy.len(),
    ensures
        three_opt_rearranged(cy, pos1, pos2, pos3, case).to_multiset() == cy.to_multiset(),
{
    broadcast use vstd::seq_lib::lemma_multiset_commutative;
    broadcast use vstd::multiset::group_multiset_axioms;

    let p = cy.take(pos1 + 1);
    let s1 = cy.subrange(pos1 + 1, pos2 + 1);
    let s2 = cy.subrange(pos2 + 1, pos3 + 1);
    let t = cy.skip(pos3 + 1);
    s1.lemma_reverse_to_multiset();
    s2.lemma_reverse_to_multiset();
    assert(cy =~= p + s1 + s2 + t);
    assert(three_opt_rearranged(cy, pos1, pos2, pos3, case).to_multiset() =~= cy.to_multiset());
}

/// An or-opt chain relocation does not change the node multiset.
proof fn lemma_ms_or_opt(cy: Seq<usize>, from: int, len: int, to: int)
    requires
        1 <= len,
        0 <= from,
        from + len <= cy.len(),
        0 <= to < cy.len(),
        to < from || to > from + len,
    ensures
        or_opt_rearranged(cy, from, len, to).to_multiset() == cy.to_multiset(),
{
    broadcast use vstd::seq_lib::lemma_multiset_commutative;
    broadcast use vstd::multiset::group_multiset_axioms;

    let chain = cy.subrange(from, from + len);
    if to < from {
        assert(cy =~= cy.take(to) + cy.subrange(to, from) + chain + cy.skip(from + len));
        assert(or_opt_rearranged(cy, from, len, to).to_multiset() =~= cy.to_multiset());
    } else {
        assert(cy =~= cy.take(from) + chain + cy.subrange(from + len, to) + cy.skip(to));
        assert(or_opt_rearranged(cy, from, len, to).to_multiset() =~= cy.to_multiset());
    }
}

/// Replacing one cycle with a node-multiset-preserving rearrangement
/// preserves the node multiset of the pair.
proof fn lemma_ms_pair_with(s: Solution, cycle: CycleId, newcy: Seq<usize>)
    requires
        newcy.to_multiset() == cycle_of(s, cycle).to_multiset(),
    ensures
        (pair_with(s, cycle, newcy).0 + pair_with(s, cycle, newcy).1).to_multiset() == (s.cycle1@
            + s.cycle2@).to_multiset(),
{
    broadcast use vstd::seq_lib::lemma_multiset_commutative;
    broadcast use vstd::multiset::group_multiset_axioms;

    match cycle {
        CycleId::Cycle1 => {
            assert((newcy + s.cycle2@).to_multiset() =~= (s.cycle1@ + s.cycle2@).to_multiset());
        },
        CycleId::Cycle2 => {
            assert((s.cycle1@ + newcy).to_multiset() =~= (s.cycle1@ + s.cycle2@).to_multiset());
        },
    }
}

/// Applying any move preserves the node multiset of the tour pair.
pub proof fn lemma_apply_preserves_multiset(m: Move, s: Solution)
    ensures
        (apply_move_spec(m, s).0 + apply_move_spec(m, s).1).to_multiset() == (s.cycle1@
            + s.cycle2@).to_multiset(),
{
    broadcast use vstd::seq_lib::lemma_multiset_commutative;
    broadcast use vstd::multiset::group_multiset_axioms;

    match m {
        Move::InterRouteExchange { v1, v2 } => {
            s.cycle1@.index_of_first_ensures(v1);
            s.cycle2@.index_of_first_ensures(v1);
            s.cycle1@.index_of_first_ensures(v2);
            s.cycle2@.index_of_first_ensures(v2);
            match (find_node_spec(s, v1), find_node_spec(s, v2)) {
                (Some((CycleId::Cycle1, p1)), Some((CycleId::Cycle2, p2))) => {
                    lemma_ms_cross_swap(s.cycle1@, s.cycle2@, p1, p2);
                },
                (Some((CycleId::Cycle2, p1)), Some((CycleId::Cycle1, p2))) => {
                    lemma_ms_cross_swap(s.cycle1@, s.cycle2@, p2, p1);
                },
                _ => {},
            }
        },
        Move::IntraRouteVertexExchange { v1, v2, cycle } => {
            s.cycle1@.index_of_first_ensures(v1);
            s.cycle2@.index_of_first_ensures(v1);
            s.cycle1@.index_of_first_ensures(v2);
            s.cycle2@.index_of_first_ensures(v2);
            match (find_node_spec(s, v1), find_node_spec(s, v2)) {
                (Some((c1, p1)), Some((c2, p2))) => {
                    if c1 == cycle && c2 == cycle {
                        let cy = cycle_of(s, cycle);
                        lemma_ms_swap(cy, p1, p2);
                        lemma_ms_pair_with(s, cycle, cy.update(p1, cy[p2]).update(p2, cy[p1]));
                    }
                },
                _ => {},
            }
        },
        Move::IntraRouteEdgeExchange { a, b, c, d, cycle } => {
            s.cycle1@.index_of_first_ensures(b);
            s.cycle2@.index_of_first_ensures(b);
            s.cycle1@.index_of_first_ensures(c);
            s.cycle2@.index_of_first_ensures(c);
            let cy = cycle_of(s, cycle);
            match (find_node_spec(s, b), find_node_spec(s, c)) {
                (Some((cb, pb)), Some((cc, pc))) => {
                    if cb == cycle && cc == cycle && cy.len() >= 2 && pb != pc {
                        lemma_ms_reverse_window(cy, pb, pc);
                        lemma_ms_reverse_window(cy, pc, pb);
                        lemma_ms_pair_with(s, cycle, reverse_window(cy, pb, pc));
                        lemma_ms_pair_with(s, cycle, reverse_window(cy, pc, pb));
                    }
                },
                _ => {},
            }
        },
        Move::IntraRoute3Opt { pos1, pos2, pos3, cycle, case } => {
            let cy = cycle_of(s, cycle);
            if 0 <= pos1 < pos2 && pos2 < pos3 && pos3 < cy.len() && 1 <= case <= 4 {
                lemma_ms_three_opt(cy, pos1 as int, pos2 as int, pos3 as int, case);
                lemma_ms_pair_with(
                    s,
                    cycle,
                    three_opt_rearranged(cy, pos1 as int, pos2 as int, pos3 as int, case),
                );
            }
        },
        Move::IntraRouteOrOpt { from_pos, chain_length, to_pos, cycle } => {
            let cy = cycle_of(s, cycle);
            let from = from_pos as int;
            let len = chain_length as int;
            let to = to_pos as int;
            if 1 <= len && from + len <= cy.len() && 0 <= to < cy.len() && (to < from || to > from
                + len) {
                lemma_ms_or_opt(cy, from, len, to);
                lemma_ms_pair_with(s, cycle, or_opt_rearranged(cy, from, len, to));
            }
        },
    }
}

/// Applying any move to a valid tour pair yields a valid tour pair: every
/// move family preserves the partition invariant.
pub proof fn lemma_apply_preserves_partition(m: Move, s: Solution, n: int)
    requires
        s.valid(n),
    ensures
        pair_valid(apply_move_spec(m, s).0, apply_move_spec(m, s).1, n),
{
    lemma_apply_preserves_multiset(m, s);
    lemma_pair_valid_multiset(
        s.cycle1@,
        s.cycle2@,
        apply_move_spec(m, s).0,
        apply_move_spec(m, s).1,
        n,
    );
}

/// Appends `src[lo..hi]` to `dst`.
fn push_range(dst: &mut Vec<usize>, src: &Vec<usize>, lo: usize, hi: usize)
    requires
        lo <= hi <= src@.len(),
    ensures
        final(dst)@ == old(dst)@ + src@.subrange(lo as int, hi as int),
{
    let mut i = lo;
    while i < hi
        invariant
            lo <= i <= hi <= src@.len(),
            dst@ == old(dst)@ + src@.subrange(lo as int, i as int),
        decreases hi - i,
    {
        let x = src[i];
        dst.push(x);
        proof {
            assert(old(dst)@ + src@.subrange(lo as int, i + 1) =~= (old(dst)@ + src@.subrange(
                lo as int,
                i as int,
            )).push(src@[i as int]));
        }
        i += 1;
    }
    proof {
        assert(dst@ =~= old(dst)@ + src@.subrange(lo as int, hi as int));
    }
}

/// Appends `src[lo..hi]`, reversed, to `dst`.
fn push_range_rev(dst: &mut Vec<usize>, src: &Vec<usize>, lo: usize, hi: usize)
    requires
        lo <= hi <= src@.len(),
    ensures
        final(dst)@ == old(dst)@ + src@.subrange(lo as int, hi as int).reverse(),
{
    let mut i = hi;
    while i > lo
        invariant
            lo <= i <= hi <= src@.len(),
            dst@.len() == old(dst)@.len() + (hi - i),
            dst@ == old(dst)@ + src@.subrange(i as int, hi as int).reverse(),
        decreases i - lo,
    {
        i -= 1;
        let x = src[i];
        dst.push(x);
        proof {
            let a = src@.subrange(i as int, hi as int).reverse();
            let b = src@.subrange(i + 1, hi as int).reverse();
            assert(a =~= b.push(src@[i as int]));
            assert(dst@ =~= old(dst)@ + a);
        }
    }
    proof {
        assert(dst@ =~= old(dst)@ + src@.subrange(lo as int, hi as int).reverse());
    }
}

impl Move {
    /// Applies this move to `solution` in place.  A move whose stored nodes
    /// or positions no longer match the solution's structure degrades to a
    /// silent no-op; this function never panics.
    pub fn apply(&self, solution: &mut Solution)
        ensures
            final(solution).cycle1@ == apply_move_spec(*self, *old(solution)).0,
            final(solution).cycle2@ == apply_move_spec(*self, *old(solution)).1,
            forall|n: int| #[trigger] old(solution).valid(n) ==> final(solution).valid(n),
    {
        let ghost m = *self;
        let ghost s0 = *old(solution);
        match self {
            Move::InterRouteExchange { v1, v2 } => {
                apply_inter(solution, *v1, *v2);
            },
            Move::IntraRouteVertexExchange { v1, v2, cycle } => {
                apply_vertex(solution, *v1, *v2, *cycle);
            },
            Move::IntraRouteEdgeExchange { a, b, c, d, cycle } => {
                apply_edge(solution, *a, *b, *c, *d, *cycle);
            },
            Move::IntraRoute3Opt { pos1, pos2, pos3, cycle, case } => {
                apply_three_opt(solution, *pos1, *pos2, *pos3, *cycle, *case);
            },
            Move::IntraRouteOrOpt { from_pos, chain_length, to_pos, cycle } => {
                apply_or_opt(solution, *from_pos, *chain_length, *to_pos, *cycle);
            },
        }
        proof {
            assert forall|n: int| #[trigger] s0.valid(n) implies solution.valid(n) by {
                lemma_apply_preserves_partition(m, s0, n);
            }
        }
    }
}

fn apply_inter(solution: &mut Solution, v1: usize, v2: usize)
    ensures
        final(solution).cycle1@ == apply_inter_spec(*old(solution), v1, v2).0,
        final(solution).cycle2@ == apply_inter_spec(*old(solution), v1, v2).1,
{
    let pos1_opt = solution.find_node(v1);
    let pos2_opt = solution.find_node(v2);
    if let (Some((CycleId::Cycle1, pos1)), Some((CycleId::Cycle2, pos2))) = (pos1_opt, pos2_opt) {
        solution.cycle1[pos1] = v2;
        solution.cycle2[pos2] = v1;
    } else if let (Some((CycleId::Cycle2, pos1)), Some((CycleId::Cycle1, pos2))) = (
        pos1_opt,
        pos2_opt,
    ) {
        solution.cycle2[pos1] = v2;
        solution.cycle1[pos2] = v1;
    }
}

fn apply_vertex(solution: &mut Solution, v1: usize, v2: usize, cycle: CycleId)
    ensures
        final(solution).cycle1@ == apply_vertex_spec(*old(solution), v1, v2, cycle).0,
        final(solution).cycle2@ == apply_vertex_spec(*old(solution), v1, v2, cycle).1,
{
    let info1 = solution.find_node(v1);
    let info2 = solution.find_node(v2);
    if let (Some((c1, pos1)), Some((c2, pos2))) = (info1, info2) {
        if c1 == cycle && c2 == cycle {
            let cycle_vec = solution.get_cycle_mut(cycle);
            let x = cycle_vec[pos1];
            let y = cycle_vec[pos2];
            cycle_vec[pos1] = y;
            cycle_vec[pos2] = x;
        }
    }
}

fn apply_edge(solution: &mut Solution, a: usize, b: usize, c: usize, d: usize, cycle: CycleId)
    ensures
        final(solution).cycle1@ == apply_edge_spec(*old(solution), a, b, c, d, cycle).0,
        final(solution).cycle2@ == apply_edge_spec(*old(solution), a, b, c, d, cycle).1,
{
    let info_b = solution.find_node(b);
    let info_c = solution.find_node(c);
    if let (Some((cb, pos_b)), Some((cc, pos_c))) = (info_b, info_c) {
        if cb == cycle && cc == cycle {
            let n = solution.get_cycle(cycle).len();
            if n >= 2 && pos_b != pos_c {
                let cy = solution.get_cycle(cycle);
                let prev_b = cy[if pos_b == 0 {
                    n - 1
                } else {
                    pos_b - 1
                }];
                let next_b = cy[if pos_b + 1 == n {
                    0
                } else {
                    pos_b + 1
                }];
                let prev_c = cy[if pos_c == 0 {
                    n - 1
                } else {
                    pos_c - 1
                }];
                let next_c = cy[if pos_c + 1 == n {
                    0
                } else {
                    pos_c + 1
                }];
                if prev_b == a && next_c == d {
                    let cycle_vec = solution.get_cycle_mut(cycle);
                    reverse_window_exec(cycle_vec, pos_b, pos_c);
                } else if prev_c == a && next_b == d {
                    let cycle_vec = solution.get_cycle_mut(cycle);
                    reverse_window_exec(cycle_vec, pos_c, pos_b);
                }
            }
        }
    }
}

fn apply_three_opt(
    solution: &mut Solution,
    pos1: usize,
    pos2: usize,
    pos3: usize,
    cycle: CycleId,
    case: u8,
)
    ensures
        final(solution).cycle1@ == apply_three_opt_spec(
            *old(solution),
            pos1 as int,
            pos2 as int,
            pos3 as int,
            cycle,
            case,
        ).0,
        final(solution).cycle2@ == apply_three_opt_spec(
            *old(solution),
            pos1 as int,
            pos2 as int,
            pos3 as int,
            cycle,
            case,
        ).1,
{
    let n = solution.get_cycle(cycle).len();
    if pos1 < pos2 && pos2 < pos3 && pos3 < n && 1 <= case && case <= 4 {
        let ghost cyg = cycle_of(*solution, cycle);
        let mut new_cycle: Vec<usize> = Vec::new();
        {
            let cy = solution.get_cycle(cycle);
            push_range(&mut new_cycle, cy, 0, pos1 + 1);
            if case == 1 {
                push_range_rev(&mut new_cycle, cy, pos1 + 1, pos2 + 1);
                push_range_rev(&mut new_cycle, cy, pos2 + 1, pos3 + 1);
            } else if case == 2 {
                push_range_rev(&mut new_cycle, cy, pos2 + 1, pos3 + 1);
                push_range(&mut new_cycle, cy, pos1 + 1, pos2 + 1);
            } else if case == 3 {
                push_range(&mut new_cycle, cy, pos2 + 1, pos3 + 1);
                push_range(&mut new_cycle, cy, pos1 + 1, pos2 + 1);
            } else {
                push_range(&mut new_cycle, cy, pos2 + 1, pos3 + 1);
                push_range_rev(&mut new_cycle, cy, pos1 + 1, pos2 + 1);
            }
            push_range(&mut new_cycle, cy, pos3 + 1, n);
        }
        proof {
            assert(new_cycle@ =~= three_opt_rearranged(
                cyg,
                pos1 as int,
                pos2 as int,
                pos3 as int,
                case,
            ));
        }
        let cycle_vec = solution.get_cycle_mut(cycle);
        *cycle_vec = new_cycle;
    }
}

fn apply_or_opt(
    solution: &mut Solution,
    from_pos: usize,
    chain_length: usize,
    to_pos: usize,
    cycle: CycleId,
)
    ensures
        final(solution).cycle1@ == apply_or_opt_spec(
            *old(solution),
            from_pos as int,
            chain_length as int,
            to_pos as int,
            cycle,
        ).0,
        final(solution).cycle2@ == apply_or_opt_spec(
            *old(solution),
            from_pos as int,
            chain_length as int,
            to_pos as int,
            cycle,
        ).1,
{
    let n = solution.get_cycle(cycle).len();
    if 1 <= chain_length && from_pos <= n && n - from_pos >= chain_length && to_pos < n && (to_pos
        < from_pos || to_pos > from_pos + chain_length) {
        let ghost cyg = cycle_of(*solution, cycle);
        let mut new_cycle: Vec<usize> = Vec::new();
        {
            let cy = solution.get_cycle(cycle);
            if to_pos < from_pos {
                push_range(&mut new_cycle, cy, 0, to_pos);
                push_range(&mut new_cycle, cy, from_pos, from_pos + chain_length);
                push_range(&mut new_cycle, cy, to_pos, from_pos);
                push_range(&mut new_cycle, cy, from_pos + chain_length, n);
            } else {
                push_range(&mut new_cycle, cy, 0, from_pos);
                push_range(&mut new_cycle, cy, from_pos + chain_length, to_pos);
                push_range(&mut new_cycle, cy, from_pos, from_pos + chain_length);
                push_range(&mut new_cycle, cy, to_pos, n);
            }
        }
        proof {
            assert(new_cycle@ =~= or_opt_rearranged(
                cyg,
                from_pos as int,
                chain_length as int,
                to_pos as int,
            ));
        }
        let cycle_vec = solution.get_cycle_mut(cycle);
        *cycle_vec = new_cycle;
    }
}

/// Reverses the circular window of `cy` from `start` to `end` inclusive.
fn reverse_window_exec(cy: &mut Vec<usize>, start: usize, end: usize)
    requires
        start < old(cy)@.len(),
        end < old(cy)@.len(),
    ensures
        final(cy)@ == reverse_window(old(cy)@, start as int, end as int),
{
    let n = cy.len();
    if start <= end {
        let mut new_cycle: Vec<usize> = Vec::new();
        push_range(&mut new_cycle, cy, 0, start);
        push_range_rev(&mut new_cycle, cy, start, end + 1);
        push_range(&mut new_cycle, cy, end + 1, n);
        proof {
            assert(new_cycle@ =~= reverse_window(cy@, start as int, end as int));
        }
        *cy = new_cycle;
    } else {
        let mut win: Vec<usize> = Vec::new();
        push_range(&mut win, cy, start, n);
        push_range(&mut win, cy, 0, end + 1);
        let len_w = win.len();
        let mut rw: Vec<usize> = Vec::new();
        push_range_rev(&mut rw, &win, 0, len_w);
        proof {
            assert(win@ =~= cy@.skip(start as int) + cy@.take(end + 1));
            assert(win@.subrange(0, len_w as int) =~= win@);
            assert(rw@ =~= win@.reverse());
        }
        let mut new_cycle: Vec<usize> = Vec::new();
        push_range(&mut new_cycle, &rw, n - start, len_w);
        push_range(&mut new_cycle, cy, end + 1, start);
        push_range(&mut new_cycle, &rw, 0, n - start);
        proof {
            assert(rw@.subrange(n - start, len_w as int) =~= rw@.skip(n - start));
            assert(rw@.subrange(0, n - start) =~= rw@.take(n - start));
            assert(new_cycle@ =~= reverse_window(cy@, start as int, end as int));
        }
        *cy = new_cycle;
    }
}

} // verus!
