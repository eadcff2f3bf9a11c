//! The mathematical cost model: the length of a closed tour as a function of
//! the distance oracle and the node sequence, together with the algebraic
//! lemmas (concatenation, reversal, rotation, pointwise update) that every
//! incremental-delta proof rests on.

use vstd::prelude::*;

use crate::instance::Instance;

verus! {

/// Sum of the distances along consecutive pairs of `c`, without the
/// wraparound edge.
pub open spec fn path_cost(inst: Instance, c: Seq<usize>) -> int
    decreases c.len(),
{
    if c.len() < 2 {
        0
    } else {
        path_cost(inst, c.drop_last()) + inst.d(c[c.len() - 2] as int, c[c.len() - 1] as int)
    }
}

/// Total length of the closed tour `c`: consecutive pairs plus the
/// wraparound edge from the last node back to the first.
pub open spec fn cycle_cost(inst: Instance, c: Seq<usize>) -> int {
    if c.len() == 0 {
        0
    } else {
        path_cost(inst, c) + inst.d(c.last() as int, c[0] as int)
    }
}

/// Summed length of the two tours of a solution.
pub open spec fn pair_cost(inst: Instance, c1: Seq<usize>, c2: Seq<usize>) -> int {
    cycle_cost(inst, c1) + cycle_cost(inst, c2)
}

/// Every node id in `c` is a city of an instance with `n` cities.
pub open spec fn in_range(c: Seq<usize>, n: int) -> bool {
    forall|i: int| 0 <= i < c.len() ==> (#[trigger] c[i]) < n
}

/// A subrange of an in-range sequence is in range.
pub proof fn lemma_in_range_subrange(c: Seq<usize>, n: int, i: int, j: int)
    requires
        in_range(c, n),
        0 <= i <= j <= c.len(),
    ensures
        in_range(c.subrange(i, j), n),
{
    assert forall|k: int| 0 <= k < c.subrange(i, j).len() implies (#[trigger] c.subrange(i, j)[k])
        < n by {
        assert(c.subrange(i, j)[k] == c[i + k]);
    }
}

/// A concatenation of in-range sequences is in range.
pub proof fn lemma_in_range_concat(a: Seq<usize>, b: Seq<usize>, n: int)
    requires
        in_range(a, n),
        in_range(b, n),
    ensures
        in_range(a + b, n),
{
    assert forall|k: int| 0 <= k < (a + b).len() implies (#[trigger] (a + b)[k]) < n by {
        if k < a.len() {
            assert((a + b)[k] == a[k]);
        } else {
            assert((a + b)[k] == b[k - a.len()]);
        }
    }
}

/// Path cost splits over concatenation, with one joining edge when both
/// parts are non-empty.
pub proof fn lemma_path_concat(inst: Instance, a: Seq<usize>, b: Seq<usize>)
    ensures
        path_cost(inst, a + b) == path_cost(inst, a) + path_cost(inst, b) + if a.len() > 0
            && b.len() > 0 {
            inst.d(a.last() as int, b[0] as int)
        } else {
            0
        },
    decreases b.len(),
{
    if b.len() == 0 {
        assert(a + b =~= a);
    } else if a.len() == 0 {
        assert(a + b =~= b);
    } else if b.len() == 1 {
        assert((a + b).drop_last() =~= a);
        assert((a + b).last() == b[0]);
        assert((a + b)[(a + b).len() - 2] == a.last());
    } else {
        lemma_path_concat(inst, a, b.drop_last());
        assert((a + b).drop_last() =~= a + b.drop_last());
        assert((a + b)[(a + b).len() - 2] == b[b.len() - 2]);
    }
}

/// With a symmetric oracle, reversing a sequence does not change its path
/// cost.
pub proof fn lemma_path_reverse(inst: Instance, c: Seq<usize>)
    requires
        inst.wf(),
        in_range(c, inst.n()),
    ensures
        path_cost(inst, c.reverse()) == path_cost(inst, c),
    decreases c.len(),
{
    if c.len() < 2 {
        if c.len() == 1 {
            assert(c.reverse() =~= c);
        } else {
            assert(c.reverse() =~= c);
        }
    } else {
        let rest = c.drop_first();
        assert(in_range(rest, inst.n()));
        lemma_path_reverse(inst, rest);
        assert(c =~= seq![c[0]] + rest);
        assert(c.reverse() =~= rest.reverse() + seq![c[0]]);
        lemma_path_concat(inst, seq![c[0]], rest);
        lemma_path_concat(inst, rest.reverse(), seq![c[0]]);
        assert(rest.reverse().last() == rest[0]);
        assert(inst.d(rest[0] as int, c[0] as int) == inst.d(c[0] as int, rest[0] as int));
    }
}

/// Cycle cost is invariant under rotation: the tour `x + y` and the tour
/// `y + x` traverse the same circular edges.
pub proof fn lemma_cycle_swap(inst: Instance, x: Seq<usize>, y: Seq<usize>)
    ensures
        cycle_cost(inst, x + y) == cycle_cost(inst, y + x),
{
    if x.len() == 0 {
        assert(x + y =~= y);
        assert(y + x =~= y);
    } else if y.len() == 0 {
        assert(x + y =~= x);
        assert(y + x =~= x);
    } else {
        lemma_path_concat(inst, x, y);
        lemma_path_concat(inst, y, x);
        assert((x + y)[0] == x[0]);
        assert((x + y).last() == y.last());
        assert((y + x)[0] == y[0]);
        assert((y + x).last() == x.last());
    }
}

/// Decomposition of a tour around one distinguished node `m`: the tour
/// `a + [m] + b` costs the path through the other nodes in rotated order
/// `b + a`, plus the two edges attaching `m` to that path's ends.
pub proof fn lemma_cycle_around(inst: Instance, a: Seq<usize>, m: usize, b: Seq<usize>)
    ensures
        cycle_cost(inst, a + seq![m] + b) == {
            let w = b + a;
            if w.len() == 0 {
                inst.d(m as int, m as int)
            } else {
                path_cost(inst, w) + inst.d(m as int, w[0] as int) + inst.d(
                    w.last() as int,
                    m as int,
                )
            }
        },
{
    let w = b + a;
    lemma_cycle_swap(inst, a, seq![m] + b);
    assert(a + seq![m] + b =~= a + (seq![m] + b));
    assert((seq![m] + b) + a =~= seq![m] + w);
    if w.len() == 0 {
        assert(seq![m] + w =~= seq![m]);
        assert(cycle_cost(inst, seq![m]) == inst.d(m as int, m as int));
    } else {
        lemma_path_concat(inst, seq![m], w);
        assert((seq![m] + w)[0] == m);
        assert((seq![m] + w).last() == w.last());
    }
}

/// The central pointwise-update law: replacing the node at position `p` of a
/// tour with `x` changes the cost by exactly the two edges incident to that
/// position.  For a one-node tour both costs are diagonal entries.
pub proof fn lemma_cycle_update(inst: Instance, c: Seq<usize>, p: int, x: usize)
    requires
        0 <= p < c.len(),
    ensures
        c.len() == 1 ==> cycle_cost(inst, c.update(p, x)) == inst.d(x as int, x as int)
            && cycle_cost(inst, c) == inst.d(c[p] as int, c[p] as int),
        c.len() >= 2 ==> cycle_cost(inst, c.update(p, x)) == cycle_cost(inst, c) + inst.d(
            x as int,
            c[(p + 1) % (c.len() as int)] as int,
        ) + inst.d(c[(p - 1 + c.len()) % (c.len() as int)] as int, x as int) - inst.d(
            c[p] as int,
            c[(p + 1) % (c.len() as int)] as int,
        ) - inst.d(c[(p - 1 + c.len()) % (c.len() as int)] as int, c[p] as int),
{
    let n = c.len() as int;
    let a = c.take(p);
    let b = c.skip(p + 1);
    let w = b + a;
    assert(c =~= a + seq![c[p]] + b);
    assert(c.update(p, x) =~= a + seq![x] + b);
    lemma_cycle_around(inst, a, c[p], b);
    lemma_cycle_around(inst, a, x, b);
    if n >= 2 {
        assert(w.len() == n - 1 >= 1);
        if p + 1 < n {
            assert(w[0] == c[p + 1]);
            assert((p + 1) % n == p + 1) by (nonlinear_arith)
                requires 0 <= p + 1 < n;
        } else {
            assert(b.len() == 0);
            assert(w =~= a);
            assert(w[0] == c[0]);
            assert((p + 1) % n == 0) by (nonlinear_arith)
                requires p + 1 == n && n >= 1;
        }
        if p > 0 {
            assert(w.last() == a.last());
            assert(a.last() == c[p - 1]);
            assert((p - 1 + n) % n == p - 1) by (nonlinear_arith)
                requires 0 <= p - 1 < n;
        } else {
            assert(a.len() == 0);
            assert(w =~= b);
            assert(w.last() == c[n - 1]);
            assert((p - 1 + n) % n == n - 1) by (nonlinear_arith)
                requires p == 0 && n >= 1;
        }
    }
}

/// Reversing a leading block changes exactly the two edges that attach the
/// block to the rest of the tour.
pub proof fn lemma_reverse_block_cost(inst: Instance, w: Seq<usize>, r: Seq<usize>)
    requires
        inst.wf(),
        in_range(w, inst.n()),
        in_range(r, inst.n()),
        w.len() >= 1,
        r.len() >= 1,
    ensures
        cycle_cost(inst, w.reverse() + r) == cycle_cost(inst, w + r) + inst.d(
            w[0] as int,
            r[0] as int,
        ) + inst.d(r.last() as int, w.last() as int) - inst.d(w.last() as int, r[0] as int)
            - inst.d(r.last() as int, w[0] as int),
{
    lemma_path_reverse(inst, w);
    lemma_path_concat(inst, w, r);
    lemma_path_concat(inst, w.reverse(), r);
    assert(w.reverse()[0] == w.last());
    assert(w.reverse().last() == w[0]);
    assert((w + r)[0] == w[0]);
    assert((w + r).last() == r.last());
    assert((w.reverse() + r)[0] == w.last());
    assert((w.reverse() + r).last() == r.last());
    assert(inst.d(w[0] as int, r[0] as int) == inst.d(r[0] as int, w[0] as int));
    assert(inst.d(w.last() as int, r[0] as int) == inst.d(r[0] as int, w.last() as int));
}

/// Exchanging the two blocks that follow a fixed head `c` changes exactly
/// the three block-joining edges.
pub proof fn lemma_block_swap_cost(inst: Instance, c: Seq<usize>, x: Seq<usize>, v: Seq<usize>)
    requires
        inst.wf(),
        in_range(c, inst.n()),
        in_range(x, inst.n()),
        in_range(v, inst.n()),
        c.len() >= 1,
        x.len() >= 1,
        v.len() >= 1,
    ensures
        cycle_cost(inst, c + v + x) == cycle_cost(inst, c + x + v) + inst.d(
            c.last() as int,
            v[0] as int,
        ) + inst.d(v.last() as int, x[0] as int) + inst.d(x.last() as int, c[0] as int) - inst.d(
            c.last() as int,
            x[0] as int,
        ) - inst.d(x.last() as int, v[0] as int) - inst.d(v.last() as int, c[0] as int),
{
    lemma_path_concat(inst, c, x);
    lemma_path_concat(inst, c + x, v);
    lemma_path_concat(inst, c, v);
    lemma_path_concat(inst, c + v, x);
    assert((c + x)[0] == c[0]);
    assert((c + x).last() == x.last());
    assert((c + v)[0] == c[0]);
    assert((c + v).last() == v.last());
    assert((c + x + v)[0] == c[0]);
    assert((c + x + v).last() == v.last());
    assert((c + v + x)[0] == c[0]);
    assert((c + v + x).last() == x.last());
}

/// The cost of a tour made of four consecutive blocks, the first three
/// non-empty.
pub proof fn lemma_cycle_concat4(
    inst: Instance,
    p: Seq<usize>,
    x: Seq<usize>,
    y: Seq<usize>,
    t: Seq<usize>,
)
    requires
        p.len() >= 1,
        x.len() >= 1,
        y.len() >= 1,
    ensures
        cycle_cost(inst, p + x + y + t) == path_cost(inst, p) + path_cost(inst, x) + path_cost(
            inst,
            y,
        ) + path_cost(inst, t) + inst.d(p.last() as int, x[0] as int) + inst.d(
            x.last() as int,
            y[0] as int,
        ) + if t.len() > 0 {
            inst.d(y.last() as int, t[0] as int) + inst.d(t.last() as int, p[0] as int)
        } else {
            inst.d(y.last() as int, p[0] as int)
        },
{
    lemma_path_concat(inst, p, x);
    lemma_path_concat(inst, p + x, y);
    lemma_path_concat(inst, p + x + y, t);
    assert((p + x).last() == x.last());
    assert((p + x + y).last() == y.last());
    assert((p + x + y)[0] == p[0]);
    assert((p + x + y + t)[0] == p[0]);
    if t.len() > 0 {
        assert((p + x + y + t).last() == t.last());
    } else {
        assert(p + x + y + t =~= p + x + y);
    }
}

/// Bounds for a path through in-range nodes: at most one maximal edge per
/// hop.
pub proof fn lemma_path_cost_bounds(inst: Instance, c: Seq<usize>)
    requires
        inst.wf(),
        in_range(c, inst.n()),
    ensures
        0 <= path_cost(inst, c),
        c.len() >= 1 ==> path_cost(inst, c) <= (c.len() - 1) * crate::MAX_DISTANCE as int,
    decreases c.len(),
{
    if c.len() >= 2 {
        assert(in_range(c.drop_last(), inst.n()));
        lemma_path_cost_bounds(inst, c.drop_last());
        assert((c.len() - 2) * crate::MAX_DISTANCE as int + crate::MAX_DISTANCE as int == (c.len()
            - 1) * crate::MAX_DISTANCE as int) by (nonlinear_arith);
    }
}

/// Bounds for the cost of a closed tour through in-range nodes.
pub proof fn lemma_cycle_cost_bounds(inst: Instance, c: Seq<usize>)
    requires
        inst.wf(),
        in_range(c, inst.n()),
    ensures
        0 <= cycle_cost(inst, c) <= c.len() * crate::MAX_DISTANCE as int,
{
    lemma_path_cost_bounds(inst, c);
    if c.len() >= 1 {
        assert((c.len() - 1) * crate::MAX_DISTANCE as int + crate::MAX_DISTANCE as int == c.len()
            * crate::MAX_DISTANCE as int) by (nonlinear_arith);
    }
}

/// `lemma_cycle_update` with the incident positions written as the
/// branch-form indices the executable code uses.
pub proof fn lemma_cycle_update_at(inst: Instance, c: Seq<usize>, p: int, x: usize)
    requires
        0 <= p < c.len(),
        2 <= c.len(),
    ensures
        ({
            let n = c.len() as int;
            let prev = c[if p == 0 { n - 1 } else { p - 1 }];
            let next = c[if p + 1 == n { 0 } else { p + 1 }];
            cycle_cost(inst, c.update(p, x)) == cycle_cost(inst, c) + inst.d(
                x as int,
                next as int,
            ) + inst.d(prev as int, x as int) - inst.d(c[p] as int, next as int) - inst.d(
                prev as int,
                c[p] as int,
            )
        }),
{
    let n = c.len() as int;
    lemma_cycle_update(inst, c, p, x);
    if p + 1 < n {
        assert((p + 1) % n == p + 1) by (nonlinear_arith)
            requires 0 <= p + 1 < n;
    } else {
        assert((p + 1) % n == 0) by (nonlinear_arith)
            requires p + 1 == n && n >= 1;
    }
    if p > 0 {
        assert((p - 1 + n) % n == p - 1) by (nonlinear_arith)
            requires 0 <= p - 1 < n;
    } else {
        assert((p - 1 + n) % n == n - 1) by (nonlinear_arith)
            requires p == 0 && n >= 1;
    }
}

/// Updating the only node of a one-node tour with an in-range id leaves the
/// (zero) cost unchanged.
pub proof fn lemma_cycle_update_singleton(inst: Instance, c: Seq<usize>, x: usize)
    requires
        inst.wf(),
        c.len() == 1,
        in_range(c, inst.n()),
        (x as int) < inst.n(),
    ensures
        cycle_cost(inst, c.update(0, x)) == cycle_cost(inst, c),
        cycle_cost(inst, c) == 0,
{
    lemma_cycle_update(inst, c, 0, x);
}

} // verus!
