//! The distance oracle: an immutable city set with a precomputed all-pairs
//! integer distance matrix and an optional per-node k-nearest-neighbor table.

use vstd::prelude::*;

use crate::MAX_DIMENSION;
use crate::MAX_DISTANCE;

verus! {

/// An instance of the two-cycle TSP: `dimension` cities and a symmetric,
/// non-negative integer distance matrix with a zero diagonal.  The
/// nearest-neighbor table starts empty and is filled by a one-time call to
/// `precompute_nearest_neighbors`.
pub struct Instance {
    pub dimension: usize,
    pub distances: Vec<Vec<i64>>,
    pub nearest_neighbors: Vec<Vec<usize>>,
}

impl Instance {
    /// Number of cities, as a mathematical integer.
    pub open spec fn n(self) -> int {
        self.dimension as int
    }

    /// Distance table entry, as a mathematical integer.
    pub open spec fn d(self, i: int, j: int) -> int {
        self.distances@[i]@[j] as int
    }

    /// The distance matrix is square, bounded, symmetric, non-negative and
    /// zero on the diagonal; the neighbor table has one (possibly empty) row
    /// per city.
    pub open spec fn wf(self) -> bool {
        &&& self.n() <= MAX_DIMENSION as int
        &&& self.distances@.len() == self.n()
        &&& forall|i: int|
            0 <= i < self.n() ==> (#[trigger] self.distances@[i])@.len() == self.n()
        &&& forall|i: int, j: int|
            0 <= i < self.n() && 0 <= j < self.n() ==> 0 <= #[trigger] self.d(i, j)
                <= MAX_DISTANCE as int
        &&& forall|i: int, j: int|
            0 <= i < self.n() && 0 <= j < self.n() ==> #[trigger] self.d(i, j) == self.d(j, i)
        &&& forall|i: int| 0 <= i < self.n() ==> #[trigger] self.d(i, i) == 0
        &&& self.nearest_neighbors@.len() == self.n()
        &&& forall|i: int|
            0 <= i < self.n() ==> (#[trigger] self.nearest_neighbors@[i])@.len()
                == self.nearest_neighbors@[0]@.len()
        &&& forall|i: int| 0 <= i < self.n() ==> self.neighbor_row_wf(i)
    }

    /// The neighbor row of city `i` lists distinct other cities in
    /// non-decreasing order of distance from `i`, and no city outside the row
    /// is nearer to `i` than any city in it.
    pub open spec fn neighbor_row_wf(self, i: int) -> bool {
        let row = self.nearest_neighbors@[i]@;
        &&& forall|a: int| 0 <= a < row.len() ==> (#[trigger] row[a]) < self.dimension
        &&& forall|a: int| 0 <= a < row.len() ==> (#[trigger] row[a]) as int != i
        &&& row.no_duplicates()
        &&& forall|a: int, b: int|
            0 <= a < b < row.len() ==> self.d(i, #[trigger] row[a] as int) <= self.d(
                i,
                #[trigger] row[b] as int,
            )
        &&& forall|a: int, j: int|
            0 <= a < row.len() && 0 <= j < self.n() && j != i && !row.contains(j as usize)
                ==> self.d(i, #[trigger] row[a] as int) <= #[trigger] self.d(i, j)
    }

    /// The neighbor table has been populated: every row holds exactly `k`
    /// entries.  (With `0 < k < n`, a populated row is never empty.)
    pub open spec fn neighbors_populated_with(self, k: int) -> bool {
        forall|i: int|
            0 <= i < self.n() ==> (#[trigger] self.nearest_neighbors@[i])@.len() == k
    }

    /// The acceptance condition of `new`: a square matrix of at most
    /// `MAX_DIMENSION` rows whose entries lie in `0..=MAX_DISTANCE`, are
    /// symmetric, and are zero on the diagonal.
    pub open spec fn matrix_ok(distances: Seq<Vec<i64>>) -> bool {
        let n = distances.len() as int;
        &&& n <= MAX_DIMENSION as int
        &&& forall|i: int| 0 <= i < n ==> (#[trigger] distances[i])@.len() == n
        &&& forall|i: int, j: int|
            0 <= i < n && 0 <= j < n ==> 0 <= (#[trigger] distances[i]@[j]) as int
                <= MAX_DISTANCE as int
        &&& forall|i: int, j: int|
            0 <= i < n && 0 <= j < n ==> (#[trigger] distances[i]@[j]) as int
                == distances[j]@[i] as int
        &&& forall|i: int| 0 <= i < n ==> (#[trigger] distances[i]@[i]) as int == 0
    }

    /// Builds an instance from a distance matrix, validating the oracle
    /// invariant; rejects a matrix that is not square, too large, out of
    /// bounds, asymmetric, or nonzero on the diagonal.
    pub fn new(distances: Vec<Vec<i64>>) -> (r: Option<Instance>)
        ensures
            r is Some <==> Instance::matrix_ok(distances@),
            r matches Some(inst) ==> {
                &&& inst.wf()
                &&& inst.distances@ == distances@
                &&& inst.n() == distances@.len()
                &&& forall|i: int|
                    0 <= i < inst.n() ==> (#[trigger] inst.nearest_neighbors@[i])@.len() == 0
            },
    {
        let dimension = distances.len();
        if dimension > MAX_DIMENSION {
            return None;
        }
        let mut i: usize = 0;
        while i < dimension
            invariant
                i <= dimension,
                dimension == distances@.len(),
                forall|p: int| 0 <= p < i ==> (#[trigger] distances@[p])@.len() == dimension,
                forall|p: int, q: int|
                    0 <= p < i && 0 <= q < dimension ==> 0 <= (#[trigger] distances@[p]@[q]) as int
                        <= MAX_DISTANCE as int,
                forall|p: int, q: int|
                    0 <= p < i && 0 <= q < dimension ==> (#[trigger] distances@[p]@[q]) as int
                        == distances@[q]@[p] as int,
                forall|p: int| 0 <= p < i ==> (#[trigger] distances@[p]@[p]) as int == 0,
            decreases dimension - i,
        {
            let row = &distances[i];
            if row.len() != dimension {
                return None;
            }
            let mut j: usize = 0;
            while j < dimension
                invariant
                    j <= dimension,
                    i < dimension,
                    dimension == distances@.len(),
                    distances@[i as int]@.len() == dimension,
                    forall|q: int|
                        0 <= q < j ==> 0 <= (#[trigger] distances@[i as int]@[q]) as int
                            <= MAX_DISTANCE as int,
                    forall|q: int|
                        0 <= q < j ==> (#[trigger] distances@[i as int]@[q]) as int
                            == distances@[q]@[i as int] as int,
                    i < j ==> distances@[i as int]@[i as int] as int == 0,
                decreases dimension - j,
            {
                let v = distances[i][j];
                if v < 0 || v > MAX_DISTANCE {
                    return None;
                }
                if j == i && v != 0 {
                    return None;
                }
                if distances[j].len() != dimension {
                    return None;
                }
                if distances[j][i] != v {
                    return None;
                }
                j += 1;
            }
            i += 1;
        }
        let mut nearest_neighbors: Vec<Vec<usize>> = Vec::new();
        let mut t: usize = 0;
        while t < dimension
            invariant
                t <= dimension,
                nearest_neighbors@.len() == t,
                forall|p: int| 0 <= p < t ==> (#[trigger] nearest_neighbors@[p])@.len() == 0,
            decreases dimension - t,
        {
            nearest_neighbors.push(Vec::new());
            t += 1;
        }
        Some(Instance { dimension, distances, nearest_neighbors })
    }

    /// Distance between cities `i` and `j`, read from the precomputed matrix.
    pub fn distance(&self, i: usize, j: usize) -> (r: i64)
        requires
            self.wf(),
            i < self.n(),
            j < self.n(),
        ensures
            r as int == self.d(i as int, j as int),
            0 <= r as int <= MAX_DISTANCE as int,
    {
        self.distances[i][j]
    }

    /// Number of cities.
    pub fn size(&self) -> (r: usize)
        ensures
            r as int == self.n(),
    {
        self.dimension
    }

    /// Fills the k-nearest-neighbor table: for every city, the `k` nearest
    /// other cities in non-decreasing order of distance.  An invalid `k`
    /// (zero, or not smaller than the dimension) resets the table to empty
    /// rows; re-populating with the same `k` is a no-op.
    pub fn precompute_nearest_neighbors(&mut self, k: usize)
        requires
            old(self).wf(),
        ensures
            final(self).wf(),
            final(self).dimension == old(self).dimension,
            final(self).distances == old(self).distances,
            0 < k < old(self).dimension ==> final(self).neighbors_populated_with(k as int),
            !(0 < k < old(self).dimension) ==> final(self).neighbors_populated_with(0),
            0 < k < old(self).dimension && old(self).neighbors_populated_with(k as int)
                ==> *final(self) == *old(self),
    {
        let dimension = self.dimension;
        if k == 0 || k >= dimension {
            let mut empty_rows: Vec<Vec<usize>> = Vec::new();
            let mut t: usize = 0;
            while t < dimension
                invariant
                    t <= dimension,
                    empty_rows@.len() == t,
                    forall|p: int| 0 <= p < t ==> (#[trigger] empty_rows@[p])@.len() == 0,
                decreases dimension - t,
            {
                empty_rows.push(Vec::new());
                t += 1;
            }
            self.nearest_neighbors = empty_rows;
            proof {
                assert forall|p: int|
                    0 <= p < self.n() implies nearest_row_wf(
                    *old(self),
                    p,
                    (#[trigger] self.nearest_neighbors@[p])@,
                ) by {
                    assert(self.nearest_neighbors@[p]@.len() == 0);
                }
                lemma_wf_with_neighbors(*old(self), *self);
            }
            return;
        }
        if self.nearest_neighbors[0].len() == k {
            return;
        }
        let ghost inst0 = *self;
        let mut rows: Vec<Vec<usize>> = Vec::new();
        let mut i: usize = 0;
        while i < dimension
            invariant
                *self == inst0,
                inst0.wf(),
                dimension == inst0.dimension,
                0 < k < dimension,
                i <= dimension,
                rows@.len() == i,
                forall|p: int| 0 <= p < i ==> (#[trigger] rows@[p])@.len() == k,
                forall|p: int| 0 <= p < i ==> nearest_row_wf(inst0, p, (#[trigger] rows@[p])@),
            decreases dimension - i,
        {
            let row = nearest_row(self, i, k);
            rows.push(row);
            i += 1;
        }
        self.nearest_neighbors = rows;
        proof {
            lemma_wf_with_neighbors(inst0, *self);
        }
    }

    /// The precomputed neighbor row of a city.  Querying before population
    /// or with an out-of-range city is a configuration error and is ruled
    /// out by the precondition.
    pub fn get_nearest_neighbors(&self, node_id: usize) -> (r: &Vec<usize>)
        requires
            self.wf(),
            self.nearest_neighbors@.len() > 0,
            self.nearest_neighbors@[0]@.len() > 0,
            node_id < self.n(),
        ensures
            r@ == self.nearest_neighbors@[node_id as int]@,
    {
        &self.nearest_neighbors[node_id]
    }
}

/// A neighbor row for city `i`: what `neighbor_row_wf` demands, phrased
/// over a bare sequence.
pub open spec fn nearest_row_wf(inst: Instance, i: int, row: Seq<usize>) -> bool {
    &&& forall|a: int| 0 <= a < row.len() ==> (#[trigger] row[a]) < inst.dimension
    &&& forall|a: int| 0 <= a < row.len() ==> (#[trigger] row[a]) as int != i
    &&& row.no_duplicates()
    &&& forall|a: int, b: int|
        0 <= a < b < row.len() ==> inst.d(i, #[trigger] row[a] as int) <= inst.d(
            i,
            #[trigger] row[b] as int,
        )
    &&& forall|a: int, j: int|
        0 <= a < row.len() && 0 <= j < inst.n() && j != i && !row.contains(j as usize) ==> inst.d(
            i,
            #[trigger] row[a] as int,
        ) <= #[trigger] inst.d(i, j)
}

/// An instance whose distance matrix is taken unchanged from a well-formed
/// one, and whose neighbor table rows are uniform and well-formed for that
/// matrix, is well-formed.
proof fn lemma_wf_with_neighbors(a: Instance, b: Instance)
    requires
        a.wf(),
        b.distances == a.distances,
        b.dimension == a.dimension,
        b.nearest_neighbors@.len() == b.n(),
        forall|i: int|
            0 <= i < b.n() ==> (#[trigger] b.nearest_neighbors@[i])@.len()
                == b.nearest_neighbors@[0]@.len(),
        forall|i: int| 0 <= i < b.n() ==> nearest_row_wf(a, i, (#[trigger] b.nearest_neighbors@[i])@),
    ensures
        b.wf(),
{
    assert forall|x: int, y: int|
        0 <= x < b.n() && 0 <= y < b.n() implies #[trigger] b.d(x, y) == a.d(x, y) by {}
    assert forall|x: int, y: int|
        0 <= x < b.n() && 0 <= y < b.n() implies 0 <= #[trigger] b.d(x, y) <= MAX_DISTANCE
        as int by {
        assert(a.d(x, y) == b.d(x, y));
    }
    assert forall|x: int, y: int|
        0 <= x < b.n() && 0 <= y < b.n() implies #[trigger] b.d(x, y) == b.d(y, x) by {
        assert(a.d(x, y) == b.d(x, y));
        assert(a.d(y, x) == b.d(y, x));
    }
    assert forall|x: int| 0 <= x < b.n() implies #[trigger] b.d(x, x) == 0 by {
        assert(a.d(x, x) == b.d(x, x));
    }
    assert forall|x: int|
        0 <= x < b.n() implies (#[trigger] b.distances@[x])@.len() == b.n() by {
        assert(a.distances@[x]@.len() == a.n());
    }
    assert forall|p: int| 0 <= p < b.n() implies b.neighbor_row_wf(p) by {
        let row = b.nearest_neighbors@[p]@;
        assert(nearest_row_wf(a, p, row));
        assert forall|x: int, y: int|
            0 <= x < b.n() && 0 <= y < b.n() implies #[trigger] b.d(x, y) == a.d(x, y) by {}
        assert forall|u: int, v: int|
            0 <= u < v < row.len() implies b.d(p, #[trigger] row[u] as int) <= b.d(
            p,
            #[trigger] row[v] as int,
        ) by {
            assert(a.d(p, row[u] as int) <= a.d(p, row[v] as int));
            assert(b.d(p, row[u] as int) == a.d(p, row[u] as int));
            assert(b.d(p, row[v] as int) == a.d(p, row[v] as int));
        }
        assert forall|u: int, j: int|
            0 <= u < row.len() && 0 <= j < b.n() && j != p && !row.contains(j as usize)
            implies b.d(p, #[trigger] row[u] as int) <= #[trigger] b.d(p, j) by {
            assert(a.d(p, row[u] as int) <= a.d(p, j));
            assert(b.d(p, row[u] as int) == a.d(p, row[u] as int));
            assert(b.d(p, j) == a.d(p, j));
        }
    }
}

/// Selects, for city `i`, the `k` nearest other cities in non-decreasing
/// order of distance (ties broken by scan order).
#[verifier::rlimit(100)]
fn nearest_row(inst: &Instance, i: usize, k: usize) -> (row: Vec<usize>)
    requires
        inst.wf(),
        i < inst.n(),
        0 < k < inst.dimension,
    ensures
        row@.len() == k,
        nearest_row_wf(*inst, i as int, row@),
{
    let n = inst.dimension;
    let mut cand: Vec<usize> = Vec::new();
    let mut j: usize = 0;
    while j < n
        invariant
            j <= n,
            i < n,
            cand@.len() == if j <= i { j as int } else { j - 1 },
            forall|p: int|
                0 <= p < cand@.len() ==> (#[trigger] cand@[p]) as int == if p < i { p } else {
                    p + 1
                },
        decreases n - j,
    {
        if j != i {
            cand.push(j);
        }
        j += 1;
    }
    proof {
        assert forall|a: int, b: int| 0 <= a < b < cand@.len() implies cand@[a] != cand@[b] by {}
        assert forall|v: usize| v < n && v != i implies cand@.contains(v) by {
            let p: int = if v < i { v as int } else { v as int - 1 };
            assert(cand@[p] == v);
        }
    }
    proof {
        assert(cand@.no_duplicates());
    }
    let len = cand.len();
    let ghost cand0 = cand@;
    let mut t: usize = 0;
    while t < k
        invariant
            inst.wf(),
            i < n,
            n == inst.dimension,
            0 < k < n,
            t <= k,
            len == cand@.len(),
            len == n - 1,
            cand@.to_multiset() == cand0.to_multiset(),
            forall|a: int, b: int|
                0 <= a < b < t ==> inst.d(i as int, #[trigger] cand@[a] as int) <= inst.d(
                    i as int,
                    #[trigger] cand@[b] as int,
                ),
            forall|a: int, b: int|
                0 <= a < t && t <= b < len ==> inst.d(i as int, #[trigger] cand@[a] as int)
                    <= inst.d(i as int, #[trigger] cand@[b] as int),
            forall|p: int| 0 <= p < cand@.len() ==> (#[trigger] cand@[p]) < n,
            forall|p: int| 0 <= p < cand@.len() ==> (#[trigger] cand@[p]) != i,
        decreases k - t,
    {
        let mut min_idx = t;
        let mut u = t + 1;
        while u < len
            invariant
                inst.wf(),
                i < n,
                n == inst.dimension,
                t <= min_idx < u <= len,
                len == cand@.len(),
                forall|p: int| 0 <= p < cand@.len() ==> (#[trigger] cand@[p]) < n,
                forall|w: int|
                    t <= w < u ==> inst.d(i as int, cand@[min_idx as int] as int) <= inst.d(
                        i as int,
                        #[trigger] cand@[w] as int,
                    ),
            decreases len - u,
        {
            if inst.distance(i, cand[u]) < inst.distance(i, cand[min_idx]) {
                min_idx = u;
            }
            u += 1;
        }
        let x = cand[t];
        let y = cand[min_idx];
        let ghost pre = cand@;
        cand[t] = y;
        cand[min_idx] = x;
        proof {
            assert(cand@ =~= pre.update(t as int, pre[min_idx as int]).update(
                min_idx as int,
                pre[t as int],
            ));
            lemma_swap_multiset_usize(pre, t as int, min_idx as int);
        }
        t += 1;
    }
    let ghost before_trunc = cand@;
    cand.truncate(k);
    proof {
        assert(cand@ == before_trunc.take(k as int));
        cand0.to_multiset_ensures();
        before_trunc.to_multiset_ensures();
        cand0.lemma_multiset_has_no_duplicates();
        before_trunc.lemma_multiset_has_no_duplicates_conv();
        assert forall|a: int| 0 <= a < k implies (#[trigger] cand@[a]) < inst.dimension by {
            assert(cand@[a] == before_trunc[a]);
        }
        assert forall|a: int| 0 <= a < k implies (#[trigger] cand@[a]) as int != i as int by {
            assert(cand@[a] == before_trunc[a]);
        }
        assert forall|a: int, b: int|
            0 <= a < b < cand@.len() implies inst.d(i as int, #[trigger] cand@[a] as int)
            <= inst.d(i as int, #[trigger] cand@[b] as int) by {
            assert(cand@[a] == before_trunc[a]);
            assert(cand@[b] == before_trunc[b]);
        }
        assert forall|a: int, jj: int|
            0 <= a < cand@.len() && 0 <= jj < inst.n() && jj != i as int && !cand@.contains(
                jj as usize,
            ) implies inst.d(i as int, #[trigger] cand@[a] as int) <= #[trigger] inst.d(
            i as int,
            jj,
        ) by {
            assert(cand0.contains(jj as usize));
            assert(cand0.to_multiset().count(jj as usize) > 0);
            assert(before_trunc.contains(jj as usize));
            let p = choose|p: int| 0 <= p < before_trunc.len() && before_trunc[p] == jj as usize;
            if p < k {
                assert(cand@[p] == jj as usize);
                assert(cand@.contains(jj as usize));
            } else {
                assert(inst.d(i as int, before_trunc[a] as int) <= inst.d(
                    i as int,
                    before_trunc[p] as int,
                ));
            }
        }
        assert forall|a: int, b: int|
            0 <= a < b < cand@.len() implies cand@[a] != cand@[b] by {
        }
    }
    cand
}

/// Swapping two entries of a sequence keeps its multiset of elements.
proof fn lemma_swap_multiset_usize(s: Seq<usize>, i: int, j: int)
    requires
        0 <= i < s.len(),
        0 <= j < s.len(),
    ensures
        s.update(i, s[j]).update(j, s[i]).to_multiset() == s.to_multiset(),
{
    broadcast use vstd::seq_lib::lemma_multiset_commutative;
    broadcast use vstd::multiset::group_multiset_axioms;

    if i == j {
        assert(s.update(i, s[j]).update(j, s[i]) =~= s);
    } else {
        let p = if i < j { i } else { j };
        let q = if i < j { j } else { i };
        let upd = s.update(i, s[j]).update(j, s[i]);
        assert(s =~= s.take(p) + seq![s[p]] + s.subrange(p + 1, q) + seq![s[q]] + s.skip(q + 1));
        assert(upd =~= s.take(p) + seq![s[q]] + s.subrange(p + 1, q) + seq![s[p]] + s.skip(q + 1));
        assert(upd.to_multiset() =~= s.to_multiset());
    }
}

} // verus!
