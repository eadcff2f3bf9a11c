//! The tour-pair data model: two disjoint node sequences that together
//! partition the cities of an instance, plus the queries the move evaluators
//! and the search engine need (cost, validity, node lookup, edge lookup).

use vstd::prelude::*;

use crate::MAX_DISTANCE;
use crate::cost::cycle_cost;
use crate::cost::in_range;
use crate::cost::pair_cost;
use crate::cost::path_cost;
use crate::instance::Instance;
use crate::moves::types::CycleId;

verus! {

/// A solution of the two-cycle TSP: two ordered node sequences.  Consecutive
/// entries of each cycle, plus the wraparound pair, define tour edges.
#[derive(Debug)]
pub struct Solution {
    pub cycle1: Vec<usize>,
    pub cycle2: Vec<usize>,
}

/// The node sequence of the chosen cycle.
pub open spec fn cycle_of(s: Solution, cycle_id: CycleId) -> Seq<usize> {
    match cycle_id {
        CycleId::Cycle1 => s.cycle1@,
        CycleId::Cycle2 => s.cycle2@,
    }
}

/// Where a node id lives: the first cycle is searched first, and within a
/// cycle the first occurrence wins.
pub open spec fn find_node_spec(s: Solution, node_id: usize) -> Option<(CycleId, int)> {
    match s.cycle1@.index_of_first(node_id) {
        Some(i) => Some((CycleId::Cycle1, i)),
        None => match s.cycle2@.index_of_first(node_id) {
            Some(i) => Some((CycleId::Cycle2, i)),
            None => None,
        },
    }
}

/// The direction in which the ordered pair `(a, b)` occurs as the tour edge
/// starting at position `i` of `c`: `Some(1)` forward, `Some(-1)` backward.
pub open spec fn edge_dir_at(c: Seq<usize>, a: usize, b: usize, i: int) -> Option<i8> {
    let u = c[i];
    let v = c[if i + 1 == c.len() { 0 } else { i + 1 }];
    if u == a && v == b {
        Some(1i8)
    } else if u == b && v == a {
        Some(-1i8)
    } else {
        None
    }
}

/// Result of scanning the tour edges of `c` from position `i` upward for an
/// occurrence of `(a, b)` in either direction, the forward direction winning
/// at a given position.
pub open spec fn scan_edge_from(c: Seq<usize>, a: usize, b: usize, i: int) -> Option<i8>
    decreases c.len() - i,
{
    if i < 0 || i >= c.len() {
        None
    } else if edge_dir_at(c, a, b, i) is Some {
        edge_dir_at(c, a, b, i)
    } else {
        scan_edge_from(c, a, b, i + 1)
    }
}

/// What `check_edge_in_cycle` returns: nothing for a degenerate cycle, else
/// the first scan hit.
pub open spec fn check_edge_spec(c: Seq<usize>, a: usize, b: usize) -> Option<i8> {
    if c.len() < 2 {
        None
    } else {
        scan_edge_from(c, a, b, 0)
    }
}

/// What `has_edge` returns: the first cycle is searched first.
pub open spec fn has_edge_spec(s: Solution, a: usize, b: usize) -> Option<(CycleId, i8)> {
    match check_edge_spec(s.cycle1@, a, b) {
        Some(dir) => Some((CycleId::Cycle1, dir)),
        None => match check_edge_spec(s.cycle2@, a, b) {
            Some(dir) => Some((CycleId::Cycle2, dir)),
            None => None,
        },
    }
}

/// The partition invariant over a bare pair of cycles: every id in `[0, n)`
/// appears in exactly one of them exactly once.
pub open spec fn pair_valid(c1: Seq<usize>, c2: Seq<usize>, n: int) -> bool {
    let all = c1 + c2;
    &&& all.len() == n
    &&& all.no_duplicates()
    &&& in_range(all, n)
    &&& forall|v: int| 0 <= v < n ==> #[trigger] all.contains(v as usize)
}

/// Validity of a pair of cycles depends only on the multiset of nodes they
/// hold together: any rearrangement of a valid pair is valid.
pub proof fn lemma_pair_valid_multiset(
    a1: Seq<usize>,
    a2: Seq<usize>,
    b1: Seq<usize>,
    b2: Seq<usize>,
    n: int,
)
    requires
        (b1 + b2).to_multiset() == (a1 + a2).to_multiset(),
        pair_valid(a1, a2, n),
    ensures
        pair_valid(b1, b2, n),
{
    let a = a1 + a2;
    let b = b1 + b2;
    broadcast use vstd::multiset::group_multiset_axioms;

    a.to_multiset_ensures();
    b.to_multiset_ensures();
    a.lemma_multiset_has_no_duplicates();
    b.lemma_multiset_has_no_duplicates_conv();
    assert(b.len() == n);
    assert forall|i: int| 0 <= i < b.len() implies (#[trigger] b[i]) < n by {
        assert(b.contains(b[i]));
        assert(b.to_multiset().count(b[i]) > 0);
        assert(a.contains(b[i]));
        let j = choose|j: int| 0 <= j < a.len() && a[j] == b[i];
        assert(a[j] < n);
    }
    assert forall|v: int| 0 <= v < n implies #[trigger] b.contains(v as usize) by {
        assert(a.contains(v as usize));
        assert(a.to_multiset().count(v as usize) > 0);
        assert(b.to_multiset().count(v as usize) > 0);
    }
}

impl Solution {
    /// The partition invariant: every id in `[0, n)` appears in exactly one
    /// cycle exactly once.
    pub open spec fn valid(self, n: int) -> bool {
        pair_valid(self.cycle1@, self.cycle2@, n)
    }

    /// Both cycles mention only cities of an instance with `n` cities.
    pub open spec fn nodes_in_range(self, n: int) -> bool {
        in_range(self.cycle1@, n) && in_range(self.cycle2@, n)
    }

    pub proof fn lemma_valid_in_range(self, n: int)
        requires
            self.valid(n),
        ensures
            self.nodes_in_range(n),
            self.cycle1@.no_duplicates(),
            self.cycle2@.no_duplicates(),
            self.cycle1@.len() + self.cycle2@.len() == n,
            forall|x: usize| #[trigger] self.cycle1@.contains(x) ==> !self.cycle2@.contains(x),
            forall|x: usize| #[trigger] self.cycle2@.contains(x) ==> !self.cycle1@.contains(x),
    {
        let all = self.cycle1@ + self.cycle2@;
        assert forall|i: int| 0 <= i < self.cycle1@.len() implies (#[trigger] self.cycle1@[i])
            < n by {
            assert(all[i] == self.cycle1@[i]);
        }
        assert forall|i: int| 0 <= i < self.cycle2@.len() implies (#[trigger] self.cycle2@[i])
            < n by {
            assert(all[self.cycle1@.len() + i] == self.cycle2@[i]);
        }
        assert forall|i: int, j: int|
            0 <= i < j < self.cycle1@.len() implies self.cycle1@[i] != self.cycle1@[j] by {
            assert(all[i] == self.cycle1@[i]);
            assert(all[j] == self.cycle1@[j]);
        }
        assert forall|i: int, j: int|
            0 <= i < j < self.cycle2@.len() implies self.cycle2@[i] != self.cycle2@[j] by {
            assert(all[self.cycle1@.len() + i] == self.cycle2@[i]);
            assert(all[self.cycle1@.len() + j] == self.cycle2@[j]);
        }
        assert forall|x: usize| #[trigger] self.cycle1@.contains(x) implies !self.cycle2@.contains(
            x,
        ) by {
            if self.cycle2@.contains(x) {
                let i = choose|i: int| 0 <= i < self.cycle1@.len() && self.cycle1@[i] == x;
                let j = choose|j: int| 0 <= j < self.cycle2@.len() && self.cycle2@[j] == x;
                assert(all[i] == x);
                assert(all[self.cycle1@.len() + j] == x);
            }
        }
        assert forall|x: usize| #[trigger] self.cycle2@.contains(x) implies !self.cycle1@.contains(
            x,
        ) by {
            if self.cycle1@.contains(x) {
                assert(!self.cycle2@.contains(x));
            }
        }
    }

    pub fn new(cycle1: Vec<usize>, cycle2: Vec<usize>) -> (r: Solution)
        ensures
            r.cycle1@ == cycle1@,
            r.cycle2@ == cycle2@,
    {
        Solution { cycle1, cycle2 }
    }

    /// An element-wise copy of this solution.
    pub fn duplicate(&self) -> (r: Solution)
        ensures
            r.cycle1@ == self.cycle1@,
            r.cycle2@ == self.cycle2@,
    {
        let c1 = self.cycle1.clone();
        let c2 = self.cycle2.clone();
        proof {
            assert(c1@ =~= self.cycle1@);
            assert(c2@ =~= self.cycle2@);
        }
        Solution { cycle1: c1, cycle2: c2 }
    }

    /// Length of one closed tour, summed edge by edge.
    fn calculate_cycle_cost(&self, cycle: &Vec<usize>, instance: &Instance) -> (r: i64)
        requires
            instance.wf(),
            in_range(cycle@, instance.n()),
            cycle@.len() <= crate::MAX_DIMENSION as int,
        ensures
            r as int == cycle_cost(*instance, cycle@),
            0 <= r as int <= cycle@.len() * MAX_DISTANCE as int,
    {
        let ghost inst = *instance;
        let n = cycle.len();
        if n == 0 {
            return 0;
        }
        let mut cost: i64 = 0;
        let mut i: usize = 0;
        while i < n
            invariant
                instance.wf(),
                inst == *instance,
                in_range(cycle@, instance.n()),
                n == cycle@.len(),
                n <= crate::MAX_DIMENSION,
                1 <= n,
                i <= n,
                0 <= cost as int <= i * MAX_DISTANCE as int,
                i < n ==> cost as int == path_cost(inst, cycle@.take(i + 1)),
                i == n ==> cost as int == cycle_cost(inst, cycle@),
            decreases n - i,
        {
            let from = cycle[i];
            let to = cycle[if i + 1 == n {
                0
            } else {
                i + 1
            }];
            let d = instance.distance(from, to);
            proof {
                assert(i * MAX_DISTANCE as int + MAX_DISTANCE as int == (i + 1) * MAX_DISTANCE
                    as int) by (nonlinear_arith);
                assert((i + 1) * MAX_DISTANCE as int <= crate::MAX_DIMENSION as int * MAX_DISTANCE
                    as int) by (nonlinear_arith)
                    requires i + 1 <= crate::MAX_DIMENSION as int;
                if i + 1 < n {
                    assert(cycle@.take(i + 2).drop_last() =~= cycle@.take(i + 1));
                    assert(cycle@.take(i + 2)[i + 1] == cycle@[i as int + 1]);
                    assert(cycle@.take(i + 2)[i as int] == cycle@[i as int]);
                } else {
                    assert(cycle@.take(i + 1) =~= cycle@);
                    assert(cycle@.last() == cycle@[i as int]);
                }
            }
            cost = cost + d;
            i += 1;
        }
        cost
    }

    /// Total length of the solution: the sum of the two tour lengths.
    pub fn calculate_cost(&self, instance: &Instance) -> (r: i64)
        requires
            instance.wf(),
            self.nodes_in_range(instance.n()),
            self.cycle1@.len() + self.cycle2@.len() <= crate::MAX_DIMENSION as int,
        ensures
            r as int == pair_cost(*instance, self.cycle1@, self.cycle2@),
            0 <= r as int <= (self.cycle1@.len() + self.cycle2@.len()) * MAX_DISTANCE as int,
    {
        let cost1 = self.calculate_cycle_cost(&self.cycle1, instance);
        let cost2 = self.calculate_cycle_cost(&self.cycle2, instance);
        proof {
            assert((self.cycle1@.len() + self.cycle2@.len()) * MAX_DISTANCE as int == self.cycle1@
                .len() * MAX_DISTANCE as int + self.cycle2@.len() * MAX_DISTANCE as int)
                by (nonlinear_arith);
            assert((self.cycle1@.len() + self.cycle2@.len()) * MAX_DISTANCE as int
                <= crate::MAX_DIMENSION as int * MAX_DISTANCE as int) by (nonlinear_arith)
                requires self.cycle1@.len() + self.cycle2@.len() <= crate::MAX_DIMENSION as int;
        }
        cost1 + cost2
    }

    /// Whether this solution is a valid partition of the instance's cities
    /// into two cycles.
    pub fn is_valid(&self, instance: &Instance) -> (r: bool)
        ensures
            r == self.valid(instance.n()),
    {
        let ghost all = self.cycle1@ + self.cycle2@;
        let n = instance.size();
        let mut used: Vec<bool> = Vec::new();
        let mut t: usize = 0;
        while t < n
            invariant
                t <= n,
                used@.len() == t,
                forall|v: int| 0 <= v < t ==> !(#[trigger] used@[v]),
            decreases n - t,
        {
            used.push(false);
            t += 1;
        }
        let mut count: usize = 0;
        let mut i: usize = 0;
        while i < self.cycle1.len()
            invariant
                i <= self.cycle1@.len(),
                all == self.cycle1@ + self.cycle2@,
                n == instance.n(),
                used@.len() == n,
                count == i,
                i <= all.len(),
                forall|v: int|
                    0 <= v < n ==> (#[trigger] used@[v] <==> all.take(i as int).contains(
                        v as usize,
                    )),
                all.take(i as int).no_duplicates(),
                in_range(all.take(i as int), n as int),
            decreases self.cycle1@.len() - i,
        {
            let v = self.cycle1[i];
            proof {
                assert(all[i as int] == self.cycle1@[i as int]);
                assert(all.take(i + 1).drop_last() =~= all.take(i as int));
                assert(all.take(i + 1).last() == all[i as int]);
            }
            if v >= n {
                proof {
                    assert(!in_range(all, n as int));
                }
                return false;
            }
            if used[v] {
                proof {
                    let j = choose|j: int|
                        0 <= j < i && #[trigger] all.take(i as int)[j] == v;
                    assert(all[j] == v);
                    assert(!all.no_duplicates());
                }
                return false;
            }
            used[v] = true;
            proof {
                assert forall|w: int| 0 <= w < n implies (#[trigger] used@[w] <==> all.take(
                    i + 1,
                ).contains(w as usize)) by {
                    if used@[w] {
                        if w == v as int {
                            assert(all.take(i + 1)[i as int] == v);
                        } else {
                            let j = choose|j: int|
                                0 <= j < i && #[trigger] all.take(i as int)[j] == w as usize;
                            assert(all.take(i + 1)[j] == w as usize);
                        }
                    } else {
                        if all.take(i + 1).contains(w as usize) {
                            let j = choose|j: int|
                                0 <= j < i + 1 && #[trigger] all.take(i + 1)[j] == w as usize;
                            if j < i {
                                assert(all.take(i as int)[j] == w as usize);
                            }
                        }
                    }
                }
            }
            count += 1;
            i += 1;
        }
        let mut k: usize = 0;
        while k < self.cycle2.len()
            invariant
                k <= self.cycle2@.len(),
                all == self.cycle1@ + self.cycle2@,
                n == instance.n(),
                used@.len() == n,
                count == self.cycle1@.len() + k,
                forall|v: int|
                    0 <= v < n ==> (#[trigger] used@[v] <==> all.take(count as int).contains(
                        v as usize,
                    )),
                all.take(count as int).no_duplicates(),
                in_range(all.take(count as int), n as int),
            decreases self.cycle2@.len() - k,
        {
            if count >= n {
                return false;
            }
            let v = self.cycle2[k];
            let ghost c = count as int;
            proof {
                assert(all[c] == self.cycle2@[k as int]);
                assert(all.take(c + 1).drop_last() =~= all.take(c));
                assert(all.take(c + 1).last() == all[c]);
            }
            if v >= n {
                proof {
                    assert(!in_range(all, n as int));
                }
                return false;
            }
            if used[v] {
                proof {
                    let j = choose|j: int| 0 <= j < c && #[trigger] all.take(c)[j] == v;
                    assert(all[j] == v);
                    assert(!all.no_duplicates());
                }
                return false;
            }
            used[v] = true;
            proof {
                assert forall|w: int| 0 <= w < n implies (#[trigger] used@[w] <==> all.take(
                    c + 1,
                ).contains(w as usize)) by {
                    if used@[w] {
                        if w == v as int {
                            assert(all.take(c + 1)[c] == v);
                        } else {
                            let j = choose|j: int| 0 <= j < c && #[trigger] all.take(c)[j] == w as usize;
                            assert(all.take(c + 1)[j] == w as usize);
                        }
                    } else {
                        if all.take(c + 1).contains(w as usize) {
                            let j = choose|j: int|
                                0 <= j < c + 1 && #[trigger] all.take(c + 1)[j] == w as usize;
                            if j < c {
                                assert(all.take(c)[j] == w as usize);
                            }
                        }
                    }
                }
            }
            count += 1;
            k += 1;
        }
        proof {
            assert(all.take(count as int) =~= all);
        }
        if count != n {
            return false;
        }
        let mut v: usize = 0;
        while v < n
            invariant
                v <= n,
                n == instance.n(),
                used@.len() == n,
                all == self.cycle1@ + self.cycle2@,
                forall|w: int| 0 <= w < n ==> (#[trigger] used@[w] <==> all.contains(w as usize)),
                forall|w: int| 0 <= w < v ==> #[trigger] all.contains(w as usize),
            decreases n - v,
        {
            if !used[v] {
                return false;
            }
            v += 1;
        }
        true
    }

    /// Locates a node id: its cycle and its position there.
    pub fn find_node(&self, node_id: usize) -> (r: Option<(CycleId, usize)>)
        ensures
            match r {
                Some((cid, pos)) => find_node_spec(*self, node_id) == Some((cid, pos as int))
                    && pos < cycle_of(*self, cid).len() && cycle_of(*self, cid)[pos as int]
                    == node_id,
                None => find_node_spec(*self, node_id) is None,
            },
    {
        proof {
            self.cycle1@.index_of_first_ensures(node_id);
            self.cycle2@.index_of_first_ensures(node_id);
        }
        let mut i: usize = 0;
        while i < self.cycle1.len()
            invariant
                i <= self.cycle1@.len(),
                forall|j: int| 0 <= j < i ==> self.cycle1@[j] != node_id,
            decreases self.cycle1@.len() - i,
        {
            if self.cycle1[i] == node_id {
                proof {
                    self.cycle1@.index_of_first_ensures(node_id);
                    assert(self.cycle1@[i as int] == node_id);
                }
                return Some((CycleId::Cycle1, i));
            }
            i += 1;
        }
        let mut k: usize = 0;
        while k < self.cycle2.len()
            invariant
                k <= self.cycle2@.len(),
                !self.cycle1@.contains(node_id),
                forall|j: int| 0 <= j < k ==> self.cycle2@[j] != node_id,
            decreases self.cycle2@.len() - k,
        {
            if self.cycle2[k] == node_id {
                proof {
                    self.cycle1@.index_of_first_ensures(node_id);
                    self.cycle2@.index_of_first_ensures(node_id);
                    assert(self.cycle2@[k as int] == node_id);
                }
                return Some((CycleId::Cycle2, k));
            }
            k += 1;
        }
        None
    }

    /// Read access to the chosen cycle.
    pub fn get_cycle(&self, cycle_id: CycleId) -> (r: &Vec<usize>)
        ensures
            r@ == cycle_of(*self, cycle_id),
    {
        match cycle_id {
            CycleId::Cycle1 => &self.cycle1,
            CycleId::Cycle2 => &self.cycle2,
        }
    }

    /// Write access to the chosen cycle; the other cycle is untouched.
    pub fn get_cycle_mut(&mut self, cycle_id: CycleId) -> (r: &mut Vec<usize>)
        ensures
            r@ == cycle_of(*old(self), cycle_id),
            cycle_id == CycleId::Cycle1 ==> final(self).cycle1@ == final(r)@ && final(self).cycle2@
                == old(self).cycle2@,
            cycle_id == CycleId::Cycle2 ==> final(self).cycle2@ == final(r)@ && final(self).cycle1@
                == old(self).cycle1@,
    {
        match cycle_id {
            CycleId::Cycle1 => &mut self.cycle1,
            CycleId::Cycle2 => &mut self.cycle2,
        }
    }

    /// Searches both cycles for the tour edge `(a, b)`, in either direction.
    pub fn has_edge(&self, a: usize, b: usize) -> (r: Option<(CycleId, i8)>)
        ensures
            r == has_edge_spec(*self, a, b),
    {
        if let Some(direction) = self.check_edge_in_cycle(&self.cycle1, a, b) {
            Some((CycleId::Cycle1, direction))
        } else if let Some(direction) = self.check_edge_in_cycle(&self.cycle2, a, b) {
            Some((CycleId::Cycle2, direction))
        } else {
            None
        }
    }

    /// Scans one cycle for the tour edge `(a, b)`: `Some(1)` if it occurs
    /// forward, `Some(-1)` if backward, preferring the earliest position and
    /// the forward direction at a given position.
    pub fn check_edge_in_cycle(&self, cycle: &Vec<usize>, a: usize, b: usize) -> (r: Option<i8>)
        ensures
            r == check_edge_spec(cycle@, a, b),
    {
        let n = cycle.len();
        if n < 2 {
            return None;
        }
        let mut i: usize = 0;
        while i < n
            invariant
                i <= n,
                n == cycle@.len(),
                2 <= n,
                scan_edge_from(cycle@, a, b, 0) == scan_edge_from(cycle@, a, b, i as int),
            decreases n - i,
        {
            let u = cycle[i];
            let v = cycle[if i + 1 == n {
                0
            } else {
                i + 1
            }];
            if u == a && v == b {
                return Some(1);
            }
            if u == b && v == a {
                return Some(-1);
            }
            i += 1;
        }
        None
    }
}

} // verus!
