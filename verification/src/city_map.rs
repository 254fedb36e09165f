//! The distance table: a square matrix of pairwise city distances, stored
//! row by row, and the length of a walk through it.

use crate::error::GaError;
use vstd::prelude::*;

verus! {

/// A table of the distances between `count` cities.
///
/// `edges` holds the matrix row by row: the distance from city `a` to city
/// `b` stands at `a * count + b`. The matrix need not be symmetric.
#[derive(Clone, Debug)]
pub struct CityMap {
    pub count: i64,
    pub edges: Vec<i64>,
}

impl CityMap {
    /// The largest entry the table admits: with at most this much on every
    /// edge, the length of a closed tour over all cities fits in an `i64`.
    pub open spec fn edge_limit(&self) -> int {
        i64::MAX as int / self.count as int
    }

    /// The table is usable: at least three cities, a full square of entries,
    /// none of them negative or above `edge_limit`.
    pub open spec fn wf(&self) -> bool {
        &&& self.count >= 3
        &&& self.edges@.len() == self.count * self.count
        &&& forall|k: int|
            0 <= k < self.edges@.len() ==> 0 <= #[trigger] self.edges@[k] <= self.edge_limit()
    }

    /// `city` is an index of the table.
    pub open spec fn has_city(&self, city: int) -> bool {
        0 <= city < self.count
    }

    /// The distance from `a` to `b`, and zero where either is no city.
    pub open spec fn spec_distance(&self, a: int, b: int) -> int {
        if self.has_city(a) && self.has_city(b) {
            self.edges@[a * self.count + b] as int
        } else {
            0
        }
    }

    /// Every vertex of `verts` is a city of the table.
    pub open spec fn has_all(&self, verts: Seq<i64>) -> bool {
        forall|k: int| 0 <= k < verts.len() ==> self.has_city(#[trigger] verts[k] as int)
    }

    /// The sum of the distances between consecutive vertices of `verts`.
    pub open spec fn walk_length(&self, verts: Seq<i64>) -> int
        decreases verts.len(),
    {
        if verts.len() < 2 {
            0
        } else {
            self.walk_length(verts.drop_last()) + self.spec_distance(
                verts[verts.len() - 2] as int,
                verts[verts.len() - 1] as int,
            )
        }
    }

    /// What evaluating the walk `verts` gives: its length, or `OutOfRange`
    /// where a vertex is no city. It is a function of the vertices and the
    /// table alone.
    pub open spec fn score_of(&self, verts: Seq<i64>) -> Result<i64, GaError> {
        if self.has_all(verts) {
            Ok(self.walk_length(verts) as i64)
        } else {
            Err(GaError::OutOfRange)
        }
    }

    /// The place of the pair `(a, b)` in the row-by-row layout lies inside the
    /// table.
    pub proof fn lemma_index_in_table(&self, a: int, b: int)
        requires
            self.wf(),
            self.has_city(a),
            self.has_city(b),
        ensures
            0 <= a * self.count + b < self.edges@.len(),
            self.count <= self.edges@.len(),
            0 <= self.spec_distance(a, b) <= self.edge_limit(),
    {
        let n = self.count as int;
        assert(0 <= a * n && a * n + n <= n * n && n <= n * n) by (nonlinear_arith)
            requires
                0 <= a < n,
                n >= 3,
        ;
    }

    /// No distance is negative or above the limit, whatever the arguments.
    pub proof fn lemma_distance_bounds(&self, a: int, b: int)
        requires
            self.wf(),
        ensures
            0 <= self.spec_distance(a, b) <= self.edge_limit(),
    {
        if self.has_city(a) && self.has_city(b) {
            self.lemma_index_in_table(a, b);
        }
    }

    /// A walk is never shorter than zero and never longer than its number of
    /// edges times the limit.
    pub proof fn lemma_walk_length_bounds(&self, verts: Seq<i64>)
        requires
            self.wf(),
        ensures
            0 <= self.walk_length(verts),
            verts.len() >= 1 ==> self.walk_length(verts) <= (verts.len() - 1) * self.edge_limit(),
            verts.len() == 0 ==> self.walk_length(verts) == 0,
        decreases verts.len(),
    {
        if verts.len() >= 2 {
            let front = verts.drop_last();
            self.lemma_walk_length_bounds(front);
            self.lemma_distance_bounds(
                verts[verts.len() - 2] as int,
                verts[verts.len() - 1] as int,
            );
            let m = verts.len() as int;
            let q = self.edge_limit();
            assert((m - 2) * q + q == (m - 1) * q) by (nonlinear_arith);
        }
    }

    /// A prefix of a walk is no longer than the whole walk.
    pub proof fn lemma_walk_length_prefix(&self, verts: Seq<i64>, k: int)
        requires
            self.wf(),
            0 <= k <= verts.len(),
        ensures
            self.walk_length(verts.take(k)) <= self.walk_length(verts),
        decreases verts.len() - k,
    {
        if k == verts.len() {
            assert(verts.take(k) =~= verts);
        } else {
            self.lemma_walk_length_prefix(verts, k + 1);
            let longer = verts.take(k + 1);
            assert(longer.drop_last() =~= verts.take(k));
            if longer.len() >= 2 {
                self.lemma_distance_bounds(
                    longer[longer.len() - 2] as int,
                    longer[longer.len() - 1] as int,
                );
            } else {
                self.lemma_walk_length_bounds(verts.take(k));
            }
        }
    }

    /// A walk over at most `count` edges has a length that fits in an `i64`.
    pub proof fn lemma_walk_length_fits(&self, verts: Seq<i64>)
        requires
            self.wf(),
            verts.len() <= self.count + 1,
        ensures
            0 <= self.walk_length(verts) <= i64::MAX,
    {
        self.lemma_walk_length_bounds(verts);
        if verts.len() >= 1 {
            let m = verts.len() as int - 1;
            let n = self.count as int;
            let q = self.edge_limit();
            assert(q * n <= i64::MAX) by (nonlinear_arith)
                requires
                    q == i64::MAX as int / n,
                    n >= 3,
            ;
            assert(m * q <= q * n) by (nonlinear_arith)
                requires
                    0 <= m <= n,
                    0 <= q,
            ;
        }
    }

    /// Checks that the table is usable.
    pub fn is_valid(&self) -> (ok: bool)
        ensures
            ok == self.wf(),
    {
        if self.count < 3 {
            return false;
        }
        let side: u128 = self.count as u128;
        assert(side * side <= u128::MAX) by (nonlinear_arith)
            requires
                0 <= side <= i64::MAX,
        ;
        if side * side != self.edges.len() as u128 {
            return false;
        }
        let limit: i64 = i64::MAX / self.count;
        let mut k: usize = 0;
        while k < self.edges.len()
            invariant
                self.count >= 3,
                self.edges@.len() == self.count * self.count,
                limit == self.edge_limit(),
                k <= self.edges.len(),
                forall|j: int| 0 <= j < k ==> 0 <= #[trigger] self.edges@[j] <= limit,
            decreases self.edges.len() - k,
        {
            if self.edges[k] < 0 || self.edges[k] > limit {
                return false;
            }
            k += 1;
        }
        true
    }

    /// The distance from `city1` to `city2`.
    ///
    /// Fails with `OutOfRange` exactly when one of the two is no city of the
    /// table.
    pub fn distance(&self, city1: i64, city2: i64) -> (r: Result<i64, GaError>)
        requires
            self.wf(),
        ensures
            match r {
                Ok(d) => self.has_city(city1 as int) && self.has_city(city2 as int) && d
                    == self.spec_distance(city1 as int, city2 as int),
                Err(e) => e == GaError::OutOfRange && !(self.has_city(city1 as int)
                    && self.has_city(city2 as int)),
            },
    {
        if city1 < 0 || city1 >= self.count || city2 < 0 || city2 >= self.count {
            return Err(GaError::OutOfRange);
        }
        proof {
            self.lemma_index_in_table(city1 as int, city2 as int);
            assert(0 <= city1 * self.count <= city1 * self.count + city2) by (nonlinear_arith)
                requires
                    0 <= city1,
                    0 <= city2,
                    self.count >= 3,
            ;
            assert(self.edges@.len() == self.edges.len() <= usize::MAX);
            assert(city1 < self.count <= usize::MAX && city2 <= usize::MAX);
            assert((city1 as usize) * (self.count as usize) == city1 * self.count);
        }
        let index: usize = (city1 as usize) * (self.count as usize) + (city2 as usize);
        Ok(self.edges[index])
    }
}

} // verus!
