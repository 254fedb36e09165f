//! A candidate solution: a closed tour through every city, with the score
//! that was last attached to it.

use crate::city_map::CityMap;
use vstd::prelude::*;
use vstd::set_lib::*;

verus! {

/// The score of a path that has not been evaluated.
pub const UNSCORED: i64 = -1;

/// A sequence of city indices and its cached score.
#[derive(Clone, Debug)]
pub struct Path {
    pub verts: Vec<i64>,
    pub score: i64,
}

/// `verts` is a closed tour over `count` cities: it ends where it starts, and
/// before the closing vertex it names cities only, none of them twice.
pub open spec fn is_tour(verts: Seq<i64>, count: int) -> bool {
    &&& count >= 1
    &&& verts.len() == count + 1
    &&& verts[count] == verts[0]
    &&& forall|i: int| 0 <= i < count ==> 0 <= #[trigger] verts[i] < count
    &&& forall|i: int, j: int| 0 <= i < j < count ==> verts[i] != verts[j]
}

/// The scores of `paths`, in their order.
pub open spec fn scores_of(paths: Seq<Path>) -> Seq<i64> {
    Seq::new(paths.len(), |i: int| paths[i].score)
}

/// A closed tour visits every city: each index below `count` stands at some
/// place before the closing vertex (and, none standing twice, at one only).
pub proof fn lemma_tour_visits_every_city(verts: Seq<i64>, count: int, city: int)
    requires
        is_tour(verts, count),
        0 <= city < count,
    ensures
        exists|i: int| 0 <= i < count && #[trigger] verts[i] == city,
{
    let visited = Seq::new(count as nat, |i: int| verts[i] as int);
    assert(visited.no_duplicates());
    visited.unique_seq_to_set();
    vstd::seq_lib::seq_to_set_is_finite(visited);
    lemma_int_range(0, count);
    assert(visited.to_set().subset_of(set_int_range(0, count))) by {
        assert forall|c: int| visited.to_set().contains(c) implies set_int_range(0, count).contains(
            c,
        ) by {
            let i = choose|i: int| 0 <= i < visited.len() && visited[i] == c;
            assert(verts[i] == c);
        }
    }
    lemma_subset_equality(visited.to_set(), set_int_range(0, count));
    assert(set_int_range(0, count).contains(city));
    assert(visited.contains(city));
    let i = choose|i: int| 0 <= i < visited.len() && visited[i] == city;
    assert(verts[i] == city);
}

/// Every vertex of a closed tour over the cities of `cities` is one of them.
pub proof fn lemma_tour_has_cities(cities: &CityMap, verts: Seq<i64>)
    requires
        is_tour(verts, cities.count as int),
    ensures
        cities.has_all(verts),
{
    assert forall|k: int| 0 <= k < verts.len() implies cities.has_city(
        #[trigger] verts[k] as int,
    ) by {
        if k == cities.count {
            assert(cities.has_city(verts[0] as int));
        }
    }
}

impl Path {
    /// The path is a closed tour over the cities of `cities`, and its score is
    /// the length of that tour.
    pub open spec fn is_scored_tour(&self, cities: &CityMap) -> bool {
        &&& is_tour(self.verts@, cities.count as int)
        &&& self.score == cities.walk_length(self.verts@)
    }

    /// A path without vertices, not yet evaluated.
    pub fn new() -> (p: Path)
        ensures
            p.verts@ == Seq::<i64>::empty(),
            p.score == UNSCORED,
    {
        Path { verts: Vec::new(), score: UNSCORED }
    }

    /// A path over the vertices `v`, not yet evaluated.
    pub fn new_with_verts(v: Vec<i64>) -> (p: Path)
        ensures
            p.verts == v,
            p.score == UNSCORED,
    {
        let mut path = Path::new();
        path.set_vertices(v);
        path
    }

    /// Replaces the vertices and leaves the score as it is.
    pub fn set_vertices(&mut self, v: Vec<i64>)
        ensures
            final(self).verts == v,
            final(self).score == old(self).score,
    {
        self.verts = v;
    }
}

} // verus!
