//! The population: the current generation of tours, the pseudorandom source
//! that breeds the next one, and the log of every generation's scores.

use crate::breed::{crossover, crossover_spec, is_child_of, mutate, swapped};
use crate::city_map::CityMap;
use crate::error::GaError;
use crate::log::Log;
use crate::path::{is_tour, lemma_tour_has_cities, scores_of, Path, UNSCORED};
use crate::random::draw_index;
use crate::select::{
    best_score, is_top_two, lemma_elitism, lemma_top_two_unique, second_best_score, top_two,
};
use vstd::prelude::*;

verus! {

/// A generation of tours over one distance table, with what breeds and
/// records the generations that follow.
pub struct Population {
    pub paths: Vec<Path>,
    pub size: i64,
    pub max_gens: i64,
    pub gen_count: i64,
    pub cities: CityMap,
    pub rng: rand::rngs::StdRng,
    pub logger: Log,
}

/// The parameters with which a population can be made: a usable table, an
/// even size of at least four, and a budget that is not negative.
pub open spec fn valid_configuration(size: i64, max_gens: i64, cities: &CityMap) -> bool {
    &&& cities.wf()
    &&& size >= 4
    &&& size % 2 == 0
    &&& max_gens >= 0
}

/// `after` is a generation bred from `before`, whose selected tours stand at
/// the places `a` and `b`.
///
/// The two selected tours open the new generation unchanged. The first half
/// of the others are children of the first and the second selected tour, the
/// second half children of the second and the first.
pub open spec fn bred_from(before: Seq<Path>, after: Seq<Path>, a: int, b: int) -> bool {
    let half = (after.len() - 2) / 2;
    &&& after.len() >= 2
    &&& after[0].verts@ == before[a].verts@
    &&& after[0].score == before[a].score
    &&& after[1].verts@ == before[b].verts@
    &&& after[1].score == before[b].score
    &&& forall|i: int|
        2 <= i < 2 + half ==> is_child_of(
            (#[trigger] after[i]).verts@,
            before[a].verts@,
            before[b].verts@,
        )
    &&& forall|i: int|
        2 + half <= i < after.len() ==> is_child_of(
            (#[trigger] after[i]).verts@,
            before[b].verts@,
            before[a].verts@,
        )
}

/// `after` is the log `before` with `added` more records of `size` scores
/// each. The best score of each of them is no higher than that of the record
/// before it, and that of the first no higher than `start_best`.
pub open spec fn log_extended(
    before: Seq<Seq<i64>>,
    after: Seq<Seq<i64>>,
    added: int,
    size: int,
    start_best: int,
) -> bool {
    &&& after.len() == before.len() + added
    &&& forall|k: int| 0 <= k < before.len() ==> after[k] == before[k]
    &&& forall|k: int| before.len() <= k < after.len() ==> (#[trigger] after[k]).len() == size
    &&& forall|k: int|
        before.len() <= k < after.len() ==> best_score(#[trigger] after[k]) <= if k
            == before.len() {
            start_best
        } else {
            best_score(after[k - 1]) as int
        }
}

/// Moves the city at `index` of `pool` to the end of `tour`.
pub fn move_city(pool: &mut Vec<i64>, index: usize, tour: &mut Vec<i64>)
    requires
        index < old(pool)@.len(),
    ensures
        final(pool)@ == old(pool)@.remove(index as int),
        final(tour)@ == old(tour)@.push(old(pool)@[index as int]),
{
    let city = pool.remove(index);
    tour.push(city);
}

impl Population {
    /// The population is usable: its parameters are valid, its generation
    /// count is not negative, and each of its paths is a closed tour over
    /// the table that carries its own length as score.
    pub open spec fn wf(&self) -> bool {
        &&& valid_configuration(self.size, self.max_gens, &self.cities)
        &&& self.gen_count >= 0
        &&& forall|i: int|
            0 <= i < self.paths@.len() ==> (#[trigger] self.paths@[i]).is_scored_tour(&self.cities)
    }

    /// `self` differs from `other` in the state of the generator at most.
    pub open spec fn same_apart_from_rng(&self, other: &Population) -> bool {
        &&& self.paths == other.paths
        &&& self.size == other.size
        &&& self.max_gens == other.max_gens
        &&& self.gen_count == other.gen_count
        &&& self.cities == other.cities
        &&& self.logger == other.logger
    }

    /// The scores of the current generation.
    pub open spec fn scores(&self) -> Seq<i64> {
        scores_of(self.paths@)
    }

    /// A population of `size` tours that is to run for `maxg` generations
    /// over the table `cs`. It holds no tours yet.
    ///
    /// Fails with `InvalidConfiguration` exactly when the table is not
    /// usable, `size` is odd or below four, or `maxg` is negative.
    pub fn new(size: i64, maxg: i64, cs: CityMap, rng: rand::rngs::StdRng, log: Log) -> (r: Result<
        Population,
        GaError,
    >)
        ensures
            match r {
                Ok(p) => {
                    &&& valid_configuration(size, maxg, &cs)
                    &&& p.wf()
                    &&& p.paths@.len() == 0
                    &&& p.size == size
                    &&& p.max_gens == maxg
                    &&& p.gen_count == 0
                    &&& p.cities == cs
                    &&& p.rng == rng
                    &&& p.logger == log
                },
                Err(e) => e == GaError::InvalidConfiguration && !valid_configuration(
                    size,
                    maxg,
                    &cs,
                ),
            },
    {
        if size < 4 || size % 2 != 0 || maxg < 0 || !cs.is_valid() {
            return Err(GaError::InvalidConfiguration);
        }
        Ok(
            Population {
                paths: Vec::new(),
                size: size,
                max_gens: maxg,
                gen_count: 0,
                cities: cs,
                rng: rng,
                logger: log,
            },
        )
    }

    /// The tour that visits the cities in the order of their indices, not
    /// yet closed.
    pub fn straight_path(&self) -> (path: Vec<i64>)
        ensures
            path@.len() == if self.cities.count > 0 {
                self.cities.count as int
            } else {
                0
            },
            forall|i: int| 0 <= i < path@.len() ==> path@[i] == i,
    {
        let mut path: Vec<i64> = Vec::new();
        let mut i: i64 = 0;
        while i < self.cities.count
            invariant
                0 <= i,
                i <= self.cities.count || i == 0,
                path@.len() == i,
                forall|j: int| 0 <= j < i ==> path@[j] == j,
            decreases self.cities.count - i,
        {
            path.push(i);
            i += 1;
        }
        path
    }

    /// A copy of `a`.
    pub fn copy_vec(&self, a: &Vec<i64>) -> (copy: Vec<i64>)
        ensures
            copy@ == a@,
    {
        let mut copy: Vec<i64> = Vec::new();
        let mut i: usize = 0;
        while i < a.len()
            invariant
                i <= a.len(),
                copy@ == a@.take(i as int),
            decreases a.len() - i,
        {
            copy.push(a[i]);
            assert(a@.take(i + 1) =~= a@.take(i as int).push(a@[i as int]));
            i += 1;
        }
        assert(a@.take(a@.len() as int) =~= a@);
        copy
    }

    /// The fitness of `path`: the length of the walk along its vertices,
    /// closing edge included. It depends on the vertices and the table only,
    /// not on the score that the path carries.
    ///
    /// Fails with `OutOfRange` exactly when a vertex is no city of the table.
    /// The length of the walk must fit in an `i64`; that of a tour over the
    /// cities of a usable table does.
    pub fn fitness(&self, path: &Path) -> (r: Result<i64, GaError>)
        requires
            self.cities.wf(),
            path.verts@.len() >= 2,
            self.cities.walk_length(path.verts@) <= i64::MAX,
        ensures
            r == self.cities.score_of(path.verts@),
            match r {
                Ok(score) => self.cities.has_all(path.verts@) && score == self.cities.walk_length(
                    path.verts@,
                ),
                Err(e) => e == GaError::OutOfRange && !self.cities.has_all(path.verts@),
            },
    {
        proof {
            self.cities.lemma_walk_length_bounds(path.verts@);
        }
        let mut sum: i64 = 0;
        let mut i: usize = 0;
        let last = path.verts.len() - 1;
        assert(path.verts@.take(1).len() == 1);
        while i < last
            invariant
                self.cities.wf(),
                last == path.verts@.len() - 1,
                i <= last,
                self.cities.walk_length(path.verts@) <= i64::MAX,
                sum == self.cities.walk_length(path.verts@.take(i + 1)),
                forall|k: int|
                    0 <= k <= i && i > 0 ==> self.cities.has_city(#[trigger] path.verts@[k] as int),
            decreases last - i,
        {
            let step = self.cities.distance(path.verts[i], path.verts[i + 1]);
            proof {
                let longer = path.verts@.take(i + 2);
                assert(longer.drop_last() =~= path.verts@.take(i + 1));
                self.cities.lemma_walk_length_prefix(path.verts@, i + 2);
                self.cities.lemma_walk_length_bounds(path.verts@.take(i + 1));
            }
            match step {
                Ok(d) => {
                    sum = sum + d;
                },
                Err(e) => {
                    return Err(e);
                },
            }
            i += 1;
        }
        assert(path.verts@.take(last + 1) =~= path.verts@);
        Ok(sum)
    }

    /// The tour `verts` as a path that carries its length as score.
    pub fn scored_path(&self, verts: Vec<i64>) -> (path: Path)
        requires
            self.cities.wf(),
            is_tour(verts@, self.cities.count as int),
        ensures
            path.verts@ == verts@,
            path.is_scored_tour(&self.cities),
    {
        let mut path = Path::new_with_verts(verts);
        proof {
            self.cities.lemma_walk_length_fits(path.verts@);
            lemma_tour_has_cities(&self.cities, path.verts@);
        }
        let score = match self.fitness(&path) {
            Ok(score) => score,
            Err(_) => UNSCORED,
        };
        path.score = score;
        path
    }

    /// A closed tour in random order: the cities are drawn one by one from
    /// the pool of those that remain, and the first one drawn closes the
    /// tour.
    pub fn random_tour(&mut self) -> (tour: Vec<i64>)
        requires
            old(self).cities.count >= 1,
        ensures
            is_tour(tour@, old(self).cities.count as int),
            final(self).same_apart_from_rng(old(self)),
    {
        let mut pool = self.straight_path();
        let mut tour: Vec<i64> = Vec::new();
        let ghost count = self.cities.count as int;
        while pool.len() > 0
            invariant
                count >= 1,
                self.same_apart_from_rng(old(self)),
                pool@.len() + tour@.len() == count,
                forall|i: int| 0 <= i < pool@.len() ==> 0 <= #[trigger] pool@[i] < count,
                forall|i: int| 0 <= i < tour@.len() ==> 0 <= #[trigger] tour@[i] < count,
                forall|i: int, j: int| 0 <= i < j < pool@.len() ==> pool@[i] != pool@[j],
                forall|i: int, j: int| 0 <= i < j < tour@.len() ==> tour@[i] != tour@[j],
                forall|i: int, j: int|
                    0 <= i < pool@.len() && 0 <= j < tour@.len() ==> pool@[i] != tour@[j],
            decreases pool@.len(),
        {
            let index = draw_index(&mut self.rng, 0, pool.len());
            let ghost before = pool@;
            move_city(&mut pool, index, &mut tour);
            proof {
                assert forall|i: int| 0 <= i < pool@.len() implies pool@[i] == before[if i
                    < index {
                    i
                } else {
                    i + 1
                }] by {}
            }
        }
        let first = tour[0];
        tour.push(first);
        tour
    }

    /// Adds `size` random tours to the population, each with its score, and
    /// records the scores of the generation.
    pub fn init_random(&mut self)
        requires
            old(self).wf(),
        ensures
            final(self).wf(),
            final(self).paths@.len() == old(self).paths@.len() + old(self).size,
            forall|i: int|
                0 <= i < old(self).paths@.len() ==> final(self).paths@[i] == old(self).paths@[i],
            final(self).logger.records() == old(self).logger.records().push(final(self).scores()),
            final(self).size == old(self).size,
            final(self).max_gens == old(self).max_gens,
            final(self).gen_count == old(self).gen_count,
            final(self).cities == old(self).cities,
    {
        let mut i: i64 = 0;
        while i < self.size
            invariant
                0 <= i <= self.size,
                self.wf(),
                self.paths@.len() == old(self).paths@.len() + i,
                forall|k: int|
                    0 <= k < old(self).paths@.len() ==> self.paths@[k] == old(self).paths@[k],
                self.logger == old(self).logger,
                self.size == old(self).size,
                self.max_gens == old(self).max_gens,
                self.gen_count == old(self).gen_count,
                self.cities == old(self).cities,
            decreases self.size - i,
        {
            let pverts = self.random_tour();
            let path = self.scored_path(pverts);
            self.paths.push(path);
            i += 1;
        }
        self.logger.put_scores(&self.paths);
    }

    /// The places of the two tours that survive: one pass over the scores,
    /// in which only a strictly lower score displaces an incumbent, so that
    /// among equal scores the earliest stays.
    pub fn best_two(&self) -> (r: (usize, usize))
        ensures
            is_top_two(self.scores(), r.0 as int, r.1 as int),
            top_two(self.scores()) == (r.0 as int, r.1 as int),
    {
        let mut a: usize = 0;
        let mut b: usize = 0;
        let mut i: usize = 0;
        let ghost s = self.scores();
        while i < self.paths.len()
            invariant
                i <= self.paths.len(),
                s == self.scores(),
                is_top_two(s.take(i as int), a as int, b as int),
            decreases self.paths.len() - i,
        {
            let ghost prefix = s.take(i as int);
            let ghost longer = s.take(i + 1);
            assert(forall|j: int| 0 <= j < i ==> prefix[j] == s[j]);
            assert(forall|j: int| 0 <= j <= i ==> longer[j] == s[j]);
            if self.paths[i].score < self.paths[a].score {
                b = a;
                a = i;
            } else if self.paths[i].score < self.paths[b].score {
                b = i;
            }
            assert(is_top_two(longer, a as int, b as int));
            i += 1;
        }
        proof {
            assert(s.take(i as int) =~= s);
            lemma_top_two_unique(s, a as int, b as int);
        }
        (a, b)
    }

    /// A child of the tours `a` and `b`: their crossover for a window drawn
    /// at random, with two positions drawn at random exchanged.
    pub fn mate(&mut self, a: &Vec<i64>, b: &Vec<i64>) -> (child: Vec<i64>)
        requires
            a@.len() >= 4,
            is_tour(a@, a@.len() - 1),
            is_tour(b@, a@.len() - 1),
        ensures
            is_child_of(child@, a@, b@),
            is_tour(child@, a@.len() - 1),
            final(self).same_apart_from_rng(old(self)),
    {
        let inner_end = a.len() - 2;
        let xstart = draw_index(&mut self.rng, 1, inner_end);
        let xend = draw_index(&mut self.rng, xstart, inner_end);
        let crossed = crossover(a, b, xstart, xend);
        let sa = draw_index(&mut self.rng, 1, inner_end);
        let sb = draw_index(&mut self.rng, 1, inner_end);
        let child = mutate(crossed, sa, sb);
        assert(child@ == swapped(
            crossover_spec(a@, b@, xstart as int, xend as int),
            sa as int,
            sb as int,
        ));
        child
    }

    /// Replaces the generation by the next one and records its scores.
    ///
    /// The two selected tours are carried over unchanged and evaluated
    /// again. Half of the other places are filled with children of the first
    /// and the second selected tour, the other half with children of the
    /// second and the first. The best score never rises from one generation
    /// to the next, nor does the second best.
    pub fn next_generation(&mut self)
        requires
            old(self).wf(),
            old(self).paths@.len() >= 1,
            old(self).gen_count < i64::MAX,
        ensures
            final(self).wf(),
            final(self).paths@.len() == old(self).size,
            bred_from(
                old(self).paths@,
                final(self).paths@,
                top_two(old(self).scores()).0,
                top_two(old(self).scores()).1,
            ),
            best_score(final(self).scores()) <= best_score(old(self).scores()),
            old(self).paths@.len() >= 2 ==> second_best_score(final(self).scores())
                <= second_best_score(old(self).scores()),
            final(self).gen_count == old(self).gen_count + 1,
            final(self).logger.records() == old(self).logger.records().push(final(self).scores()),
            final(self).size == old(self).size,
            final(self).max_gens == old(self).max_gens,
            final(self).cities == old(self).cities,
    {
        let best_indices = self.best_two();
        let best_a = self.copy_vec(&self.paths[best_indices.0].verts);
        let best_b = self.copy_vec(&self.paths[best_indices.1].verts);
        let ghost before = self.paths@;
        let ghost a = best_indices.0 as int;
        let ghost b = best_indices.1 as int;
        assert(before[a].is_scored_tour(&self.cities) && before[b].is_scored_tour(&self.cities));
        let mut new_paths: Vec<Path> = Vec::new();

        let best_path = self.scored_path(self.copy_vec(&best_a));
        new_paths.push(best_path);

        let best_pathb = self.scored_path(self.copy_vec(&best_b));
        new_paths.push(best_pathb);

        let half_size = (self.size - 2) / 2;

        let mut i: i64 = 0;
        while i < half_size
            invariant
                0 <= i <= half_size,
                half_size == (self.size - 2) / 2,
                self.same_apart_from_rng(old(self)),
                self.wf(),
                before == self.paths@,
                best_a@ == before[a].verts@,
                best_b@ == before[b].verts@,
                is_tour(best_a@, self.cities.count as int),
                is_tour(best_b@, self.cities.count as int),
                new_paths@.len() == 2 + i,
                forall|k: int|
                    0 <= k < new_paths@.len() ==> (#[trigger] new_paths@[k]).is_scored_tour(
                        &self.cities,
                    ),
                new_paths@[0].verts@ == best_a@,
                new_paths@[1].verts@ == best_b@,
                forall|k: int|
                    2 <= k < new_paths@.len() ==> is_child_of(
                        (#[trigger] new_paths@[k]).verts@,
                        best_a@,
                        best_b@,
                    ),
            decreases half_size - i,
        {
            let child_verts = self.mate(&best_a, &best_b);
            let path = self.scored_path(child_verts);
            new_paths.push(path);
            i += 1;
        }
        let mut i: i64 = 0;
        while i < half_size
            invariant
                0 <= i <= half_size,
                half_size == (self.size - 2) / 2,
                self.same_apart_from_rng(old(self)),
                self.wf(),
                before == self.paths@,
                best_a@ == before[a].verts@,
                best_b@ == before[b].verts@,
                is_tour(best_a@, self.cities.count as int),
                is_tour(best_b@, self.cities.count as int),
                new_paths@.len() == 2 + half_size + i,
                forall|k: int|
                    0 <= k < new_paths@.len() ==> (#[trigger] new_paths@[k]).is_scored_tour(
                        &self.cities,
                    ),
                new_paths@[0].verts@ == best_a@,
                new_paths@[1].verts@ == best_b@,
                forall|k: int|
                    2 <= k < 2 + half_size ==> is_child_of(
                        (#[trigger] new_paths@[k]).verts@,
                        best_a@,
                        best_b@,
                    ),
                forall|k: int|
                    2 + half_size <= k < new_paths@.len() ==> is_child_of(
                        (#[trigger] new_paths@[k]).verts@,
                        best_b@,
                        best_a@,
                    ),
            decreases half_size - i,
        {
            let child_verts = self.mate(&best_b, &best_a);
            let path = self.scored_path(child_verts);
            new_paths.push(path);
            i += 1;
        }

        proof {
            lemma_elitism(scores_of(before), scores_of(new_paths@), a, b);
        }
        self.paths = new_paths;
        self.gen_count = self.gen_count + 1;
        self.logger.put_scores(&self.paths);
    }

    /// Breeds generation after generation until the budget is used up.
    ///
    /// Each generation adds one record of `size` scores to the log, and the
    /// best score of a record is never above that of the record before it.
    /// Nothing happens where the budget is used up already.
    pub fn run(&mut self)
        requires
            old(self).wf(),
            old(self).paths@.len() >= 1,
        ensures
            final(self).wf(),
            final(self).gen_count == if old(self).gen_count < old(self).max_gens {
                old(self).max_gens
            } else {
                old(self).gen_count
            },
            log_extended(
                old(self).logger.records(),
                final(self).logger.records(),
                final(self).gen_count - old(self).gen_count,
                old(self).size as int,
                best_score(old(self).scores()) as int,
            ),
            final(self).gen_count > old(self).gen_count ==> {
                &&& final(self).paths@.len() == old(self).size
                &&& final(self).logger.records().last() == final(self).scores()
            },
            final(self).gen_count == old(self).gen_count ==> final(self).paths == old(self).paths,
            best_score(final(self).scores()) <= best_score(old(self).scores()),
            old(self).paths@.len() >= 2 ==> second_best_score(final(self).scores())
                <= second_best_score(old(self).scores()),
            final(self).size == old(self).size,
            final(self).max_gens == old(self).max_gens,
            final(self).cities == old(self).cities,
    {
        let ghost start = old(self).gen_count;
        let ghost logged = old(self).logger.records();
        let ghost start_best = best_score(old(self).scores()) as int;
        while self.gen_count < self.max_gens
            invariant
                self.wf(),
                self.paths@.len() >= 1,
                start <= self.gen_count,
                self.gen_count <= self.max_gens || self.gen_count == start,
                start == old(self).gen_count,
                start_best == best_score(old(self).scores()),
                log_extended(
                    logged,
                    self.logger.records(),
                    self.gen_count - start,
                    self.size as int,
                    start_best,
                ),
                self.gen_count > start ==> {
                    &&& self.paths@.len() == self.size
                    &&& self.logger.records().last() == self.scores()
                },
                self.gen_count == start ==> self.paths == old(self).paths,
                best_score(self.scores()) <= start_best,
                old(self).paths@.len() >= 2 ==> {
                    &&& self.paths@.len() >= 2
                    &&& second_best_score(self.scores()) <= second_best_score(old(self).scores())
                },
                self.size == old(self).size,
                self.max_gens == old(self).max_gens,
                self.cities == old(self).cities,
            decreases self.max_gens - self.gen_count,
        {
            self.next_generation();
        }
    }
}

} // verus!
