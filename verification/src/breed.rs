//! Breeding: order-preserving crossover of two parent tours and the point
//! mutation of a child, both as functions of the positions that were drawn.

use crate::path::is_tour;
use vstd::prelude::*;
use vstd::set_lib::*;

verus! {

/// The child inherits the city `v` from the first parent `a`: it is the start
/// city of `a`, or stands in the window `xstart..=xend` of `a`.
pub open spec fn inherits(a: Seq<i64>, xstart: int, xend: int, v: i64) -> bool {
    v == a[0] || exists|k: int| xstart <= k <= xend && #[trigger] a[k] == v
}

/// The test by which a city of the second parent is kept for the open slots.
pub open spec fn is_left_over(a: Seq<i64>, xstart: int, xend: int) -> spec_fn(i64) -> bool {
    |v: i64| !inherits(a, xstart, xend, v)
}

/// The cities of the second parent `b` that the child does not inherit from
/// `a`, in the order in which `b` visits them.
pub open spec fn leftover(a: Seq<i64>, b: Seq<i64>, xstart: int, xend: int) -> Seq<i64> {
    b.filter(is_left_over(a, xstart, xend))
}

/// The number of slots strictly between the start and position `i` that lie
/// outside the window `xstart..=xend`.
pub open spec fn open_slots_before(xstart: int, xend: int, i: int) -> int {
    if i <= xstart {
        i - 1
    } else if i <= xend {
        xstart - 1
    } else {
        i - 2 - (xend - xstart)
    }
}

/// The two parents and the window fit together: both are closed tours over the
/// same cities, at least three of them, and the window lies strictly inside.
pub open spec fn can_cross(a: Seq<i64>, b: Seq<i64>, xstart: int, xend: int) -> bool {
    &&& a.len() >= 4
    &&& is_tour(a, a.len() - 1)
    &&& is_tour(b, a.len() - 1)
    &&& 1 <= xstart <= xend <= a.len() - 2
}

/// The child of `a` and `b` for the window `xstart..=xend`.
///
/// It starts and ends at the start city of `a`, agrees with `a` inside the
/// window, and holds in its other slots, from left to right, the cities of `b`
/// that it did not inherit, in the order of `b`.
pub open spec fn crossover_spec(a: Seq<i64>, b: Seq<i64>, xstart: int, xend: int) -> Seq<i64> {
    Seq::new(
        a.len(),
        |i: int|
            if i == 0 || i == a.len() - 1 {
                a[0]
            } else if xstart <= i <= xend {
                a[i]
            } else {
                leftover(a, b, xstart, xend)[open_slots_before(xstart, xend, i)]
            },
    )
}

/// `v` with the values at the positions `sa` and `sb` exchanged.
pub open spec fn swapped(v: Seq<i64>, sa: int, sb: int) -> Seq<i64> {
    v.update(sa, v[sb]).update(sb, v[sa])
}

/// `child` can be bred from `a` and `b`: some window and some pair of
/// swapped positions, all strictly inside the tour and before its last inner
/// position, give it.
pub open spec fn is_child_of(child: Seq<i64>, a: Seq<i64>, b: Seq<i64>) -> bool {
    exists|xstart: int, xend: int, sa: int, sb: int|
        1 <= xstart <= xend < a.len() - 2 && 1 <= sa < a.len() - 2 && 1 <= sb < a.len() - 2
            && child == #[trigger] swapped(crossover_spec(a, b, xstart, xend), sa, sb)
}

/// Filtering a sequence without repetitions leaves none.
pub proof fn lemma_filter_keeps_distinct(s: Seq<i64>, keep: spec_fn(i64) -> bool)
    requires
        s.no_duplicates(),
    ensures
        s.filter(keep).no_duplicates(),
    decreases s.len(),
{
    reveal(Seq::filter);
    if s.len() > 0 {
        let front = s.drop_last();
        lemma_filter_keeps_distinct(front, keep);
        if keep(s.last()) {
            let kept = front.filter(keep);
            if kept.contains(s.last()) {
                front.lemma_filter_contains_rev(keep, s.last());
                let j = choose|j: int| 0 <= j < front.len() && front[j] == s.last();
                assert(s[j] == s[s.len() - 1]);
            }
            assert forall|i: int, j: int|
                0 <= i < j < kept.push(s.last()).len() implies kept.push(s.last())[i] != kept.push(
                s.last(),
            )[j] by {
                if j == kept.len() {
                    assert(kept[i] == kept.push(s.last())[i]);
                    assert(kept.contains(kept[i]));
                }
            }
        }
    }
}

/// What the leftover cities are made of: the cities that `b` visits before
/// its closing vertex and the child does not inherit, none of them twice,
/// and after them at most the closing vertex of `b` once more. They are
/// enough to fill every open slot.
pub proof fn lemma_leftover(a: Seq<i64>, b: Seq<i64>, xstart: int, xend: int)
    requires
        can_cross(a, b, xstart, xend),
    ensures
        ({
            let inner = b.drop_last().filter(is_left_over(a, xstart, xend));
            let all = leftover(a, b, xstart, xend);
            &&& inner.no_duplicates()
            &&& a.len() - 3 - (xend - xstart) <= inner.len() <= all.len()
            &&& forall|k: int| 0 <= k < inner.len() ==> all[k] == #[trigger] inner[k]
            &&& forall|k: int|
                0 <= k < inner.len() ==> 0 <= #[trigger] inner[k] < a.len() - 1 && !inherits(
                    a,
                    xstart,
                    xend,
                    inner[k],
                )
        }),
{
    let keep = is_left_over(a, xstart, xend);
    let count = a.len() - 1;
    let walk = b.drop_last();
    let inner = walk.filter(keep);
    let all = leftover(a, b, xstart, xend);
    assert(walk.no_duplicates());
    lemma_filter_keeps_distinct(walk, keep);
    assert(b =~= walk.push(b.last()));
    walk.lemma_filter_push(b.last(), keep);
    assert forall|k: int| 0 <= k < inner.len() implies 0 <= #[trigger] inner[k] < count
        && !inherits(a, xstart, xend, inner[k]) by {
        walk.lemma_filter_pred(keep, k);
        assert(inner.contains(inner[k]));
        walk.lemma_filter_contains_rev(keep, inner[k]);
        let j = choose|j: int| 0 <= j < walk.len() && walk[j] == inner[k];
        assert(b[j] == inner[k]);
    }
    // Every city that `b` visits is either left over or inherited, and at
    // most `xend - xstart + 2` cities are inherited.
    let taken = seq![a[0]] + a.subrange(xstart, xend + 1);
    walk.unique_seq_to_set();
    inner.lemma_cardinality_of_set();
    taken.lemma_cardinality_of_set();
    vstd::seq_lib::seq_to_set_is_finite(walk);
    vstd::seq_lib::seq_to_set_is_finite(inner);
    vstd::seq_lib::seq_to_set_is_finite(taken);
    assert(walk.to_set().subset_of(inner.to_set().union(taken.to_set()))) by {
        assert forall|v: i64| walk.to_set().contains(v) implies inner.to_set().union(
            taken.to_set(),
        ).contains(v) by {
            let j = choose|j: int| 0 <= j < walk.len() && walk[j] == v;
            if keep(v) {
                walk.lemma_filter_contains(keep, j);
            } else {
                if v == a[0] {
                    assert(taken[0] == v);
                } else {
                    let k = choose|k: int| xstart <= k <= xend && a[k] == v;
                    assert(taken[k - xstart + 1] == v);
                }
                assert(taken.contains(v));
            }
        }
    }
    lemma_len_union(inner.to_set(), taken.to_set());
    lemma_len_subset(walk.to_set(), inner.to_set().union(taken.to_set()));
}

/// Outside the window, a later slot has more open slots before it.
pub proof fn lemma_open_slots_grow(xstart: int, xend: int, i: int, j: int)
    requires
        1 <= xstart <= xend,
        1 <= i < j,
        !(xstart <= i <= xend),
        !(xstart <= j <= xend),
    ensures
        0 <= open_slots_before(xstart, xend, i) < open_slots_before(xstart, xend, j),
{
}

/// The child of two closed tours is a closed tour over the same cities.
pub proof fn lemma_crossover_closure(a: Seq<i64>, b: Seq<i64>, xstart: int, xend: int)
    requires
        can_cross(a, b, xstart, xend),
    ensures
        is_tour(crossover_spec(a, b, xstart, xend), a.len() - 1),
{
    let child = crossover_spec(a, b, xstart, xend);
    let count = a.len() - 1;
    let inner = b.drop_last().filter(is_left_over(a, xstart, xend));
    lemma_leftover(a, b, xstart, xend);
    assert forall|i: int| 1 <= i < count && !(xstart <= i <= xend) implies 0
        <= open_slots_before(xstart, xend, i) < inner.len() && child[i] == inner[open_slots_before(
        xstart,
        xend,
        i,
    )] by {}
    assert forall|i: int| 0 <= i < count implies 0 <= #[trigger] child[i] < count by {}
    assert forall|i: int, j: int| 0 <= i < j < count implies child[i] != child[j] by {
        let i_open = 1 <= i && !(xstart <= i <= xend);
        let j_open = !(xstart <= j <= xend);
        if i_open && j_open {
            lemma_open_slots_grow(xstart, xend, i, j);
        } else if i_open {
            assert(inherits(a, xstart, xend, child[j]));
        } else if j_open {
            assert(inherits(a, xstart, xend, child[i]));
        }
    }
}

/// Exchanging two inner positions of a closed tour leaves a closed tour.
pub proof fn lemma_mutation_closure(verts: Seq<i64>, count: int, sa: int, sb: int)
    requires
        is_tour(verts, count),
        1 <= sa < count,
        1 <= sb < count,
    ensures
        is_tour(swapped(verts, sa, sb), count),
{
    let after = swapped(verts, sa, sb);
    let back = |i: int|
        if i == sa {
            sb
        } else if i == sb {
            sa
        } else {
            i
        };
    assert forall|i: int| 0 <= i <= count implies #[trigger] after[i] == verts[back(i)] by {}
    assert forall|i: int, j: int| 0 <= i < j < count implies after[i] != after[j] by {
        assert(after[i] == verts[back(i)] && after[j] == verts[back(j)]);
        assert(back(i) != back(j));
        if back(i) < back(j) {
        } else {
            assert(verts[back(j)] != verts[back(i)]);
        }
    }
    assert forall|i: int| 0 <= i < count implies 0 <= #[trigger] after[i] < count by {
        assert(after[i] == verts[back(i)]);
    }
}

/// Whether some slot holds the city `v`.
fn slot_holds(slots: &Vec<Option<i64>>, v: i64) -> (found: bool)
    ensures
        found == exists|k: int| 0 <= k < slots@.len() && slots@[k] == Some(v),
{
    let mut k: usize = 0;
    while k < slots.len()
        invariant
            k <= slots.len(),
            forall|j: int| 0 <= j < k ==> slots@[j] != Some(v),
        decreases slots.len() - k,
    {
        match slots[k] {
            Some(x) => {
                if x == v {
                    return true;
                }
            },
            None => {},
        }
        k += 1;
    }
    false
}

/// What a slot holds before the leftover cities are filled in.
pub open spec fn inherited_slot(a: Seq<i64>, xstart: int, xend: int, i: int) -> Option<i64> {
    if i == 0 || i == a.len() - 1 {
        Some(a[0])
    } else if xstart <= i <= xend {
        Some(a[i])
    } else {
        None
    }
}

/// Order-preserving crossover of the parents `a` and `b` for the window
/// `xstart..=xend`.
///
/// The child keeps the start city of `a` at both ends and the window of `a`
/// in place; the cities of `b` that are not yet in the child fill the other
/// slots from left to right, in the order of `b`. The child is again a closed
/// tour over the same cities.
pub fn crossover(a: &Vec<i64>, b: &Vec<i64>, xstart: usize, xend: usize) -> (child: Vec<i64>)
    requires
        can_cross(a@, b@, xstart as int, xend as int),
    ensures
        child@ == crossover_spec(a@, b@, xstart as int, xend as int),
        is_tour(child@, a@.len() - 1),
{
    let n = a.len();
    let ghost keep = is_left_over(a@, xstart as int, xend as int);
    // The slots that the child inherits; the others stay open.
    let mut slots: Vec<Option<i64>> = Vec::new();
    let mut i: usize = 0;
    while i < n
        invariant
            n == a@.len(),
            n >= 4,
            i <= n,
            slots@.len() == i,
            forall|j: int|
                0 <= j < i ==> slots@[j] == inherited_slot(a@, xstart as int, xend as int, j),
        decreases n - i,
    {
        if i == 0 || i == n - 1 {
            slots.push(Some(a[0]));
        } else if xstart <= i && i <= xend {
            slots.push(Some(a[i]));
        } else {
            slots.push(None);
        }
        i += 1;
    }
    // The cities of `b` that no slot holds yet, in the order of `b`.
    let mut extra: Vec<i64> = Vec::new();
    let mut i: usize = 0;
    while i < n
        invariant
            n == a@.len(),
            n == b@.len(),
            n >= 4,
            1 <= xstart <= xend <= n - 2,
            i <= n,
            keep == is_left_over(a@, xstart as int, xend as int),
            slots@.len() == n,
            forall|j: int|
                0 <= j < n ==> slots@[j] == inherited_slot(a@, xstart as int, xend as int, j),
            extra@ == b@.take(i as int).filter(keep),
        decreases n - i,
    {
        let city = b[i];
        let held = slot_holds(&slots, city);
        proof {
            if inherits(a@, xstart as int, xend as int, city) {
                if city == a@[0] {
                    assert(slots@[0] == Some(city));
                } else {
                    let k = choose|k: int| xstart <= k <= xend && a@[k] == city;
                    assert(slots@[k] == Some(city));
                }
            }
            b@.take(i as int).lemma_filter_push(city, keep);
            assert(b@.take(i + 1) =~= b@.take(i as int).push(city));
        }
        if !held {
            extra.push(city);
        }
        i += 1;
    }
    proof {
        assert(b@.take(n as int) =~= b@);
        lemma_leftover(a@, b@, xstart as int, xend as int);
        lemma_crossover_closure(a@, b@, xstart as int, xend as int);
    }
    // Open slots take the leftover cities from the front of the queue.
    let mut child: Vec<i64> = Vec::new();
    let mut next: usize = 0;
    let mut i: usize = 0;
    while i < n
        invariant
            n == a@.len(),
            n >= 4,
            1 <= xstart <= xend <= n - 2,
            i <= n,
            slots@.len() == n,
            forall|j: int|
                0 <= j < n ==> slots@[j] == inherited_slot(a@, xstart as int, xend as int, j),
            extra@ == leftover(a@, b@, xstart as int, xend as int),
            n - 3 - (xend - xstart) <= extra@.len(),
            child@.len() == i,
            i == 0 ==> next == 0,
            0 < i < n ==> next == open_slots_before(xstart as int, xend as int, i as int),
            forall|j: int|
                0 <= j < i ==> child@[j] == crossover_spec(
                    a@,
                    b@,
                    xstart as int,
                    xend as int,
                )[j],
        decreases n - i,
    {
        match slots[i] {
            Some(city) => {
                child.push(city);
            },
            None => {
                child.push(extra[next]);
                next += 1;
            },
        }
        i += 1;
    }
    assert(child@ =~= crossover_spec(a@, b@, xstart as int, xend as int));
    child
}

/// Point mutation: exchanges the cities at the positions `sa` and `sb`.
///
/// With both positions strictly inside a closed tour, the result is a closed
/// tour again; with `sa == sb` nothing changes.
pub fn mutate(verts: Vec<i64>, sa: usize, sb: usize) -> (mutated: Vec<i64>)
    requires
        sa < verts@.len(),
        sb < verts@.len(),
    ensures
        mutated@ == swapped(verts@, sa as int, sb as int),
        is_tour(verts@, verts@.len() - 1) && 1 <= sa < verts@.len() - 1 && 1 <= sb < verts@.len()
            - 1 ==> is_tour(mutated@, verts@.len() - 1),
{
    let mut mutated = verts;
    let save = mutated[sa];
    let other = mutated[sb];
    mutated.set(sa, other);
    mutated.set(sb, save);
    proof {
        if is_tour(verts@, verts@.len() - 1) && 1 <= sa < verts@.len() - 1 && 1 <= sb
            < verts@.len() - 1 {
            lemma_mutation_closure(verts@, verts@.len() - 1, sa as int, sb as int);
        }
    }
    mutated
}

} // verus!
