//! Elite selection: which two tours of a generation survive, and what their
//! survival means for the best scores of the next generation.

use vstd::prelude::*;

verus! {

/// `(a, b)` are the indices that a single pass over the scores `s` selects
/// when only a strictly lower score displaces an incumbent.
///
/// `a` is the first place of the lowest score. If that is place `0`, no score
/// was ever lower than the first and `b` is `0` too. Otherwise `b` is the first
/// place of the lowest score among all places but `a`. Without scores both are
/// `0`.
pub open spec fn is_top_two(s: Seq<i64>, a: int, b: int) -> bool {
    if s.len() == 0 {
        a == 0 && b == 0
    } else {
        &&& 0 <= a < s.len()
        &&& forall|j: int| 0 <= j < s.len() ==> s[a] <= #[trigger] s[j]
        &&& forall|j: int| 0 <= j < a ==> s[a] < #[trigger] s[j]
        &&& if a == 0 {
            b == 0
        } else {
            &&& 0 <= b < s.len()
            &&& b != a
            &&& forall|j: int| 0 <= j < s.len() && j != a ==> s[b] <= #[trigger] s[j]
            &&& forall|j: int| 0 <= j < b && j != a ==> s[b] < #[trigger] s[j]
        }
    }
}

/// The pair of indices selected from the scores `s`.
pub open spec fn top_two(s: Seq<i64>) -> (int, int) {
    choose|p: (int, int)| is_top_two(s, p.0, p.1)
}

/// The scores determine the selected pair: no other pair is selected.
pub proof fn lemma_top_two_unique(s: Seq<i64>, a: int, b: int)
    requires
        is_top_two(s, a, b),
    ensures
        top_two(s) == (a, b),
{
    assert(is_top_two(s, (a, b).0, (a, b).1));
    let p = top_two(s);
    assert(is_top_two(s, p.0, p.1));
    if s.len() > 0 {
        if p.0 < a {
            assert(s[a] < s[p.0]);
        } else if a < p.0 {
            assert(s[p.0] < s[a]);
        }
        if a != 0 {
            if p.1 < b {
                assert(s[b] < s[p.1]);
            } else if b < p.1 {
                assert(s[p.1] < s[b]);
            }
        }
    }
}

/// The lowest of the scores `s`.
pub open spec fn best_score(s: Seq<i64>) -> i64
    decreases s.len(),
{
    if s.len() <= 1 {
        s[0]
    } else {
        let low = best_score(s.drop_last());
        if s.last() < low {
            s.last()
        } else {
            low
        }
    }
}

/// The second lowest of the scores `s`, counted with repetitions: what stands
/// second when the scores are put in rising order.
pub open spec fn second_best_score(s: Seq<i64>) -> i64
    decreases s.len(),
{
    if s.len() <= 2 {
        if s[0] <= s[1] {
            s[1]
        } else {
            s[0]
        }
    } else {
        let low = best_score(s.drop_last());
        let high = second_best_score(s.drop_last());
        if s.last() < low {
            low
        } else if s.last() < high {
            s.last()
        } else {
            high
        }
    }
}

/// `low` and `high` stand at two different places of `s`, nothing in `s` is
/// below `low`, and of any two places one holds at least `high`.
pub open spec fn is_two_lowest(s: Seq<i64>, low: i64, high: i64) -> bool {
    &&& low <= high
    &&& exists|i: int, j: int|
        0 <= i < s.len() && 0 <= j < s.len() && i != j && #[trigger] s[i] == low && #[trigger] s[j]
            == high
    &&& forall|k: int| 0 <= k < s.len() ==> low <= #[trigger] s[k]
    &&& forall|k: int, l: int|
        0 <= k < s.len() && 0 <= l < s.len() && k != l ==> high <= #[trigger] s[k] || high
            <= #[trigger] s[l]
}

/// The best score occurs among the scores and none is lower.
pub proof fn lemma_best_score(s: Seq<i64>)
    requires
        s.len() >= 1,
    ensures
        exists|i: int| 0 <= i < s.len() && #[trigger] s[i] == best_score(s),
        forall|k: int| 0 <= k < s.len() ==> best_score(s) <= #[trigger] s[k],
    decreases s.len(),
{
    if s.len() > 1 {
        let front = s.drop_last();
        lemma_best_score(front);
        let i = choose|i: int| 0 <= i < front.len() && front[i] == best_score(front);
        assert(s[i] == best_score(front));
        assert(s[s.len() - 1] == s.last());
        assert forall|k: int| 0 <= k < s.len() implies best_score(s) <= #[trigger] s[k] by {
            if k < front.len() {
                assert(front[k] == s[k]);
            }
        }
    } else {
        assert(s[0] == best_score(s));
    }
}

/// The best and the second best score are the two lowest scores.
pub proof fn lemma_two_lowest(s: Seq<i64>)
    requires
        s.len() >= 2,
    ensures
        is_two_lowest(s, best_score(s), second_best_score(s)),
    decreases s.len(),
{
    let low = best_score(s);
    let high = second_best_score(s);
    let last = s.len() - 1;
    if s.len() == 2 {
        assert(s.drop_last().len() == 1);
        assert(best_score(s.drop_last()) == s[0]);
        if s[0] <= s[1] {
            assert(s[0] == low && s[1] == high);
        } else {
            assert(s[1] == low && s[0] == high);
        }
    } else {
        let front = s.drop_last();
        lemma_two_lowest(front);
        let old_low = best_score(front);
        let old_high = second_best_score(front);
        let (i, j) = choose|i: int, j: int|
            0 <= i < front.len() && 0 <= j < front.len() && i != j && #[trigger] front[i] == old_low
                && #[trigger] front[j] == old_high;
        assert(s[i] == old_low && s[j] == old_high);
        if s.last() < old_low {
            assert(s[last] == low && s[i] == high);
        } else if s.last() < old_high {
            assert(s[i] == low && s[last] == high);
        } else {
            assert(s[i] == low && s[j] == high);
        }
        assert forall|k: int| 0 <= k < s.len() implies low <= #[trigger] s[k] by {
            if k < last {
                assert(front[k] == s[k]);
            }
        }
        assert forall|k: int, l: int|
            0 <= k < s.len() && 0 <= l < s.len() && k != l implies high <= #[trigger] s[k] || high
            <= #[trigger] s[l] by {
            if k < last && l < last {
                assert(front[k] == s[k] && front[l] == s[l]);
            } else if k < last {
                assert(front[k] == s[k]);
            } else {
                assert(front[l] == s[l]);
            }
        }
    }
}

/// Elitism: where a generation starts with the two tours selected from the
/// one before, its best score is no higher than the best score before, and
/// its second best no higher than the second best before.
pub proof fn lemma_elitism(before: Seq<i64>, after: Seq<i64>, a: int, b: int)
    requires
        before.len() >= 1,
        after.len() >= 2,
        is_top_two(before, a, b),
        after[0] == before[a],
        after[1] == before[b],
    ensures
        best_score(after) <= best_score(before),
        before.len() >= 2 ==> second_best_score(after) <= second_best_score(before),
{
    lemma_best_score(before);
    lemma_best_score(after);
    assert(best_score(after) <= after[0]);
    if before.len() >= 2 {
        lemma_two_lowest(before);
        lemma_two_lowest(after);
        let high = second_best_score(before);
        let (i, j) = choose|i: int, j: int|
            0 <= i < before.len() && 0 <= j < before.len() && i != j && #[trigger] before[i]
                == best_score(before) && #[trigger] before[j] == high;
        // Both survivors score at most `high`.
        assert(before[a] <= before[j]);
        if a != 0 {
            if j != a {
                assert(before[b] <= before[j]);
            } else {
                assert(before[b] <= before[i]);
            }
        }
        assert(after[0] <= high && after[1] <= high);
        assert(second_best_score(after) <= after[0] || second_best_score(after) <= after[1]);
    }
}

} // verus!
