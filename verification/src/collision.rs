//! The rules of the collision pass that do not depend on coordinates:
//! whether a pair of particles is corrected at all, which of the two
//! gives way, and the order in which the pairs are taken.

use vstd::prelude::*;

verus! {

/// How the correction of a pair is divided between its two particles.
#[derive(Clone, Copy, Debug, PartialEq, Eq, Structural)]
pub enum MassSplit {
    /// The first particle is an anchor: the second takes the whole
    /// correction.
    SecondTakesAll,
    /// The second particle is an anchor: the first takes the whole
    /// correction.
    FirstTakesAll,
    /// Neither is an anchor: each takes a share in proportion to the
    /// radius of the other, so that the larger particle moves less.
    ByRadius,
}

/// What the collision pass does with one pair.
#[derive(Clone, Copy, Debug, PartialEq, Eq, Structural)]
pub enum PairAction {
    /// Both particles stay where they are.
    Skip,
    /// The pair is corrected, with the given division.
    Resolve(MassSplit),
}

impl PairAction {
    /// Whether the first particle of the pair may be moved.
    pub open spec fn moves_first(self) -> bool {
        self == PairAction::Resolve(MassSplit::FirstTakesAll) || self == PairAction::Resolve(
            MassSplit::ByRadius,
        )
    }

    /// Whether the second particle of the pair may be moved.
    pub open spec fn moves_second(self) -> bool {
        self == PairAction::Resolve(MassSplit::SecondTakesAll) || self == PairAction::Resolve(
            MassSplit::ByRadius,
        )
    }
}

/// The rule for one pair, taken with the first particle before the second.
///
/// A pair of two anchors is skipped. A pair whose centres are further
/// apart than the sum of the radii (`separated`) is skipped too, unless the
/// first particle is tied to the second (`linked`): a tied pair is
/// corrected whether it overlaps or not. An anchor never gives way.
pub open spec fn decide(
    first_fixed: bool,
    second_fixed: bool,
    linked: bool,
    separated: bool,
) -> PairAction {
    if first_fixed && second_fixed {
        PairAction::Skip
    } else if separated && !linked {
        PairAction::Skip
    } else if first_fixed {
        PairAction::Resolve(MassSplit::SecondTakesAll)
    } else if second_fixed {
        PairAction::Resolve(MassSplit::FirstTakesAll)
    } else {
        PairAction::Resolve(MassSplit::ByRadius)
    }
}

/// Decides what the collision pass does with one pair.
pub fn pair_action(first_fixed: bool, second_fixed: bool, linked: bool, separated: bool) -> (action:
    PairAction)
    ensures
        action == decide(first_fixed, second_fixed, linked, separated),
        first_fixed ==> !action.moves_first(),
        second_fixed ==> !action.moves_second(),
        separated && !linked ==> action == PairAction::Skip,
        !(first_fixed && second_fixed) && (linked || !separated) ==> action != PairAction::Skip,
{
    if first_fixed && second_fixed {
        PairAction::Skip
    } else if separated && !linked {
        PairAction::Skip
    } else if first_fixed {
        PairAction::Resolve(MassSplit::SecondTakesAll)
    } else if second_fixed {
        PairAction::Resolve(MassSplit::FirstTakesAll)
    } else {
        PairAction::Resolve(MassSplit::ByRadius)
    }
}

/// Whether `(first, second)` is a pair of the pass over `count` particles:
/// two distinct indices, the smaller one first.
pub open spec fn is_pair(count: int, first: int, second: int) -> bool {
    0 <= first < second < count
}

/// The order of the pass: by first index, then by second index.
pub open spec fn precedes(first: int, second: int, later_first: int, later_second: int) -> bool {
    first < later_first || (first == later_first && second < later_second)
}

/// Number of pairs of the pass over `count` particles that come before
/// `(first, second)`.
pub open spec fn pair_rank(count: int, first: int, second: int) -> int {
    first * count - first * (first + 1) / 2 + (second - first - 1)
}

/// Number of pairs among `count` particles.
pub open spec fn pair_count(count: int) -> int {
    count * (count - 1) / 2
}

/// The pair that follows the pair `(first, second)` in the pass over
/// `count` particles: the same first index with the next second index, or,
/// once the second index has reached the last particle, the next first
/// index with the index right after it.
pub open spec fn successor(count: int, first: int, second: int) -> Option<(int, int)> {
    if second + 1 < count {
        Some((first, second + 1))
    } else if first + 2 < count {
        Some((first + 1, first + 2))
    } else {
        None
    }
}

/// The pair the pass over `count` particles takes at step `n`, counting
/// from zero, or none if the pass is over by then.
pub open spec fn nth_pair(count: int, n: nat) -> Option<(int, int)>
    decreases n,
{
    if n == 0 {
        if count >= 2 {
            Some((0, 1))
        } else {
            None
        }
    } else {
        match nth_pair(count, (n - 1) as nat) {
            Some(pair) => successor(count, pair.0, pair.1),
            None => None,
        }
    }
}

/// A pair of places read as a pair of numbers.
pub open spec fn as_places(pair: Option<(usize, usize)>) -> Option<(int, int)> {
    match pair {
        Some(p) => Some((p.0 as int, p.1 as int)),
        None => None,
    }
}

/// The pair the pass starts with: `(0, 1)` when there are at least two
/// particles, none otherwise.
pub fn first_pair(count: usize) -> (pair: Option<(usize, usize)>)
    ensures
        as_places(pair) == nth_pair(count as int, 0),
        pair is None <==> forall|first: int, second: int| !is_pair(count as int, first, second),
        pair matches Some(p) ==> {
            &&& is_pair(count as int, p.0 as int, p.1 as int)
            &&& forall|first: int, second: int| #[trigger]
                is_pair(count as int, first, second) ==> !precedes(
                    first,
                    second,
                    p.0 as int,
                    p.1 as int,
                )
        },
{
    if count >= 2 {
        assert(is_pair(count as int, 0, 1));
        Some((0, 1))
    } else {
        None
    }
}

/// The pair that follows `(first, second)` in the pass over `count`
/// particles: the least pair that comes after it, or none once the pass is
/// over. The pass thereby takes every pair once, in order.
pub fn next_pair(count: usize, first: usize, second: usize) -> (pair: Option<(usize, usize)>)
    ensures
        pair is None <==> forall|i: int, j: int|
            is_pair(count as int, i, j) ==> !precedes(first as int, second as int, i, j),
        pair matches Some(p) ==> {
            &&& is_pair(count as int, p.0 as int, p.1 as int)
            &&& precedes(first as int, second as int, p.0 as int, p.1 as int)
            &&& forall|i: int, j: int| #[trigger]
                is_pair(count as int, i, j) && precedes(first as int, second as int, i, j)
                    ==> !precedes(i, j, p.0 as int, p.1 as int)
        },
        is_pair(count as int, first as int, second as int) ==> as_places(pair) == successor(
            count as int,
            first as int,
            second as int,
        ),
{
    let floor: usize = if second < first {
        first
    } else {
        second
    };
    if floor < usize::MAX && floor + 1 < count {
        assert(is_pair(count as int, first as int, floor + 1));
        Some((first, floor + 1))
    } else if first < usize::MAX - 1 && first + 2 < count {
        assert(is_pair(count as int, first + 1, first + 2));
        Some((first + 1, first + 2))
    } else {
        None
    }
}

/// Each step of the pass advances the rank by one: the pass starts at rank
/// zero, and the successor of a pair has the next rank. The ranks of the
/// pairs are therefore the numbers below `pair_count(count)`, each taken
/// by one pair.
pub proof fn lemma_pair_rank(count: int, first: int, second: int)
    requires
        is_pair(count, first, second),
    ensures
        0 <= pair_rank(count, first, second) < pair_count(count),
        pair_rank(count, 0, 1) == 0,
        second + 1 < count ==> pair_rank(count, first, second + 1) == pair_rank(
            count,
            first,
            second,
        ) + 1,
        second + 1 == count && first + 2 < count ==> pair_rank(count, first + 1, first + 2)
            == pair_rank(count, first, second) + 1,
        second + 1 == count && first + 2 >= count ==> pair_rank(count, first, second) + 1
            == pair_count(count),
{
    lemma_triangle(first);
    lemma_triangle(first + 1);
    lemma_triangle(count - 1);
    let t0 = first * (first + 1) / 2;
    let t1 = (first + 1) * (first + 2) / 2;
    let tn = pair_count(count);
    assert(first * count - t0 + (count - first - 1) == (first + 1) * count - t1) by {
        assert((first + 1) * count == first * count + count) by (nonlinear_arith);
    }
    // first <= count - 2, so the pairs with a smaller first index and those
    // with this one fit below the total
    assert(first * count - t0 + (count - first - 1) <= tn) by {
        lemma_rank_bound(count, first);
    }
    assert(first * count - t0 >= 0) by {
        lemma_rank_bound(count, first);
    }
    if first + 2 == count {
        assert((first + 1) * (first + 2) == count * (count - 1)) by (nonlinear_arith)
            requires
                first + 2 == count,
        ;
        assert((first + 1) * count == count * (count - 1)) by (nonlinear_arith)
            requires
                first + 2 == count,
        ;
    }
}

/// The pass takes every pair exactly once: the pair `(first, second)` is
/// taken at the step that its rank names, and at no other.
pub proof fn lemma_every_pair_once(count: int, first: int, second: int)
    requires
        is_pair(count, first, second),
    ensures
        nth_pair(count, pair_rank(count, first, second) as nat) == Some((first, second)),
        forall|n: nat| #[trigger]
            nth_pair(count, n) == Some((first, second)) ==> n == pair_rank(count, first, second),
    decreases first, second,
{
    lemma_pair_rank(count, first, second);
    if second > first + 1 {
        lemma_every_pair_once(count, first, second - 1);
        lemma_pair_rank(count, first, second - 1);
    } else if first > 0 {
        lemma_every_pair_once(count, first - 1, count - 1);
        lemma_pair_rank(count, first - 1, count - 1);
    }
    assert forall|n: nat| #[trigger]
        nth_pair(count, n) == Some((first, second)) implies n == pair_rank(
        count,
        first,
        second,
    ) by {
        lemma_step_has_rank(count, n);
    }
}

/// Whatever pair the pass takes at step `n` is a pair of the pass, and `n`
/// is its rank. The pass is over at the step after the last pair's and
/// stays so.
pub proof fn lemma_step_has_rank(count: int, n: nat)
    requires
        count >= 0,
    ensures
        nth_pair(count, n) matches Some(pair) ==> is_pair(count, pair.0, pair.1) && pair_rank(
            count,
            pair.0,
            pair.1,
        ) == n,
        nth_pair(count, n) is None <==> n >= pair_count(count),
        pair_count(count) >= 0,
    decreases n,
{
    assert(count * (count - 1) >= 0) by (nonlinear_arith)
        requires
            count >= 0,
    ;
    if n == 0 {
        if count >= 2 {
            lemma_pair_rank(count, 0, 1);
        } else {
            assert(count * (count - 1) == 0) by (nonlinear_arith)
                requires
                    0 <= count <= 1,
            ;
        }
    } else {
        lemma_step_has_rank(count, (n - 1) as nat);
        match nth_pair(count, (n - 1) as nat) {
            Some(pair) => {
                lemma_pair_rank(count, pair.0, pair.1);
                if pair.1 + 1 < count {
                    lemma_pair_rank(count, pair.0, pair.1 + 1);
                } else if pair.0 + 2 < count {
                    lemma_pair_rank(count, pair.0 + 1, pair.0 + 2);
                }
            },
            None => {},
        }
    }
}

/// The product of two successive numbers is even, so halving it loses
/// nothing; and the sum of the numbers up to `n + 1` is that up to `n`
/// and `n + 1`.
proof fn lemma_triangle(n: int)
    requires
        n >= 0,
    ensures
        (n * (n + 1)) % 2 == 0,
        2 * (n * (n + 1) / 2) == n * (n + 1),
        (n + 1) * (n + 2) / 2 == n * (n + 1) / 2 + n + 1,
    decreases n,
{
    let here = n * (n + 1);
    let next = (n + 1) * (n + 2);
    if n > 0 {
        let m = n - 1;
        lemma_triangle(m);
        let below = m * (m + 1);
        assert(here == below + 2 * n) by (nonlinear_arith)
            requires
                m == n - 1,
                here == n * (n + 1),
                below == m * (m + 1),
        ;
    } else {
        assert(here == 0) by (nonlinear_arith)
            requires
                n == 0,
                here == n * (n + 1),
        ;
    }
    assert(next == here + 2 * (n + 1)) by (nonlinear_arith)
        requires
            here == n * (n + 1),
            next == (n + 1) * (n + 2),
    ;
}

/// The pairs whose first index is at most `first` are among all pairs.
proof fn lemma_rank_bound(count: int, first: int)
    requires
        0 <= first,
        first + 2 <= count,
    ensures
        first * count - first * (first + 1) / 2 >= 0,
        first * count - first * (first + 1) / 2 + (count - first - 1) <= pair_count(count),
{
    lemma_triangle(first);
    lemma_triangle(count - 1);
    let t0 = first * (first + 1) / 2;
    let tn = count * (count - 1) / 2;
    assert((count - 1) * count == count * (count - 1)) by (nonlinear_arith);
    assert(2 * t0 == first * (first + 1));
    assert(2 * tn == count * (count - 1));
    assert(2 * (first * count) - first * (first + 1) >= 0) by (nonlinear_arith)
        requires
            0 <= first,
            first + 2 <= count,
    ;
    assert(2 * (first * count) - first * (first + 1) + 2 * (count - first - 1) <= count * (count
        - 1)) by (nonlinear_arith)
        requires
            0 <= first,
            first + 2 <= count,
    ;
}

} // verus!
