use verlet_universe::collision::first_pair;
use verlet_universe::collision::next_pair;
use verlet_universe::collision::pair_action;
use verlet_universe::collision::MassSplit;
use verlet_universe::collision::PairAction;

/// The pairs of a whole pass, in the order in which they are taken.
fn walk(count: usize) -> Vec<(usize, usize)> {
    let mut pairs = Vec::new();
    let mut pair = first_pair(count);
    while let Some((first, second)) = pair {
        pairs.push((first, second));
        pair = next_pair(count, first, second);
    }
    pairs
}

#[test]
fn two_anchors_are_skipped() {
    for linked in [false, true] {
        for separated in [false, true] {
            assert_eq!(pair_action(true, true, linked, separated), PairAction::Skip);
        }
    }
}

#[test]
fn a_separated_pair_without_a_link_is_skipped() {
    assert_eq!(pair_action(false, false, false, true), PairAction::Skip);
    assert_eq!(pair_action(true, false, false, true), PairAction::Skip);
    assert_eq!(pair_action(false, true, false, true), PairAction::Skip);
}

#[test]
fn a_linked_pair_is_resolved_even_when_separated() {
    assert_eq!(
        pair_action(false, false, true, true),
        PairAction::Resolve(MassSplit::ByRadius)
    );
    assert_eq!(
        pair_action(true, false, true, true),
        PairAction::Resolve(MassSplit::SecondTakesAll)
    );
    assert_eq!(
        pair_action(false, true, true, true),
        PairAction::Resolve(MassSplit::FirstTakesAll)
    );
}

#[test]
fn an_overlapping_pair_is_resolved() {
    for linked in [false, true] {
        assert_eq!(
            pair_action(false, false, linked, false),
            PairAction::Resolve(MassSplit::ByRadius)
        );
        assert_eq!(
            pair_action(true, false, linked, false),
            PairAction::Resolve(MassSplit::SecondTakesAll)
        );
        assert_eq!(
            pair_action(false, true, linked, false),
            PairAction::Resolve(MassSplit::FirstTakesAll)
        );
    }
}

#[test]
fn no_pass_over_fewer_than_two_particles() {
    assert_eq!(first_pair(0), None);
    assert_eq!(first_pair(1), None);
    assert_eq!(walk(0), vec![]);
    assert_eq!(walk(1), vec![]);
}

#[test]
fn the_pass_starts_with_the_first_two_particles() {
    assert_eq!(first_pair(2), Some((0, 1)));
    assert_eq!(first_pair(100), Some((0, 1)));
    assert_eq!(first_pair(usize::MAX), Some((0, 1)));
}

#[test]
fn the_pass_over_two_particles_has_one_pair() {
    assert_eq!(walk(2), vec![(0, 1)]);
    assert_eq!(next_pair(2, 0, 1), None);
}

#[test]
fn the_pass_over_four_particles() {
    assert_eq!(walk(4), vec![(0, 1), (0, 2), (0, 3), (1, 2), (1, 3), (2, 3)]);
}

#[test]
fn next_pair_steps_the_second_index_first() {
    assert_eq!(next_pair(5, 0, 1), Some((0, 2)));
    assert_eq!(next_pair(5, 0, 3), Some((0, 4)));
    assert_eq!(next_pair(5, 0, 4), Some((1, 2)));
    assert_eq!(next_pair(5, 2, 4), Some((3, 4)));
    assert_eq!(next_pair(5, 3, 4), None);
}

#[test]
fn next_pair_takes_the_least_pair_after_any_position() {
    // Positions that are no pairs of the pass themselves.
    assert_eq!(next_pair(5, 1, 0), Some((1, 2)));
    assert_eq!(next_pair(5, 1, 1), Some((1, 2)));
    assert_eq!(next_pair(5, 3, 10), None);
    assert_eq!(next_pair(5, 2, 10), Some((3, 4)));
    assert_eq!(next_pair(5, 7, 8), None);
    assert_eq!(next_pair(0, 0, 0), None);
    assert_eq!(next_pair(usize::MAX, usize::MAX, usize::MAX), None);
    assert_eq!(next_pair(usize::MAX, 0, usize::MAX), Some((1, 2)));
}

#[test]
fn the_pass_takes_every_pair_once_and_in_order() {
    for count in 0..30usize {
        let pairs = walk(count);
        assert_eq!(pairs.len(), count * count.saturating_sub(1) / 2);
        let mut expected = Vec::new();
        for first in 0..count {
            for second in (first + 1)..count {
                expected.push((first, second));
            }
        }
        assert_eq!(pairs, expected);
    }
}
