//! The mathematical model of a particle universe, and what holds of it.
//!
//! A step integrates every particle, then corrects every pair of particles
//! once, then confines every particle to the boundary circle. The model
//! says what each pass does to the store, given what the functions that do
//! the arithmetic return; it is generic in the scalar type of the
//! coordinates and never computes with one.

use crate::collision::decide;
use crate::collision::nth_pair;
use crate::collision::pair_count;
use crate::collision::MassSplit;
use crate::collision::PairAction;
use crate::constraints::Constraints;
use crate::particle::Particle;
use crate::particle::Vec2;
use vstd::prelude::*;

verus! {

/// Mathematical model of a universe.
pub struct World<T> {
    /// Acceleration applied to every particle along the second axis.
    pub gravity: T,
    /// Multiplier on every positional correction.
    pub response_coeff: T,
    /// First coordinate of the centre of the boundary circle.
    pub circle_constraint_center_x: T,
    /// Second coordinate of the centre of the boundary circle.
    pub circle_constraint_center_y: T,
    /// Radius of the boundary circle.
    pub circle_constraint_radius: T,
    /// The particles, in the order of their creation.
    pub particles: Seq<Particle<T>>,
    /// The anchors and ties.
    pub constraints: Constraints,
}

impl<T> World<T> {
    /// Every particle carries its place in the store as its identifier, so
    /// no two particles share one.
    pub open spec fn wf(self) -> bool {
        &&& self.particles.len() <= u64::MAX
        &&& forall|k: int|
            0 <= k < self.particles.len() ==> (#[trigger] self.particles[k]).id == k
    }

    /// The universe with the given configuration and nothing in it.
    pub open spec fn empty(
        gravity: T,
        response_coeff: T,
        circle_constraint_center_x: T,
        circle_constraint_center_y: T,
        circle_constraint_radius: T,
    ) -> World<T> {
        World {
            gravity,
            response_coeff,
            circle_constraint_center_x,
            circle_constraint_center_y,
            circle_constraint_radius,
            particles: Seq::empty(),
            constraints: Constraints::empty(),
        }
    }

    /// The identifier the next particle will get: the number of particles
    /// created since the universe was last empty.
    pub open spec fn next_id(self) -> u64 {
        self.particles.len() as u64
    }

    /// The universe after a particle with the given attributes has been
    /// created.
    pub open spec fn with_particle(
        self,
        x: T,
        y: T,
        old_x: T,
        old_y: T,
        radius: T,
        color: T,
    ) -> World<T> {
        World {
            particles: self.particles.push(
                Particle {
                    id: self.next_id(),
                    pos: Vec2(x, y),
                    old_pos: Vec2(old_x, old_y),
                    radius,
                    color,
                },
            ),
            ..self
        }
    }

    /// Whether the position, the previous position, the radius and the
    /// colour of `particle` are what one call of `draw` may return.
    pub open spec fn drawn<G: FnOnce() -> (Vec2<T>, Vec2<T>, T, T)>(
        draw: G,
        particle: Particle<T>,
    ) -> bool {
        call_ensures(draw, (), (particle.pos, particle.old_pos, particle.radius, particle.color))
    }

    /// The universe after all particles are deleted: no particle, no
    /// anchor and no tie is left; the configuration stays.
    pub open spec fn cleared(self) -> World<T> {
        World { particles: Seq::empty(), constraints: Constraints::empty(), ..self }
    }

    /// The universe after the integration pass has taken each particle to
    /// the position given for it.
    pub open spec fn integrated(self, positions: Seq<Vec2<T>>) -> World<T> {
        World {
            particles: Seq::new(
                self.particles.len(),
                |k: int| self.particles[k].advanced(positions[k]),
            ),
            ..self
        }
    }

    /// The universe after the boundary pass has put each particle at the
    /// projection given for it, if one is given.
    pub open spec fn confined(self, projections: Seq<Option<Vec2<T>>>) -> World<T> {
        World {
            particles: Seq::new(
                self.particles.len(),
                |k: int| self.particles[k].confined(projections[k]),
            ),
            ..self
        }
    }

    /// The centre of the boundary circle.
    pub open spec fn circle_constraint_center(self) -> Vec2<T> {
        Vec2(self.circle_constraint_center_x, self.circle_constraint_center_y)
    }

    /// Whether `positions` holds, for each particle in turn, a position that
    /// `integrate` may return when it is handed the particle, the gravity
    /// of this universe and the time step.
    pub open spec fn integrates<F: Fn(Particle<T>, T, T) -> Vec2<T>>(
        self,
        positions: Seq<Vec2<T>>,
        dt: T,
        integrate: F,
    ) -> bool {
        &&& positions.len() == self.particles.len()
        &&& forall|k: int|
            0 <= k < positions.len() ==> call_ensures(
                integrate,
                (self.particles[k], self.gravity, dt),
                #[trigger] positions[k],
            )
    }

    /// Whether `after` is this universe after an integration pass in which
    /// `integrate` worked out the new positions.
    pub open spec fn integration_pass<F: Fn(Particle<T>, T, T) -> Vec2<T>>(
        self,
        after: World<T>,
        dt: T,
        integrate: F,
    ) -> bool {
        exists|positions: Seq<Vec2<T>>|
            self.integrates(positions, dt, integrate) && after == self.integrated(positions)
    }

    /// Whether `projections` holds, for each particle in turn, what
    /// `project` may return when it is handed the particle and the centre
    /// and the radius of the boundary circle.
    pub open spec fn confines<P: Fn(Particle<T>, Vec2<T>, T) -> Option<Vec2<T>>>(
        self,
        projections: Seq<Option<Vec2<T>>>,
        project: P,
    ) -> bool {
        &&& projections.len() == self.particles.len()
        &&& forall|k: int|
            0 <= k < projections.len() ==> call_ensures(
                project,
                (self.particles[k], self.circle_constraint_center(), self.circle_constraint_radius),
                #[trigger] projections[k],
            )
    }

    /// Whether `after` is this universe after a boundary pass in which
    /// `project` worked out the projections.
    pub open spec fn boundary_pass<P: Fn(Particle<T>, Vec2<T>, T) -> Option<Vec2<T>>>(
        self,
        after: World<T>,
        project: P,
    ) -> bool {
        exists|projections: Seq<Option<Vec2<T>>>|
            self.confines(projections, project) && after == self.confined(projections)
    }

    /// Whether `first` and `second` are both anchors.
    pub open spec fn both_fixed(self, first: Particle<T>, second: Particle<T>) -> bool {
        self.constraints.is_fixed(first.id) && self.constraints.is_fixed(second.id)
    }

    /// What the collision pass does with the pair of `first` and `second`,
    /// which consults the registry by their identifiers only.
    pub open spec fn pair_action(
        self,
        first: Particle<T>,
        second: Particle<T>,
        separated: bool,
    ) -> PairAction {
        decide(
            self.constraints.is_fixed(first.id),
            self.constraints.is_fixed(second.id),
            self.constraints.links_to(first.id, second.id),
            separated,
        )
    }

    /// The two particles of a pair after the collision pass has dealt with
    /// them, where `first_pos` and `second_pos` are the corrected positions
    /// worked out for them. A particle that may not be moved is returned as
    /// it was; of one that is moved only the position changes.
    pub open spec fn resolved(
        self,
        first: Particle<T>,
        second: Particle<T>,
        separated: bool,
        first_pos: Vec2<T>,
        second_pos: Vec2<T>,
    ) -> (Particle<T>, Particle<T>) {
        let action = self.pair_action(first, second, separated);
        (
            if action.moves_first() {
                first.moved_to(first_pos)
            } else {
                first
            },
            if action.moves_second() {
                second.moved_to(second_pos)
            } else {
                second
            },
        )
    }

    /// Whether `first` and `second` are the places of two different
    /// particles.
    pub open spec fn distinct_places(self, first: int, second: int) -> bool {
        &&& 0 <= first < self.particles.len()
        &&& 0 <= second < self.particles.len()
        &&& first != second
    }

    /// The universe after the collision pass has dealt with the particles
    /// at the places `first` and `second`. Anything but two different
    /// places of the store leaves the universe as it is.
    pub open spec fn collided(
        self,
        first: int,
        second: int,
        separated: bool,
        first_pos: Vec2<T>,
        second_pos: Vec2<T>,
    ) -> World<T> {
        if self.distinct_places(first, second) {
            let pair = self.resolved(
                self.particles[first],
                self.particles[second],
                separated,
                first_pos,
                second_pos,
            );
            World { particles: self.particles.update(first, pair.0).update(second, pair.1), ..self }
        } else {
            self
        }
    }

    /// The universe after the collision pass has dealt with its first
    /// `outcomes.len()` pairs, taken in the order of the pass, each with
    /// what was worked out for it. Every pair is dealt with in the state
    /// the pairs before it have left.
    pub open spec fn after_pairs(self, outcomes: Seq<Outcome<T>>) -> World<T>
        decreases outcomes.len(),
    {
        if outcomes.len() == 0 {
            self
        } else {
            let before = self.after_pairs(outcomes.drop_last());
            match nth_pair(self.particles.len() as int, (outcomes.len() - 1) as nat) {
                Some(pair) => before.collided(
                    pair.0,
                    pair.1,
                    outcomes.last().separated,
                    outcomes.last().first_pos,
                    outcomes.last().second_pos,
                ),
                None => before,
            }
        }
    }

    /// Whether `outcomes[k]` is what `separated` and `correct` may return
    /// for the pair the pass takes at step `k`, when they are handed its two
    /// particles as the pairs before have left them. Of a pair of two
    /// anchors nothing is asked. `correct` is asked only where the pair is
    /// to be corrected, and is told how the correction is divided and the
    /// response coefficient.
    pub open spec fn resolves_at<
        S: Fn(Particle<T>, Particle<T>) -> bool,
        C: Fn(Particle<T>, Particle<T>, MassSplit, T) -> (Vec2<T>, Vec2<T>),
    >(self, outcomes: Seq<Outcome<T>>, k: int, separated: S, correct: C) -> bool {
        let state = self.after_pairs(outcomes.take(k));
        match nth_pair(self.particles.len() as int, k as nat) {
            Some(pair) => {
                let first = state.particles[pair.0];
                let second = state.particles[pair.1];
                &&& !state.both_fixed(first, second) ==> call_ensures(
                    separated,
                    (first, second),
                    outcomes[k].separated,
                )
                &&& state.pair_action(first, second, outcomes[k].separated) matches PairAction::Resolve(
                    split,
                ) ==> call_ensures(
                    correct,
                    (first, second, split, state.response_coeff),
                    (outcomes[k].first_pos, outcomes[k].second_pos),
                )
            },
            None => true,
        }
    }

    /// Whether every one of `outcomes` is what `separated` and `correct`
    /// may return at its step of the pass.
    pub open spec fn resolves<
        S: Fn(Particle<T>, Particle<T>) -> bool,
        C: Fn(Particle<T>, Particle<T>, MassSplit, T) -> (Vec2<T>, Vec2<T>),
    >(self, outcomes: Seq<Outcome<T>>, separated: S, correct: C) -> bool {
        forall|k: int|
            0 <= k < outcomes.len() ==> #[trigger] self.resolves_at(
                outcomes,
                k,
                separated,
                correct,
            )
    }

    /// Whether `after` is this universe after a whole collision pass, one
    /// step for each pair of particles, in which `separated` and `correct`
    /// worked out the outcomes.
    pub open spec fn collision_pass<
        S: Fn(Particle<T>, Particle<T>) -> bool,
        C: Fn(Particle<T>, Particle<T>, MassSplit, T) -> (Vec2<T>, Vec2<T>),
    >(self, after: World<T>, separated: S, correct: C) -> bool {
        exists|outcomes: Seq<Outcome<T>>|
            {
                &&& outcomes.len() == pair_count(self.particles.len() as int)
                &&& self.resolves(outcomes, separated, correct)
                &&& after == self.after_pairs(outcomes)
            }
    }

    /// Whether `after` is this universe one step later: after an
    /// integration pass, then a collision pass, then a boundary pass.
    pub open spec fn step<
        F: Fn(Particle<T>, T, T) -> Vec2<T>,
        S: Fn(Particle<T>, Particle<T>) -> bool,
        C: Fn(Particle<T>, Particle<T>, MassSplit, T) -> (Vec2<T>, Vec2<T>),
        P: Fn(Particle<T>, Vec2<T>, T) -> Option<Vec2<T>>,
    >(self, after: World<T>, dt: T, integrate: F, separated: S, correct: C, project: P) -> bool {
        exists|integrated: World<T>, collided: World<T>|
            {
                &&& self.integration_pass(integrated, dt, integrate)
                &&& integrated.collision_pass(collided, separated, correct)
                &&& collided.boundary_pass(after, project)
            }
    }
}

/// What was worked out for one pair of the collision pass: whether the
/// centres of its particles are further apart than the sum of their radii,
/// and the corrected position of each.
pub struct Outcome<T> {
    pub separated: bool,
    pub first_pos: Vec2<T>,
    pub second_pos: Vec2<T>,
}

/// After all particles are deleted there is no anchor and no tie, and the
/// particle created next, whatever its attributes, has the identifier zero.
pub proof fn lemma_identifiers_restart<T>(
    world: World<T>,
    x: T,
    y: T,
    old_x: T,
    old_y: T,
    radius: T,
    color: T,
)
    ensures
        world.cleared().particles.len() == 0,
        world.cleared().constraints.fixed == Set::<u64>::empty(),
        world.cleared().constraints.links == Map::<u64, u64>::empty(),
        world.cleared().next_id() == 0,
        world.cleared().with_particle(x, y, old_x, old_y, radius, color).particles.len() == 1,
        world.cleared().with_particle(x, y, old_x, old_y, radius, color).particles[0].id == 0,
{
}

/// Creating a particle keeps the identifiers unique and gives the new
/// particle one that is larger than every identifier in use.
pub proof fn lemma_identifiers_increase<T>(
    world: World<T>,
    x: T,
    y: T,
    old_x: T,
    old_y: T,
    radius: T,
    color: T,
)
    requires
        world.wf(),
        world.particles.len() < u64::MAX,
    ensures
        world.with_particle(x, y, old_x, old_y, radius, color).wf(),
        forall|k: int|
            0 <= k < world.particles.len() ==> (#[trigger] world.particles[k]).id
                < world.next_id(),
        forall|i: int, j: int|
            0 <= i < j < world.particles.len() + 1 ==> world.with_particle(
                x,
                y,
                old_x,
                old_y,
                radius,
                color,
            ).particles[i].id != world.with_particle(
                x,
                y,
                old_x,
                old_y,
                radius,
                color,
            ).particles[j].id,
{
}

/// A pair whose centres are further apart than the sum of the radii, and
/// whose first particle is not tied to the second, comes out of the
/// collision pass as it went in, whatever positions were worked out.
pub proof fn lemma_separated_pair_untouched<T>(
    world: World<T>,
    first: int,
    second: int,
    first_pos: Vec2<T>,
    second_pos: Vec2<T>,
)
    requires
        world.distinct_places(first, second) ==> !world.constraints.links_to(
            world.particles[first].id,
            world.particles[second].id,
        ),
    ensures
        world.collided(first, second, true, first_pos, second_pos) == world,
{
    if world.distinct_places(first, second) {
        assert(world.particles.update(first, world.particles[first]).update(
            second,
            world.particles[second],
        ) =~= world.particles);
    }
}

/// An anchor is never moved by the collision pass: the whole correction
/// goes to the other particle of the pair. Of the other particle only the
/// position changes, and no third particle is touched.
pub proof fn lemma_anchor_untouched<T>(
    world: World<T>,
    first: int,
    second: int,
    separated: bool,
    first_pos: Vec2<T>,
    second_pos: Vec2<T>,
)
    requires
        world.distinct_places(first, second),
    ensures
        world.collided(first, second, separated, first_pos, second_pos).particles.len()
            == world.particles.len(),
        world.constraints.is_fixed(world.particles[first].id) ==> world.collided(
            first,
            second,
            separated,
            first_pos,
            second_pos,
        ).particles[first] == world.particles[first],
        world.constraints.is_fixed(world.particles[second].id) ==> world.collided(
            first,
            second,
            separated,
            first_pos,
            second_pos,
        ).particles[second] == world.particles[second],
        world.constraints.is_fixed(world.particles[first].id) && !world.constraints.is_fixed(
            world.particles[second].id,
        ) && (!separated || world.constraints.links_to(
            world.particles[first].id,
            world.particles[second].id,
        )) ==> world.collided(first, second, separated, first_pos, second_pos).particles[second]
            == world.particles[second].moved_to(second_pos),
        !world.constraints.is_fixed(world.particles[first].id) && world.constraints.is_fixed(
            world.particles[second].id,
        ) && (!separated || world.constraints.links_to(
            world.particles[first].id,
            world.particles[second].id,
        )) ==> world.collided(first, second, separated, first_pos, second_pos).particles[first]
            == world.particles[first].moved_to(first_pos),
        forall|k: int|
            0 <= k < world.particles.len() && k != first && k != second ==> world.collided(
                first,
                second,
                separated,
                first_pos,
                second_pos,
            ).particles[k] == world.particles[k],
{
}

/// One more step of the collision pass: the universe after the pairs before
/// it, with the pair of that step dealt with.
pub proof fn lemma_after_pairs_push<T>(world: World<T>, outcomes: Seq<Outcome<T>>, next: Outcome<T>)
    ensures
        world.after_pairs(outcomes.push(next)) == (match nth_pair(
            world.particles.len() as int,
            outcomes.len(),
        ) {
            Some(pair) => world.after_pairs(outcomes).collided(
                pair.0,
                pair.1,
                next.separated,
                next.first_pos,
                next.second_pos,
            ),
            None => world.after_pairs(outcomes),
        }),
{
    assert(outcomes.push(next).drop_last() =~= outcomes);
}

/// However many pairs the collision pass has dealt with, and whatever was
/// worked out for them: no particle has come or gone, the configuration and
/// the registry are as they were, no anchor has moved, and of every other
/// particle nothing but the position can have changed.
pub proof fn lemma_collisions_move_free_particles_only<T>(
    world: World<T>,
    outcomes: Seq<Outcome<T>>,
)
    ensures
        world.after_pairs(outcomes) == (World {
            particles: world.after_pairs(outcomes).particles,
            ..world
        }),
        world.after_pairs(outcomes).particles.len() == world.particles.len(),
        forall|k: int|
            0 <= k < world.particles.len() ==> (#[trigger] world.after_pairs(
                outcomes,
            ).particles[k]) == world.particles[k].moved_to(
                world.after_pairs(outcomes).particles[k].pos,
            ),
        forall|k: int|
            0 <= k < world.particles.len() && world.constraints.is_fixed(world.particles[k].id)
                ==> (#[trigger] world.after_pairs(outcomes).particles[k]) == world.particles[k],
        world.wf() ==> world.after_pairs(outcomes).wf(),
    decreases outcomes.len(),
{
    if outcomes.len() > 0 {
        lemma_collisions_move_free_particles_only(world, outcomes.drop_last());
    }
}

/// A collision pass in which every pair is found separated, over a
/// universe in which no particle is tied to another, changes nothing.
pub proof fn lemma_separated_pass_untouched<T>(world: World<T>, outcomes: Seq<Outcome<T>>)
    requires
        forall|k: int| 0 <= k < outcomes.len() ==> (#[trigger] outcomes[k]).separated,
        forall|i: int, j: int|
            0 <= i < world.particles.len() && 0 <= j < world.particles.len()
                ==> !world.constraints.links_to(
                (#[trigger] world.particles[i]).id,
                (#[trigger] world.particles[j]).id,
            ),
    ensures
        world.after_pairs(outcomes) == world,
    decreases outcomes.len(),
{
    if outcomes.len() > 0 {
        lemma_separated_pass_untouched(world, outcomes.drop_last());
        match nth_pair(world.particles.len() as int, (outcomes.len() - 1) as nat) {
            Some(pair) => {
                if world.distinct_places(pair.0, pair.1) {
                    assert(!world.constraints.links_to(
                        world.particles[pair.0].id,
                        world.particles[pair.1].id,
                    ));
                }
                lemma_separated_pair_untouched(
                    world,
                    pair.0,
                    pair.1,
                    outcomes.last().first_pos,
                    outcomes.last().second_pos,
                );
            },
            None => {},
        }
    }
}

} // verus!
