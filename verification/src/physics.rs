//! The particle universe: the particle store, its configuration and its
//! constraint registry, and the three passes of a step.
//!
//! The universe never computes with a coordinate. Each pass is handed the
//! function that does: the universe decides what the function is asked, in
//! which order and on which state, and which of the positions that come
//! back take effect.

use crate::collision::as_places;
use crate::collision::first_pair;
use crate::collision::lemma_step_has_rank;
use crate::collision::next_pair;
use crate::collision::nth_pair;
use crate::collision::pair_action;
use crate::collision::pair_count;
use crate::collision::MassSplit;
use crate::collision::PairAction;
use crate::constraints::ConstraintRegistry;
use crate::particle::Particle;
use crate::particle::Vec2;
use crate::world::lemma_after_pairs_push;
use crate::world::lemma_collisions_move_free_particles_only;
use crate::world::Outcome;
use crate::world::World;
use vstd::prelude::*;

verus! {

/// A universe of particles with its configuration and its constraint
/// registry.
pub struct PhysicsUniverse<T> {
    gravity: T,
    response_coeff: T,
    circle_constraint_center_x: T,
    circle_constraint_center_y: T,
    circle_constraint_radius: T,
    particles: Vec<Particle<T>>,
    constraints: ConstraintRegistry,
}

impl<T> View for PhysicsUniverse<T> {
    type V = World<T>;

    closed spec fn view(&self) -> World<T> {
        World {
            gravity: self.gravity,
            response_coeff: self.response_coeff,
            circle_constraint_center_x: self.circle_constraint_center_x,
            circle_constraint_center_y: self.circle_constraint_center_y,
            circle_constraint_radius: self.circle_constraint_radius,
            particles: self.particles@,
            constraints: self.constraints@,
        }
    }
}

impl<T> PhysicsUniverse<T> {
    #[verifier::type_invariant]
    spec fn inv(self) -> bool {
        self@.wf()
    }
}

impl<T: Copy> PhysicsUniverse<T> {
    /// A universe with the given configuration and `num_particles`
    /// particles, whose positions, previous positions, radii and colours
    /// are drawn by `draw`, once for each particle in turn. The particles
    /// have the identifiers from zero upwards; there is no anchor and no
    /// tie.
    pub fn new<G>(
        num_particles: u32,
        gravity: T,
        response_coeff: T,
        circle_constraint_center_x: T,
        circle_constraint_center_y: T,
        circle_constraint_radius: T,
        draw: G,
    ) -> (universe: PhysicsUniverse<T>) where G: Fn() -> (Vec2<T>, Vec2<T>, T, T)
        requires
            call_requires(draw, ()),
        ensures
            universe@ == (World {
                particles: universe@.particles,
                ..World::empty(
                    gravity,
                    response_coeff,
                    circle_constraint_center_x,
                    circle_constraint_center_y,
                    circle_constraint_radius,
                )
            }),
            universe@.particles.len() == num_particles,
            forall|k: int|
                0 <= k < num_particles ==> {
                    &&& (#[trigger] universe@.particles[k]).id == k
                    &&& World::<T>::drawn(draw, universe@.particles[k])
                },
    {
        let mut universe = PhysicsUniverse {
            gravity,
            response_coeff,
            circle_constraint_center_x,
            circle_constraint_center_y,
            circle_constraint_radius,
            particles: Vec::new(),
            constraints: ConstraintRegistry::new(),
        };
        let ghost empty = universe@;
        let mut created: u32 = 0;
        while created < num_particles
            invariant
                call_requires(draw, ()),
                created <= num_particles,
                universe@ == (World { particles: universe@.particles, ..empty }),
                universe@.particles.len() == created,
                forall|k: int|
                    0 <= k < created ==> {
                        &&& (#[trigger] universe@.particles[k]).id == k
                        &&& World::<T>::drawn(draw, universe@.particles[k])
                    },
            decreases num_particles - created,
        {
            let drawn = draw();
            let pos = drawn.0;
            let old_pos = drawn.1;
            universe.add_particle_at_pos(pos.0, pos.1, old_pos.0, old_pos.1, drawn.2, drawn.3);
            created += 1;
        }
        universe
    }

    /// A particle record with the given identifier and attributes.
    pub fn new_particle_at_pos(
        id: u64,
        x: T,
        y: T,
        old_x: T,
        old_y: T,
        radius: T,
        color: T,
    ) -> (particle: Particle<T>)
        ensures
            particle == (Particle {
                id,
                pos: Vec2(x, y),
                old_pos: Vec2(old_x, old_y),
                radius,
                color,
            }),
    {
        Particle { id, pos: Vec2(x, y), old_pos: Vec2(old_x, old_y), radius, color }
    }

    /// Number of particles.
    pub fn get_num_particles(&self) -> (count: usize)
        ensures
            count == self@.particles.len(),
    {
        self.particles.len()
    }

    /// The particle records in the order of their creation, each at the
    /// place its identifier names.
    pub fn particles(&self) -> (particles: &Vec<Particle<T>>)
        ensures
            particles@ == self@.particles,
            forall|k: int| 0 <= k < particles@.len() ==> (#[trigger] particles@[k]).id == k,
    {
        proof {
            use_type_invariant(self);
        }
        &self.particles
    }

    /// Size in bytes of one particle record.
    pub fn get_particles_mem_size(&self) -> (size: usize)
        ensures
            size == vstd::layout::size_of::<Particle<T>>(),
    {
        core::mem::size_of::<Particle<T>>()
    }

    /// A fixed number, by which a caller can tell that the universe is
    /// there and answers.
    pub fn get_num(&self) -> (number: i32)
        ensures
            number == 44,
    {
        44
    }

    /// The acceleration applied to every particle.
    pub fn gravity(&self) -> (gravity: T)
        ensures
            gravity == self@.gravity,
    {
        self.gravity
    }

    /// The multiplier on every positional correction.
    pub fn response_coeff(&self) -> (response_coeff: T)
        ensures
            response_coeff == self@.response_coeff,
    {
        self.response_coeff
    }

    /// First coordinate of the centre of the boundary circle.
    pub fn circle_constraint_center_x(&self) -> (x: T)
        ensures
            x == self@.circle_constraint_center_x,
    {
        self.circle_constraint_center_x
    }

    /// Second coordinate of the centre of the boundary circle.
    pub fn circle_constraint_center_y(&self) -> (y: T)
        ensures
            y == self@.circle_constraint_center_y,
    {
        self.circle_constraint_center_y
    }

    /// Radius of the boundary circle.
    pub fn circle_constraint_radius(&self) -> (radius: T)
        ensures
            radius == self@.circle_constraint_radius,
    {
        self.circle_constraint_radius
    }

    /// Sets the acceleration applied to every particle.
    pub fn set_gravity(&mut self, g: T)
        ensures
            final(self)@ == (World { gravity: g, ..old(self)@ }),
    {
        proof {
            use_type_invariant(&*self);
        }
        self.gravity = g;
    }

    /// Sets the multiplier on every positional correction.
    pub fn set_response_coeff(&mut self, response_coeff: T)
        ensures
            final(self)@ == (World { response_coeff, ..old(self)@ }),
    {
        proof {
            use_type_invariant(&*self);
        }
        self.response_coeff = response_coeff;
    }

    /// Moves the centre of the boundary circle.
    pub fn set_circle_constraint_center(&mut self, x: T, y: T)
        ensures
            final(self)@ == (World {
                circle_constraint_center_x: x,
                circle_constraint_center_y: y,
                ..old(self)@
            }),
    {
        proof {
            use_type_invariant(&*self);
        }
        self.circle_constraint_center_x = x;
        self.circle_constraint_center_y = y;
    }

    /// Sets the radius of the boundary circle.
    pub fn set_circle_constraint_radius(&mut self, radius: T)
        ensures
            final(self)@ == (World { circle_constraint_radius: radius, ..old(self)@ }),
    {
        proof {
            use_type_invariant(&*self);
        }
        self.circle_constraint_radius = radius;
    }

    /// The particle at a place of the store, if the place is taken. Its
    /// identifier is its place.
    pub fn particle(&self, index: usize) -> (particle: Option<Particle<T>>)
        ensures
            particle == (if index < self@.particles.len() {
                Some(self@.particles[index as int])
            } else {
                None
            }),
            particle matches Some(p) ==> p.id == index,
    {
        proof {
            use_type_invariant(self);
        }
        if index < self.particles.len() {
            Some(self.particles[index])
        } else {
            None
        }
    }

    /// Creates a particle with the given position, previous position,
    /// radius and colour, and returns its identifier: the number of
    /// particles created before it since the universe was last empty.
    pub fn add_particle_at_pos(
        &mut self,
        x: T,
        y: T,
        old_x: T,
        old_y: T,
        radius: T,
        color: T,
    ) -> (id: u64)
        ensures
            final(self)@ == old(self)@.with_particle(x, y, old_x, old_y, radius, color),
            id == old(self)@.particles.len(),
    {
        proof {
            use_type_invariant(&*self);
        }
        let mut particles: Vec<Particle<T>> = Vec::new();
        core::mem::swap(&mut self.particles, &mut particles);
        let id = particles.len() as u64;
        particles.push(Self::new_particle_at_pos(id, x, y, old_x, old_y, radius, color));
        proof {
            assert(particles@.len() == particles.len());
            assert forall|k: int| 0 <= k < particles@.len() implies (#[trigger] particles@[k]).id
                == k by {
                if k < old(self)@.particles.len() {
                    assert(particles@[k] == old(self)@.particles[k]);
                }
            }
        }
        self.particles = particles;
        id
    }

    /// Creates a particle whose position, previous position, radius and
    /// colour are drawn by `draw`, and returns its identifier. The
    /// identifier does not depend on what is drawn.
    pub fn add_particle<G>(&mut self, draw: G) -> (id: u64) where
        G: FnOnce() -> (Vec2<T>, Vec2<T>, T, T),

        requires
            call_requires(draw, ()),
        ensures
            final(self)@ == (World {
                particles: old(self)@.particles.push(final(self)@.particles.last()),
                ..old(self)@
            }),
            final(self)@.particles.last().id == id,
            World::<T>::drawn(draw, final(self)@.particles.last()),
            id == old(self)@.particles.len(),
    {
        let drawn = draw();
        let pos = drawn.0;
        let old_pos = drawn.1;
        self.add_particle_at_pos(pos.0, pos.1, old_pos.0, old_pos.1, drawn.2, drawn.3)
    }

    /// Deletes every particle, and with them every anchor and every tie.
    /// Identifiers start from zero again.
    pub fn delete_all_particles(&mut self)
        ensures
            final(self)@ == old(self)@.cleared(),
    {
        self.particles = Vec::new();
        self.constraints = ConstraintRegistry::new();
    }

    /// Makes the particle with the identifier `id` an anchor. The
    /// identifier need not be in use; anchoring an anchor changes nothing.
    pub fn fix(&mut self, id: u64)
        ensures
            final(self)@ == (World {
                constraints: old(self)@.constraints.with_fixed(id),
                ..old(self)@
            }),
            old(self)@.constraints.is_fixed(id) ==> final(self)@ == old(self)@,
    {
        proof {
            use_type_invariant(&*self);
        }
        let mut constraints = ConstraintRegistry::new();
        core::mem::swap(&mut self.constraints, &mut constraints);
        constraints.fix(id);
        self.constraints = constraints;
    }

    /// Ties the particles with the identifiers `first` and `second` to
    /// each other. Neither identifier need be in use; each forgets the
    /// partner it had before.
    pub fn link(&mut self, first: u64, second: u64)
        ensures
            final(self)@ == (World {
                constraints: old(self)@.constraints.with_link(first, second),
                ..old(self)@
            }),
            final(self)@.constraints.links_to(first, second),
            final(self)@.constraints.links_to(second, first),
    {
        proof {
            use_type_invariant(&*self);
        }
        let mut constraints = ConstraintRegistry::new();
        core::mem::swap(&mut self.constraints, &mut constraints);
        constraints.link(first, second);
        self.constraints = constraints;
    }

    /// Whether the identifier `id` is an anchor.
    pub fn is_fixed(&self, id: u64) -> (fixed: bool)
        ensures
            fixed == self@.constraints.is_fixed(id),
    {
        self.constraints.is_fixed(id)
    }

    /// The partner the identifier `id` is tied to, if it has one.
    pub fn link_partner(&self, id: u64) -> (partner: Option<u64>)
        ensures
            partner == self@.constraints.partner(id),
    {
        self.constraints.partner(id)
    }

    /// What the collision pass does with the pair of `first` and `second`,
    /// given whether their centres are further apart than the sum of their
    /// radii.
    pub fn pair_action(&self, first: &Particle<T>, second: &Particle<T>, separated: bool) -> (action:
        PairAction)
        ensures
            action == self@.pair_action(*first, *second, separated),
    {
        pair_action(
            self.constraints.is_fixed(first.id),
            self.constraints.is_fixed(second.id),
            self.constraints.links_to(first.id, second.id),
            separated,
        )
    }

    /// The integration step for one particle: it goes to `pos`, and the
    /// position it held becomes its previous position. Nothing else
    /// changes.
    pub fn update_particle(p: Particle<T>, pos: Vec2<T>) -> (updated: Particle<T>)
        ensures
            updated == p.advanced(pos),
    {
        Particle { id: p.id, pos, old_pos: p.pos, radius: p.radius, color: p.color }
    }

    /// The boundary step for one particle: it is put at the projection
    /// onto the boundary, if there is one. Only the position changes.
    pub fn constrain_particle(p: Particle<T>, projection: Option<Vec2<T>>) -> (constrained:
        Particle<T>)
        ensures
            constrained == p.confined(projection),
    {
        match projection {
            Some(pos) => Particle {
                id: p.id,
                pos,
                old_pos: p.old_pos,
                radius: p.radius,
                color: p.color,
            },
            None => p,
        }
    }

    /// The collision step for one pair, where `first_pos` and `second_pos`
    /// are the corrected positions worked out for `first` and `second`.
    ///
    /// A pair of two anchors, and a pair that is `separated` while `first`
    /// is not tied to `second`, is returned as it is. Otherwise each
    /// particle that is not an anchor is put at its corrected position; an
    /// anchor stays. Nothing but positions changes.
    pub fn solve_collision(
        &self,
        first: Particle<T>,
        second: Particle<T>,
        separated: bool,
        first_pos: Vec2<T>,
        second_pos: Vec2<T>,
    ) -> (pair: (Particle<T>, Particle<T>))
        ensures
            pair == self@.resolved(first, second, separated, first_pos, second_pos),
            separated && !self@.constraints.links_to(first.id, second.id) ==> pair == (
                first,
                second,
            ),
            self@.constraints.is_fixed(first.id) ==> pair.0 == first,
            self@.constraints.is_fixed(second.id) ==> pair.1 == second,
            pair.0 == first || pair.0 == first.moved_to(first_pos),
            pair.1 == second || pair.1 == second.moved_to(second_pos),
    {
        let action = self.pair_action(&first, &second, separated);
        let first_after = match action {
            PairAction::Resolve(MassSplit::FirstTakesAll) | PairAction::Resolve(
                MassSplit::ByRadius,
            ) => Particle {
                id: first.id,
                pos: first_pos,
                old_pos: first.old_pos,
                radius: first.radius,
                color: first.color,
            },
            _ => first,
        };
        let second_after = match action {
            PairAction::Resolve(MassSplit::SecondTakesAll) | PairAction::Resolve(
                MassSplit::ByRadius,
            ) => Particle {
                id: second.id,
                pos: second_pos,
                old_pos: second.old_pos,
                radius: second.radius,
                color: second.color,
            },
            _ => second,
        };
        (first_after, second_after)
    }

    /// The integration pass: hands each particle to `integrate`, together
    /// with the gravity and the time step, and takes the particle to the
    /// position that comes back. The position it held becomes its previous
    /// position; anchors are integrated like any other particle.
    pub fn update_particles<F>(&mut self, dt: T, integrate: F) where
        F: Fn(Particle<T>, T, T) -> Vec2<T>,

        requires
            forall|k: int|
                0 <= k < old(self)@.particles.len() ==> call_requires(
                    integrate,
                    (#[trigger] old(self)@.particles[k], old(self)@.gravity, dt),
                ),
        ensures
            old(self)@.integration_pass(final(self)@, dt, integrate),
            final(self)@ == (World { particles: final(self)@.particles, ..old(self)@ }),
            final(self)@.particles.len() == old(self)@.particles.len(),
            forall|k: int|
                0 <= k < old(self)@.particles.len() ==> (#[trigger] final(self)@.particles[k])
                    == old(self)@.particles[k].advanced(final(self)@.particles[k].pos),
    {
        proof {
            use_type_invariant(&*self);
        }
        let count = self.particles.len();
        let gravity = self.gravity;
        let mut particles: Vec<Particle<T>> = Vec::new();
        core::mem::swap(&mut self.particles, &mut particles);
        let ghost before = particles@;
        let ghost mut positions: Seq<Vec2<T>> = Seq::empty();
        let mut index: usize = 0;
        while index < count
            invariant
                forall|k: int|
                    0 <= k < count ==> call_requires(integrate, (#[trigger] before[k], gravity, dt)),
                index <= count,
                count == before.len(),
                particles@.len() == count,
                positions.len() == index,
                forall|k: int|
                    0 <= k < index ==> call_ensures(
                        integrate,
                        (before[k], gravity, dt),
                        #[trigger] positions[k],
                    ),
                forall|k: int| 0 <= k < index ==> particles@[k] == before[k].advanced(positions[k]),
                forall|k: int| index <= k < count ==> particles@[k] == before[k],
            decreases count - index,
        {
            let p = particles[index];
            assert(p == before[index as int]);
            let pos = integrate(p, gravity, dt);
            particles[index] = Self::update_particle(p, pos);
            proof {
                positions = positions.push(pos);
            }
            index += 1;
        }
        assert(particles@ =~= old(self)@.integrated(positions).particles);
        self.particles = particles;
        assert(old(self)@.integrates(positions, dt, integrate));
    }

    /// The boundary pass: hands each particle to `project`, together with
    /// the centre and the radius of the boundary circle, and puts the
    /// particle at the projection that comes back, if one does. Only
    /// positions change.
    pub fn apply_constraints<P>(&mut self, project: P) where
        P: Fn(Particle<T>, Vec2<T>, T) -> Option<Vec2<T>>,

        requires
            forall|k: int|
                0 <= k < old(self)@.particles.len() ==> call_requires(
                    project,
                    (
                        #[trigger] old(self)@.particles[k],
                        old(self)@.circle_constraint_center(),
                        old(self)@.circle_constraint_radius,
                    ),
                ),
        ensures
            old(self)@.boundary_pass(final(self)@, project),
            final(self)@ == (World { particles: final(self)@.particles, ..old(self)@ }),
            final(self)@.particles.len() == old(self)@.particles.len(),
            forall|k: int|
                0 <= k < old(self)@.particles.len() ==> (#[trigger] final(self)@.particles[k])
                    == old(self)@.particles[k].moved_to(final(self)@.particles[k].pos),
    {
        proof {
            use_type_invariant(&*self);
        }
        let count = self.particles.len();
        let center = Vec2(self.circle_constraint_center_x, self.circle_constraint_center_y);
        let radius = self.circle_constraint_radius;
        let mut particles: Vec<Particle<T>> = Vec::new();
        core::mem::swap(&mut self.particles, &mut particles);
        let ghost before = particles@;
        let ghost mut projections: Seq<Option<Vec2<T>>> = Seq::empty();
        let mut index: usize = 0;
        while index < count
            invariant
                forall|k: int|
                    0 <= k < count ==> call_requires(project, (#[trigger] before[k], center, radius)),
                index <= count,
                count == before.len(),
                particles@.len() == count,
                projections.len() == index,
                forall|k: int|
                    0 <= k < index ==> call_ensures(
                        project,
                        (before[k], center, radius),
                        #[trigger] projections[k],
                    ),
                forall|k: int|
                    0 <= k < index ==> particles@[k] == before[k].confined(projections[k]),
                forall|k: int| index <= k < count ==> particles@[k] == before[k],
            decreases count - index,
        {
            let p = particles[index];
            assert(p == before[index as int]);
            let projection = project(p, center, radius);
            particles[index] = Self::constrain_particle(p, projection);
            proof {
                projections = projections.push(projection);
            }
            index += 1;
        }
        assert(particles@ =~= old(self)@.confined(projections).particles);
        self.particles = particles;
        assert(old(self)@.confines(projections, project));
    }

    /// The collision pass: takes every pair of particles once, in the
    /// order of [`first_pair`] and [`next_pair`], each in the state the
    /// pairs before it have left.
    ///
    /// A pair of two anchors is passed over. For every other pair
    /// `separated` is asked whether the centres of the two particles are
    /// further apart than the sum of their radii. Where the pair is to be
    /// corrected, `correct` is handed the two particles, the
    /// division of the correction and the response coefficient, and each
    /// particle that is not an anchor is put at the position that comes
    /// back for it. No anchor moves, and nothing but positions changes.
    pub fn solve_collisions<S, C>(&mut self, separated: S, correct: C) where
        S: Fn(Particle<T>, Particle<T>) -> bool,
        C: Fn(Particle<T>, Particle<T>, MassSplit, T) -> (Vec2<T>, Vec2<T>),

        requires
            forall|first: Particle<T>, second: Particle<T>|
                call_requires(separated, (first, second)),
            forall|first: Particle<T>, second: Particle<T>, split: MassSplit|
                call_requires(correct, (first, second, split, old(self)@.response_coeff)),
        ensures
            old(self)@.collision_pass(final(self)@, separated, correct),
            final(self)@ == (World { particles: final(self)@.particles, ..old(self)@ }),
            final(self)@.particles.len() == old(self)@.particles.len(),
            forall|k: int|
                0 <= k < old(self)@.particles.len() ==> (#[trigger] final(self)@.particles[k])
                    == old(self)@.particles[k].moved_to(final(self)@.particles[k].pos),
            forall|k: int|
                0 <= k < old(self)@.particles.len() && old(self)@.constraints.is_fixed(
                    old(self)@.particles[k].id,
                ) ==> (#[trigger] final(self)@.particles[k]) == old(self)@.particles[k],
    {
        proof {
            use_type_invariant(&*self);
        }
        let count = self.particles.len();
        let response_coeff = self.response_coeff;
        let ghost start = self@;
        let ghost mut outcomes: Seq<Outcome<T>> = Seq::empty();
        let mut cursor = first_pair(count);
        proof {
            lemma_step_has_rank(count as int, 0);
            assert(response_coeff == old(self)@.response_coeff);
        }
        while cursor.is_some()
            invariant
                forall|first: Particle<T>, second: Particle<T>|
                    call_requires(separated, (first, second)),
                forall|first: Particle<T>, second: Particle<T>, split: MassSplit|
                    call_requires(correct, (first, second, split, response_coeff)),
                start == old(self)@,
                count == start.particles.len(),
                response_coeff == start.response_coeff,
                self@ == start.after_pairs(outcomes),
                as_places(cursor) == nth_pair(count as int, outcomes.len()),
                outcomes.len() <= pair_count(count as int),
                start.resolves(outcomes, separated, correct),
            decreases pair_count(count as int) - outcomes.len(),
        {
            let pair = cursor.unwrap();
            let a = pair.0;
            let b = pair.1;
            proof {
                lemma_step_has_rank(count as int, outcomes.len());
                lemma_collisions_move_free_particles_only(start, outcomes);
            }
            let first = self.particles[a];
            let second = self.particles[b];
            let anchored = self.constraints.is_fixed(first.id) && self.constraints.is_fixed(
                second.id,
            );
            let apart = if anchored {
                false
            } else {
                separated(first, second)
            };
            let action = self.pair_action(&first, &second, apart);
            let corrected = match action {
                PairAction::Resolve(split) => correct(first, second, split, response_coeff),
                PairAction::Skip => (first.pos, second.pos),
            };
            let ghost before = self@;
            let ghost earlier = outcomes;
            self.resolve_pair(a, b, apart, corrected.0, corrected.1);
            proof {
                let outcome = Outcome {
                    separated: apart,
                    first_pos: corrected.0,
                    second_pos: corrected.1,
                };
                outcomes = earlier.push(outcome);
                lemma_after_pairs_push(start, earlier, outcome);
                assert forall|k: int| 0 <= k < outcomes.len() implies #[trigger] start.resolves_at(
                    outcomes,
                    k,
                    separated,
                    correct,
                ) by {
                    if k < earlier.len() {
                        assert(outcomes.take(k) =~= earlier.take(k));
                        assert(start.resolves_at(earlier, k, separated, correct));
                    } else {
                        assert(outcomes.take(k) =~= earlier);
                    }
                }
                lemma_step_has_rank(count as int, outcomes.len());
            }
            cursor = next_pair(count, a, b);
        }
        proof {
            lemma_step_has_rank(count as int, outcomes.len());
            lemma_collisions_move_free_particles_only(start, outcomes);
        }
    }

    /// One step of the simulation: the integration pass, then the
    /// collision pass on the positions it has left, then the boundary pass
    /// on the positions that one has left.
    pub fn tick<F, S, C, P>(&mut self, dt: T, integrate: F, separated: S, correct: C, project: P) where
        F: Fn(Particle<T>, T, T) -> Vec2<T>,
        S: Fn(Particle<T>, Particle<T>) -> bool,
        C: Fn(Particle<T>, Particle<T>, MassSplit, T) -> (Vec2<T>, Vec2<T>),
        P: Fn(Particle<T>, Vec2<T>, T) -> Option<Vec2<T>>,

        requires
            forall|k: int|
                0 <= k < old(self)@.particles.len() ==> call_requires(
                    integrate,
                    (#[trigger] old(self)@.particles[k], old(self)@.gravity, dt),
                ),
            forall|first: Particle<T>, second: Particle<T>|
                call_requires(separated, (first, second)),
            forall|first: Particle<T>, second: Particle<T>, split: MassSplit|
                call_requires(correct, (first, second, split, old(self)@.response_coeff)),
            forall|p: Particle<T>|
                call_requires(
                    project,
                    (p, old(self)@.circle_constraint_center(), old(self)@.circle_constraint_radius),
                ),
        ensures
            old(self)@.step(final(self)@, dt, integrate, separated, correct, project),
            final(self)@ == (World { particles: final(self)@.particles, ..old(self)@ }),
            final(self)@.particles.len() == old(self)@.particles.len(),
            forall|k: int|
                0 <= k < old(self)@.particles.len() ==> {
                    &&& (#[trigger] final(self)@.particles[k]).id == old(self)@.particles[k].id
                    &&& final(self)@.particles[k].old_pos == old(self)@.particles[k].pos
                    &&& final(self)@.particles[k].radius == old(self)@.particles[k].radius
                    &&& final(self)@.particles[k].color == old(self)@.particles[k].color
                },
    {
        self.update_particles(dt, integrate);
        let ghost integrated = self@;
        assert(integrated.response_coeff == old(self)@.response_coeff);
        self.solve_collisions(separated, correct);
        let ghost collided = self@;
        assert(collided.circle_constraint_center() == old(self)@.circle_constraint_center());
        assert(collided.circle_constraint_radius == old(self)@.circle_constraint_radius);
        self.apply_constraints(project);
        proof {
            assert(old(self)@.integration_pass(integrated, dt, integrate));
            assert(integrated.collision_pass(collided, separated, correct));
            assert(collided.boundary_pass(self@, project));
        }
    }

    /// One step of the collision pass: deals with the particles at the
    /// places `first` and `second`, where `first_pos` and `second_pos` are
    /// the corrected positions worked out for them, and returns what was
    /// done. Anything but two different places of the store is skipped.
    pub fn resolve_pair(
        &mut self,
        first: usize,
        second: usize,
        separated: bool,
        first_pos: Vec2<T>,
        second_pos: Vec2<T>,
    ) -> (action: PairAction)
        ensures
            final(self)@ == old(self)@.collided(
                first as int,
                second as int,
                separated,
                first_pos,
                second_pos,
            ),
            action == (if old(self)@.distinct_places(first as int, second as int) {
                old(self)@.pair_action(
                    old(self)@.particles[first as int],
                    old(self)@.particles[second as int],
                    separated,
                )
            } else {
                PairAction::Skip
            }),
            action == PairAction::Skip ==> final(self)@ == old(self)@,
    {
        proof {
            use_type_invariant(&*self);
        }
        let count = self.particles.len();
        if first >= count || second >= count || first == second {
            return PairAction::Skip;
        }
        let one = self.particles[first];
        let other = self.particles[second];
        let action = self.pair_action(&one, &other, separated);
        let pair = self.solve_collision(one, other, separated, first_pos, second_pos);
        let mut particles: Vec<Particle<T>> = Vec::new();
        core::mem::swap(&mut self.particles, &mut particles);
        particles[first] = pair.0;
        particles[second] = pair.1;
        proof {
            if action == PairAction::Skip {
                assert(particles@ =~= old(self)@.particles);
            }
        }
        self.particles = particles;
        action
    }
}

} // verus!
