//! Particle records.
//!
//! The records are generic in the scalar type of their coordinates:
//! nothing here computes with a coordinate, a radius or a colour, they are
//! only stored and handed on.

use vstd::prelude::*;

verus! {

/// A point or a displacement in the plane.
#[derive(Debug)]
pub struct Vec2<T>(pub T, pub T);

impl<T: Copy> Copy for Vec2<T> {

}

impl<T: Copy> Clone for Vec2<T> {
    fn clone(&self) -> (copy: Self)
        ensures
            copy == *self,
    {
        *self
    }
}

/// One particle: where it is, where it was one step ago, and how it looks.
///
/// The velocity of a particle is not stored; it is the difference between
/// `pos` and `old_pos`.
#[derive(Debug)]
pub struct Particle<T> {
    /// Identifier, given at creation and never changed.
    pub id: u64,
    /// Current position.
    pub pos: Vec2<T>,
    /// Position one step ago.
    pub old_pos: Vec2<T>,
    /// Radius.
    pub radius: T,
    /// Hue, of no physical meaning.
    pub color: T,
}

impl<T: Copy> Copy for Particle<T> {

}

impl<T: Copy> Clone for Particle<T> {
    fn clone(&self) -> (copy: Self)
        ensures
            copy == *self,
    {
        *self
    }
}

impl<T> Particle<T> {
    /// The particle after an integration step that takes it to `pos`: the
    /// position it held becomes its previous position.
    pub open spec fn advanced(self, pos: Vec2<T>) -> Particle<T> {
        Particle { pos, old_pos: self.pos, ..self }
    }

    /// The particle put at `pos` by a positional correction: its previous
    /// position, and with it the history its velocity is read from, stays.
    pub open spec fn moved_to(self, pos: Vec2<T>) -> Particle<T> {
        Particle { pos, ..self }
    }

    /// The particle after a boundary projection: put at the projected
    /// position if there is one, left alone otherwise.
    pub open spec fn confined(self, projection: Option<Vec2<T>>) -> Particle<T> {
        match projection {
            Some(pos) => self.moved_to(pos),
            None => self,
        }
    }
}

} // verus!
