//! A step-based particle universe driven by position-Verlet integration,
//! and a cellular automaton on a torus.
//!
//! The particle universe keeps the particle store, the registry of anchors
//! and ties, and the order of the three passes of a step: integration,
//! pairwise collision correction, confinement to a boundary circle. It is
//! generic in the scalar type of its coordinates. The arithmetic of a pass
//! is handed in as a function; the universe decides what that function is
//! asked, on which state, and which of its answers take effect.
//!
//! - [`particle`]: the particle records.
//! - [`constraints`]: the registry of anchors and ties.
//! - [`collision`]: the rule for one pair, and the order of the pairs.
//! - [`world`]: the mathematical model of the universe and its laws.
//! - [`physics`]: the universe itself.
//! - [`life`]: the cellular automaton.

pub mod collision;
pub mod constraints;
pub mod life;
pub mod particle;
pub mod physics;
pub mod world;
