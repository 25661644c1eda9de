//! A planar gravitational N-body simulator in fixed-point arithmetic.
//!
//! A [`Simulation`] owns an ordered set of point masses. One step first
//! gives every body the pull of every other body, computed from the
//! positions before the step, and then integrates each body: the speed
//! advances by the accumulated acceleration, the position by the new speed.
//! The pulls of each body on those after it are computed on rayon's thread
//! pool and then applied in index order. A snapshot of the bodies as
//! [`Circle`]s is what a renderer gets to see.
//!
//! Every physical quantity is a signed 64-bit integer counting millionths of
//! a unit (see [`fixed::SCALE`]). Results are rounded toward zero, and those
//! that would leave the representable range saturate at [`fixed::LIMIT`], so
//! no operation of the library can overflow, divide by zero or otherwise
//! fail. Two bodies that coincide exert no pull on each other, and neither
//! do two bodies whose squared distance has integer part one.
//!
//! The pull between two bodies is the offset between them, not normalised,
//! times `G * m1 * m2 / d^2`. It is the same for both bodies but for its
//! sign, whatever their masses: see [`body::lemma_pull_antisymmetric`]. What
//! follows for the momentum of the whole is in [`conservation`]. The bodies
//! start at rest on a spiral, which [`spiral`] lays out without
//! trigonometry.

pub mod body;
pub mod conservation;
pub mod drawing;
pub mod fixed;
pub mod simulation;
pub mod spiral;
pub mod vector;

pub use body::Body;
pub use drawing::Circle;
pub use simulation::Simulation;
pub use vector::Vec2;
