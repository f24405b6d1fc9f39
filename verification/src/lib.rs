//! Exact-arithmetic core of a row-of-boxes layout animation.
//!
//! A window shows a row of boxes. The box under the pointer (the active
//! box) grows or shrinks toward a requested width, clamped between an
//! equal share and half the window; its neighbours split the space that
//! is left on their side equally. Each frame an animator moves every
//! box a tenth of the way from its current geometry to its target.
//!
//! Coordinates are exact rationals, so the layout laws (equal shares,
//! contiguity, the clamp range, the contraction of the animator step)
//! hold as identities rather than approximately.

pub mod animate;
pub mod engine;
pub mod geom;
pub mod layout;
pub mod rat;
