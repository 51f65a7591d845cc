//! Three-dimensional flexbox-style layout for trees of boxes.
//!
//! Lengths are fixed-point integers: one layout unit is [`style::UNIT`] steps, and halving a
//! length (to centre a child) rounds down to a whole step.
pub mod geometry;
pub mod style;
pub mod flex;
pub mod layout;
