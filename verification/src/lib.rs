//! Frame-advance timing for sprite-sheet animation.
//!
//! A creature-ecosystem scene attaches a countdown timer to every entity
//! whose sprite sheet should cycle. Once per tick the host loop reports the
//! elapsed time; the library decides how many frames each entity's displayed
//! frame index advances, wrapping modulo the sheet's frame count, and carries
//! any overshoot into the next cycle. Asset loading, rendering and the
//! windowing loop stay with the host; this crate owns only the timing and
//! frame arithmetic, stated and proved over integer milliseconds.

pub mod sprite;
pub mod timer;
pub mod world;
