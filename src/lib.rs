//! Time-based property animation: atomic actions, a combinator algebra of
//! sequences, and a slide controller that samples them at a playback time.
//!
//! Times are integer ticks; progress is a fixed-point fraction of `ONE`.
mod arith;

pub mod action;
pub mod builder;
pub mod ease;
pub mod sequence;
pub mod slide;
