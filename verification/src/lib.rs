//! A tick-based artificial-life world: agents on a bounded grid perceive a
//! square neighbourhood, act, feed, fight, heal and reproduce.
//!
//! The verifier has no theory of floating point, so every single-precision
//! scalar (brain parameters, perception entries, colour channels, logits) is
//! carried as its IEEE-754 bit pattern in a `u32`. The order and the clamp of
//! such scalars are defined on the patterns in `scalar`.

pub mod scalar;
pub mod brain;
pub mod agent;
pub mod dice;
pub mod world;
pub mod turn;
pub mod sense;
pub mod schedule;
pub mod season;
pub mod audit;
pub mod laws;
