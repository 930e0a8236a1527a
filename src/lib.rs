//! Scoring and turn engine of a six-dice push-your-luck game.
//!
//! `dice` holds the six dice slots of a throw, `scoring` enumerates every
//! scoring selection that a throw offers, and `turn` drives one player's turn.

pub mod dice;
pub mod scoring;
pub mod turn;
