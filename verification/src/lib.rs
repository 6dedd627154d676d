//! A verified digital delay (echo) effect.
//!
//! The engine mixes time-delayed, feedback-attenuated copies of a signal
//! into the signal itself, block by block and in place.  Samples and
//! parameters are Q16 fixed-point integers (`fixed::UNIT` is 1.0), so every
//! arithmetic step has an exact mathematical statement.

pub mod channel;
pub mod delay_line;
pub mod effect;
pub mod error;
pub mod fixed;
pub mod interp;
