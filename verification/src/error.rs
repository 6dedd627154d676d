//! Errors of the delay engine.
//!
//! Every variant marks a construction-time or call-time contract violation;
//! none is a transient runtime fault, and none is ever raised by a
//! steady-state `process` call once `prepare` has succeeded.

use vstd::prelude::*;

verus! {

/// Why a delay-engine operation refused its arguments.
#[derive(Clone, Copy, Debug, PartialEq, Eq, Structural)]
pub enum DelayError {
    /// A delay line cannot be created with zero capacity.
    InvalidCapacity,
    /// `prepare` was given a sample rate of zero or beyond the supported cap.
    InvalidSampleRate,
    /// A parameter setter was given a value outside its documented range.
    ParameterOutOfRange,
    /// A buffer's channel count differs from the prepared channel count.
    ChannelCountMismatch,
    /// A buffer's block length exceeds the prepared maximum block size.
    BlockTooLarge,
}

} // verus!
