//! What a floating-point histogram does with a value that its range cannot
//! be moved to cover.

use vstd::prelude::*;

verus! {

/// The choice between refusing such a value and recording it at the nearest
/// end of the range.
pub trait OverflowPolicy {
    /// Whether the value is recorded at the nearest end of the range.
    const SATURATE: bool;
}

/// Such a value is refused.
pub struct ThrowOnOverflow;

impl OverflowPolicy for ThrowOnOverflow {
    const SATURATE: bool = false;
}

/// Such a value is recorded at the nearest end of the range.
pub struct SaturateOnOverflow;

impl OverflowPolicy for SaturateOnOverflow {
    const SATURATE: bool = true;
}

} // verus!
