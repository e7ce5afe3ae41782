//! Why a split is refused.

use vstd::prelude::*;

verus! {

/// The conditions that end a split before anything is written.
#[derive(Clone, Copy, Debug, PartialEq, Eq, Structural)]
pub enum SplitError {
    /// The file carries a header whose range ends before it starts.
    CorruptSignature,
    /// The file has no header and is too long for its length to fit the
    /// header's 32-bit fields.
    OffsetOverflow,
    /// The input has no file name stem to name the halves after.
    MissingStem,
}

} // verus!
