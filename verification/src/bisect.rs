//! Halving a range.
//!
//! A file that carries no header yet is split for the first time: its halves
//! get `(0, m)` and `(m + 1, n)`, where `n` is the file's length and `m` is
//! `n / 2`. A file that carries the range `(s, e)` is split again: its halves
//! get `(s, m)` and `(m, e)`, where `m` is `s + (e - s) / 2`. The first rule
//! starts the right half one past the middle and the second does not; files
//! written under these rules are read back under them, so both stand as they
//! are.

use vstd::prelude::*;
use crate::error::SplitError;
use crate::signature::Signature;

verus! {

/// The ranges of the two halves of an untagged file of `size` bytes.
pub open spec fn fresh_ranges(size: nat) -> (Signature, Signature) {
    (
        Signature { start_offset: 0, end_offset: (size / 2) as u32 },
        Signature { start_offset: (size / 2 + 1) as u32, end_offset: size as u32 },
    )
}

/// The middle of a range, rounded down.
pub open spec fn midpoint(sig: Signature) -> int {
    sig.start_offset + (sig.end_offset - sig.start_offset) / 2
}

/// The ranges of the two halves of a file that covers `sig`.
pub open spec fn resumed_ranges(sig: Signature) -> (Signature, Signature) {
    (
        Signature { start_offset: sig.start_offset, end_offset: midpoint(sig) as u32 },
        Signature { start_offset: midpoint(sig) as u32, end_offset: sig.end_offset },
    )
}

/// Ranges for the first split of a file of `size` bytes. A size that does not
/// fit the header's 32-bit fields is refused.
pub fn bisect_fresh(size: usize) -> (r: Result<(Signature, Signature), SplitError>)
    ensures
        size <= u32::MAX ==> r == Ok::<_, SplitError>(fresh_ranges(size as nat)),
        size > u32::MAX ==> r == Err::<(Signature, Signature), _>(SplitError::OffsetOverflow),
        r matches Ok(halves) ==> {
            &&& halves.0.start_offset == 0
            &&& halves.0.end_offset == size / 2
            &&& halves.1.start_offset == size / 2 + 1
            &&& halves.1.end_offset == size
            &&& halves.0.is_ordered()
            &&& size >= 1 ==> halves.1.is_ordered()
        },
{
    if size > 0xffff_ffff {
        return Err(SplitError::OffsetOverflow);
    }
    let end = size as u32;
    let middle = end / 2;
    Ok(
        (
            Signature { start_offset: 0, end_offset: middle },
            Signature { start_offset: middle + 1, end_offset: end },
        ),
    )
}

/// Ranges for a further split of a file that covers `sig`. The two halves
/// meet at the middle of the range and together span all of it.
pub fn bisect_resumed(sig: &Signature) -> (halves: (Signature, Signature))
    requires
        sig.is_ordered(),
    ensures
        halves == resumed_ranges(*sig),
        halves.0.start_offset == sig.start_offset,
        halves.0.end_offset == midpoint(*sig),
        halves.1.start_offset == midpoint(*sig),
        halves.1.end_offset == sig.end_offset,
        halves.0.is_ordered(),
        halves.1.is_ordered(),
{
    let halfway = (sig.end_offset - sig.start_offset) / 2;
    let middle = sig.start_offset + halfway;
    (
        Signature { start_offset: sig.start_offset, end_offset: middle },
        Signature { start_offset: middle, end_offset: sig.end_offset },
    )
}

} // verus!
