//! Error kinds reported by the box codec.

use vstd::prelude::*;

verus! {

/// One error kind per way a byte stream can fail to decode, or a value fail
/// to encode, under the box framing discipline.
#[derive(Clone, Copy, Debug, PartialEq, Eq, Structural)]
pub enum Error {
    /// Fewer bytes are available than a header or a declared field requires.
    Truncated,
    /// A declared box size is smaller than the fixed minimum for its kind.
    InvalidSize,
    /// A child box's declared end exceeds its parent's declared end.
    SizeExceedsContainer,
    /// A malformed extended-size or extended-type escape.
    UnsupportedExtended,
}

} // verus!
