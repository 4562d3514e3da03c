//! The ways in which an effect can fail.

use vstd::prelude::*;

verus! {

/// Why a snapshot could not be dithered.
#[derive(Debug, Clone, Copy, PartialEq, Eq, Structural)]
pub enum DitherError {
    /// The surface has no pixels: its width or its height is zero.
    UnavailableSurface,
    /// The byte buffer is not four bytes for each pixel of the surface.
    LengthMismatch,
    /// The coordinate lies outside the surface.
    OutOfRange,
}

} // verus!
