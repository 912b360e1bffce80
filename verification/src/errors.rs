use vstd::prelude::*;

verus! {

/// Everything that can go wrong inside the scene-graph core.
///
/// `NoBitmap` reports a size query on a sprite that has no bitmap; reading a
/// sprite's bitmap handle itself yields `None` instead, which is a valid
/// "empty" result rather than an error. A failure of the rendering backend
/// has no variant here: the core only decides draw commands, and the host
/// that performs them reports its own failures.
#[derive(Clone, Copy, Debug, PartialEq, Eq, Structural)]
pub enum Error {
    /// A bitmap was requested with a zero width or height.
    InvalidDimensions,
    /// The given bytes are not a supported image encoding.
    DecodeError,
    /// A pixel coordinate or rectangle falls outside the bitmap.
    OutOfBounds,
    /// A draw pass found a sprite without a cached texture.
    NotRenderable,
    /// A size query on a sprite that has no bitmap.
    NoBitmap,
}

} // verus!
