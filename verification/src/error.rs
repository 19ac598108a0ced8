//! The errors of the layout pipeline and of the output stage.

use vstd::prelude::*;

verus! {

/// A structural failure of the layout pipeline.
#[derive(Clone, Copy, Debug, PartialEq, Eq, Structural)]
pub enum LayoutError {
    /// The style runs do not cover the text buffer without gap or overlap.
    InvalidRunPartition,
    /// No registered face matches the requested family, weight and slant.
    /// The shaper answers this one itself, with the fallback face.
    FontResolutionFailed,
    /// A word boundary does not resolve to exactly one isolated cluster.
    ClusterBoundaryMismatch,
}

/// A failure while turning a painted surface into an encoded image.
#[derive(Clone, Copy, Debug, PartialEq, Eq, Structural)]
pub enum OutputError {
    /// The pixels of the surface could not be read back.
    SurfaceReadFailed,
    /// The encoder refused the pixel buffer.
    EncodeFailed,
}

} // verus!
