use vstd::prelude::*;

verus! {

/// Every way an image or a lookup in it can fail.
#[derive(Clone, Copy, Debug, PartialEq, Eq, Structural)]
pub enum FatError {
    /// The image could not be opened or read.
    Io,
    /// The image is shorter than the boot parameter block.
    Truncated,
    /// The boot parameter block gives a sector size of zero.
    ZeroSectorSize,
    /// A computed sector range reaches past the end of the image.
    OutOfBounds,
    /// No root directory entry carries the requested name.
    NotFound,
    /// A chain links to the bad-cluster marker.
    BadCluster,
    /// A chain links to a value of the reserved range.
    ReservedCluster,
    /// A chain starts at, or links to, a number that is no data cluster.
    InvalidCluster,
    /// A chain is longer than the number of data clusters, so it loops.
    ChainTooLong,
}

} // verus!
