//! Error values returned by the decoders.

use vstd::prelude::*;

verus! {

/// Why a read of the image failed.
#[derive(Debug, Clone, Copy, PartialEq, Eq, Structural)]
pub enum IoErrorKind {
    /// The bytes asked for lie, at least in part, past the end of the image.
    UnexpectedEof,
    /// The bytes were read, but what they say cannot be: a cluster size that
    /// is no power of two, or cluster 0 where a data cluster is asked for.
    InvalidData,
}

/// Errors of decoding a disk image.
#[derive(Debug, Clone, Copy, PartialEq, Eq, Structural)]
pub enum DiskError {
    /// The image is shorter than the extent it has to hold. `expected` is
    /// where that extent ends, `actual` the length of the image.
    InvalidDiskLength { expected: u64, actual: u64 },
    /// A read of the image failed.
    IoError(IoErrorKind),
    /// The superblock does not start with the bytes `XTAF`. `magic` is what
    /// it starts with, `offset` where the read of these four bytes ended.
    InvalidFilesystemMagic { magic: u32, offset: u64 },
}

impl DiskError {
    /// The error of a read that runs past the end of the image.
    pub fn unexpected_eof() -> (e: DiskError)
        ensures
            e == DiskError::IoError(IoErrorKind::UnexpectedEof),
    {
        DiskError::IoError(IoErrorKind::UnexpectedEof)
    }
}

} // verus!
