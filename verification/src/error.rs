//! The error kinds that filesystem operations surface.

use vstd::prelude::*;

verus! {

/// Why a filesystem operation failed. Metadata I/O errors are propagated
/// verbatim; type mismatches are recoverable at the typed-wrapper boundary.
#[derive(Debug, Copy, Clone, PartialEq, Eq, Structural)]
pub enum Error {
    /// Magic or structure mismatch in the superblock.
    InvalidSuperblock,
    UnableToReadSuperblock,
    UnableToWriteSuperblock,
    UnableToReadBlockGroupDescriptorTable,
    UnableToWriteBlockGroupDescriptorTable,
    /// A directory was required but the inode has another type.
    NotDirectory,
    /// A regular file was required but the inode has another type.
    NotRegularFile,
    /// Generic block-device read failure.
    DeviceRead,
    /// Generic block-device write failure.
    DeviceWrite,
    /// Inode address 0 or out of range.
    InvalidInodeAddress(u32),
    /// The allocator could not satisfy a request.
    NoSpace,
    /// A directory entry with this name already exists.
    EntryExists,
    /// The operation would need indirect-block growth, which this core
    /// does not implement.
    Unsupported,
}

} // verus!
