//! Why building an ISO image failed.
use vstd::prelude::*;

verus! {

/// Why an ISO image, or a part of it, could not be built.
#[derive(Debug, Clone, Copy, PartialEq, Eq)]
pub enum IsoError {
    /// A path has no file name (it is empty or ends in `..`).
    InvalidFileName,
    /// A path in the ISO tree does not exist.
    NotFound,
    /// A path names a directory where a file was expected.
    IsDirectory,
    /// A directory component of a path is a file.
    NotADirectory,
    /// A boot image needs more 512-byte sectors than a catalog entry records.
    BootImageTooLarge,
    /// The ESP location and size must be given together, and the size must
    /// not be zero.
    InvalidEspConfig,
    /// A file exceeds the 4 GiB - 1 that an ISO 9660 directory record holds.
    FileTooLarge,
    /// The image exceeds what its sector counts can record.
    ImageTooLarge,
    /// A directory's records exceed its one sector.
    DirectoryTooLarge,
    /// A name is too long for a directory record.
    NameTooLong,
    /// The image ends before the data that a boot information table covers.
    Truncated,
    /// A partition type GUID could not be read.
    InvalidGuid,
}

} // verus!
