use vstd::prelude::*;

verus! {

/// Every way in which an operation of this library can fail.
#[derive(Debug, Clone, PartialEq, Eq)]
pub enum Error {
    /// A region holds a number of bytes other than its declared length.
    RegionLength { expected: usize, found: usize },
    /// A region's end does not fit in a 64-bit offset.
    RegionEnd { offset: u64, length: u64 },
    /// A region starts before the end of the region that precedes it.
    RegionOrder { offset: u64, cursor: u64 },
    /// The Ignition embed header does not carry its magic number.
    UnrecognizedImage,
    /// The Ignition embed area is too large to hold in memory.
    IgnitionAreaTooLarge { declared: u64 },
    /// The Ignition embed area ends outside the image.
    IgnitionOutside { offset: u64, length: u64, size: u64 },
    /// The image has no karg embed areas (old or corrupted image).
    NoKargAreas,
    /// The karg embed header lists no karg area.
    NoKargOffsets,
    /// The karg embed header declares an area length above the maximum.
    KargAreaTooLarge { max: usize, declared: u64 },
    /// The default kargs area ends outside the image.
    DefaultKargsOutside { offset: u64, length: u64, size: u64 },
    /// A karg area ends outside the image.
    KargsOutside { offset: u64, length: u64, size: u64 },
    /// A karg area does not hold valid UTF-8.
    InvalidUtf8,
    /// Two karg areas hold different arguments.
    KargsMismatch { first_offset: u64, first_value: String, offset: u64, value: String },
    /// Formatted kargs do not fit in a karg area.
    KargsTooLarge { needed: usize, capacity: usize },
    /// A compressed Ignition config does not fit in the embed area.
    IgnitionTooLarge { needed: usize, capacity: usize },
    /// The image already holds an Ignition config and forcing was not asked.
    AlreadyEmbedded,
    /// The image holds no Ignition config.
    NoIgnition,
    /// Building the compressed archive failed.
    ArchiveWrite,
    /// The archive could not be decompressed or read.
    ArchiveRead,
    /// The archive holds no entry with the config's name.
    ConfigNotInArchive,
}

} // verus!
