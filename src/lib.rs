//! Repairs the size and offset bookkeeping of a game asset container after
//! its payload has been rewritten to drop the null padding that follows each
//! material record.
//!
//! The library works on bytes held in memory: the caller reads the header and
//! the payload, hands them over, and writes back what it gets.
use vstd::prelude::*;

pub mod bytes;
pub mod exports;
pub mod header;
pub mod patch;
pub mod scan;

verus! {

/// Why processing of one asset stopped.
#[derive(Debug, Clone, Copy, PartialEq, Eq, Structural)]
pub enum PatchError {
    /// The header does not start with the container's magic number.
    BadMagic,
    /// The header uses an engine version convention this library does not read.
    UnsupportedVersion,
    /// A field lies outside the bytes that were given.
    Io,
    /// No material count was found, and the asset's name marks it as one that
    /// holds none: the caller may skip it.
    Skip,
    /// No material count was found in an asset that was expected to hold one.
    InvalidData,
    /// The four bytes after a material record were not all zero.
    PaddingMismatch,
}

/// A sink for diagnostic messages. It plays no part in the results.
pub trait Logger {
    fn log(&self, buf: String);
}

/// Holds the caller's logger; the processing steps are its methods.
pub struct PatchFixer<LogProvider: Logger> {
    pub logger: LogProvider,
}

} // verus!
