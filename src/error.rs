//! The errors that the library reports.
use crate::bag::BagItVersion;
use vstd::prelude::*;

verus! {

/// What kind of failure an I/O operation met, as far as the library tells them apart.
#[derive(Debug, Clone, Copy, PartialEq, Eq, Structural)]
pub enum IoErrorKind {
    NotFound,
    PermissionDenied,
    Other,
}

/// Every error of the library, each with the path, label or line that locates it.
#[derive(Debug)]
pub enum Error {
    IoGeneral { details: String },
    IoCreate { path: String, details: String },
    IoWrite { path: String, details: String },
    IoRead { path: String, kind: IoErrorKind, details: String },
    IoReadDir { path: String, details: String },
    IoMove { from: String, to: String, details: String },
    IoCopy { from: String, to: String, details: String },
    IoDelete { path: String, details: String },
    IoStat { path: String, details: String },
    WalkFile { details: String },
    UnsupportedFile { path: String },
    InvalidTagLine { details: String },
    InvalidTagLineWithRef { path: String, num: usize, details: String },
    InvalidTag { label: String, details: String },
    InvalidBagItVersion { value: String },
    MissingTag { tag: String },
    UnsupportedVersion { version: BagItVersion },
    UnsupportedEncoding { encoding: String },
    InvalidUtf8Path { path: String },
    InvalidManifestLine { path: String, num: usize, details: String },
    InvalidString { details: String },
}

} // verus!
