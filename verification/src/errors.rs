//! The error kinds the provisioning pipeline can surface. Every failure is
//! fatal to its operation; variants carry what a caller needs for
//! diagnosis.

use vstd::prelude::*;

verus! {

/// A spec-level image of an error value, over character sequences, so that
/// spec functions can produce and compare errors.
pub enum SpecErr {
    /// A malformed version string.
    Parse,
    /// No prebuilt archive exists for this OS/architecture pair.
    UnsupportedPlatform { os: Seq<char>, arch: Seq<char> },
    /// Neither the network catalog nor the fallback snapshot could be
    /// decoded.
    CatalogUnavailable,
    /// No cataloged version matches the requested one.
    VersionNotFound,
    /// The server reported no content length for a download.
    MissingContentLength,
    /// A network transfer failed.
    Network,
    /// The downloaded file's digest disagrees with the fetched checksum.
    ChecksumMismatch,
    /// A subprocess exited with a non-zero status.
    Subprocess { stdout: Seq<char>, stderr: Seq<char> },
    /// The target path for a new virtual environment is already occupied.
    AlreadyExists { path: Seq<char> },
    /// The package installed, but the expected executable is absent.
    EntryPointMissing { executable: Seq<char>, package: Seq<char>, suggest_flags: bool },
}

/// An error surfaced by the provisioning pipeline.
#[derive(Debug)]
pub enum YenError {
    /// A malformed version string.
    Parse,
    /// No prebuilt archive exists for this OS/architecture pair.
    UnsupportedPlatform { os: String, arch: String },
    /// Neither the network catalog nor the fallback snapshot could be
    /// decoded.
    CatalogUnavailable,
    /// No cataloged version matches the requested one.
    VersionNotFound,
    /// The server reported no content length for a download.
    MissingContentLength,
    /// A network transfer failed.
    Network,
    /// The downloaded file's digest disagrees with the fetched checksum.
    ChecksumMismatch,
    /// A subprocess exited with a non-zero status; carries its captured
    /// output verbatim.
    Subprocess { stdout: String, stderr: String },
    /// The target path for a new virtual environment is already occupied.
    AlreadyExists { path: String },
    /// The package installed, but the expected executable is absent.
    /// `suggest_flags` marks the ambiguous case where the expected name
    /// merely defaulted to the package name.
    EntryPointMissing { executable: String, package: String, suggest_flags: bool },
}

impl View for YenError {
    type V = SpecErr;

    open spec fn view(&self) -> SpecErr {
        match self {
            YenError::Parse => SpecErr::Parse,
            YenError::UnsupportedPlatform { os, arch } => SpecErr::UnsupportedPlatform {
                os: os@,
                arch: arch@,
            },
            YenError::CatalogUnavailable => SpecErr::CatalogUnavailable,
            YenError::VersionNotFound => SpecErr::VersionNotFound,
            YenError::MissingContentLength => SpecErr::MissingContentLength,
            YenError::Network => SpecErr::Network,
            YenError::ChecksumMismatch => SpecErr::ChecksumMismatch,
            YenError::Subprocess { stdout, stderr } => SpecErr::Subprocess {
                stdout: stdout@,
                stderr: stderr@,
            },
            YenError::AlreadyExists { path } => SpecErr::AlreadyExists { path: path@ },
            YenError::EntryPointMissing { executable, package, suggest_flags } => {
                SpecErr::EntryPointMissing {
                    executable: executable@,
                    package: package@,
                    suggest_flags: *suggest_flags,
                }
            },
        }
    }
}

} // verus!
