//! The ways in which gathering or storing release histories can fail.

use vstd::prelude::*;

verus! {

/// A failure, with what is needed to find its cause.
#[derive(Debug, PartialEq, Eq)]
pub enum ReleaseError {
    /// The release list, which is required, is missing.
    FileNotFound,
    /// There is no cache. This is expected on a first run: the release list
    /// is read instead.
    CacheAbsent,
    /// There is a cache, but it does not hold a collection of programs.
    CacheCorrupt,
    /// The collection could not be written as a cache document.
    EncodeFailed,
    /// A version token on the given line (counted from one) is not three
    /// 16-bit numbers separated by dots.
    MalformedVersion { line: usize, token: String },
    /// The given line has no name field. No text gives rise to this: even an
    /// empty line has one, empty, field.
    MalformedRecord { line: usize },
}

/// A failure as mathematics.
pub enum Fault {
    FileNotFound,
    CacheAbsent,
    CacheCorrupt,
    EncodeFailed,
    MalformedVersion { line: nat, token: Seq<char> },
    MalformedRecord { line: nat },
}

impl View for ReleaseError {
    type V = Fault;

    open spec fn view(&self) -> Fault {
        match self {
            ReleaseError::FileNotFound => Fault::FileNotFound,
            ReleaseError::CacheAbsent => Fault::CacheAbsent,
            ReleaseError::CacheCorrupt => Fault::CacheCorrupt,
            ReleaseError::EncodeFailed => Fault::EncodeFailed,
            ReleaseError::MalformedVersion { line, token } => Fault::MalformedVersion {
                line: *line as nat,
                token: token@,
            },
            ReleaseError::MalformedRecord { line } => Fault::MalformedRecord { line: *line as nat },
        }
    }
}

impl ReleaseError {
    /// Whether the run goes on after this failure. Only a missing cache is
    /// recoverable: the release list then takes its place.
    pub fn is_recoverable(&self) -> (recoverable: bool)
        ensures
            recoverable == (self@ is CacheAbsent),
    {
        match self {
            ReleaseError::CacheAbsent => true,
            _ => false,
        }
    }
}

} // verus!
