//! The library's error type.

use vstd::prelude::*;

use crate::base_fs_cache::FsCacheErrorKind;
use crate::concrete_cachers::{FetchOperationError, ProcessingErrorKind};

verus! {

/// What went wrong during a search run.
#[derive(Debug)]
pub enum LibError {
    /// The same path was given both as a candidate and as a reference.
    SamePathInRefAndCandError(String),
    /// A video could not be processed; its cached error.
    ProcessingError(ProcessingErrorKind, String),
    /// The cache itself failed.
    CacheError(FsCacheErrorKind),
    /// An interactive resolution failed.
    ResolutionError(String),
}

impl LibError {
    /// Lift a per-path fetch error; the expected terminal states are
    /// not errors and may not be lifted.
    pub fn from_fetch(e: FetchOperationError) -> (r: LibError)
        requires
            !(e is NotVideo),
            !(e is ShortVideo),
        ensures
            e matches FetchOperationError::ProcessingError(k, m) ==> r
                == LibError::ProcessingError(k, m),
            e is CacheError ==> r is CacheError,
    {
        match e {
            FetchOperationError::ProcessingError(k, m) => LibError::ProcessingError(k, m),
            FetchOperationError::CacheError(c) => LibError::CacheError(c),
            FetchOperationError::NotVideo => LibError::ResolutionError(String::new()),
            FetchOperationError::ShortVideo => LibError::ResolutionError(String::new()),
        }
    }
}

} // verus!
