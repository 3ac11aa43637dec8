//! Errors of the store path operations.

use crate::nix_store::StorePath;
use vstd::prelude::*;

verus! {

/// The result of a store path operation.
pub type StoreResult<T> = Result<T, StoreError>;

/// An error of a store path operation.
#[derive(Debug)]
pub enum StoreError {
    /// Invalid store path.
    InvalidStorePath { path: Vec<u8>, reason: &'static str },
    /// Invalid store path base name.
    InvalidStorePathName { base_name: Vec<u8>, reason: &'static str },
    /// Invalid store path hash.
    InvalidStorePathHash { hash: String, reason: &'static str },
    /// I/O error.
    IoError { error: std::io::Error },
    /// Unknown C++ exception.
    CxxError { exception: String },
    /// Provenance was not valid JSON.
    InvalidProvenance { path: StorePath, error_display: String, invalid_string: String },
}

/// The name of the error's variant.
pub open spec fn store_error_name(error: StoreError) -> Seq<char> {
    match error {
        StoreError::InvalidStorePath { .. } => "InvalidStorePath"@,
        StoreError::InvalidStorePathName { .. } => "InvalidStorePathName"@,
        StoreError::InvalidStorePathHash { .. } => "InvalidStorePathHash"@,
        StoreError::IoError { .. } => "IoError"@,
        StoreError::CxxError { .. } => "CxxError"@,
        StoreError::InvalidProvenance { .. } => "InvalidProvenance"@,
    }
}

/// Every error is named after its variant.
pub proof fn errors_are_named_after_their_variants(error: StoreError)
    ensures
        error is InvalidStorePath ==> store_error_name(error) == "InvalidStorePath"@,
        error is InvalidStorePathName ==> store_error_name(error) == "InvalidStorePathName"@,
        error is InvalidStorePathHash ==> store_error_name(error) == "InvalidStorePathHash"@,
        error is IoError ==> store_error_name(error) == "IoError"@,
        error is CxxError ==> store_error_name(error) == "CxxError"@,
        error is InvalidProvenance ==> store_error_name(error) == "InvalidProvenance"@,
{
}

impl StoreError {
    /// The name of the error's variant.
    pub fn name(&self) -> (name: &'static str)
        ensures
            name@ == store_error_name(*self),
    {
        match self {
            StoreError::InvalidStorePath { .. } => "InvalidStorePath",
            StoreError::InvalidStorePathName { .. } => "InvalidStorePathName",
            StoreError::InvalidStorePathHash { .. } => "InvalidStorePathHash",
            StoreError::IoError { .. } => "IoError",
            StoreError::CxxError { .. } => "CxxError",
            StoreError::InvalidProvenance { .. } => "InvalidProvenance",
        }
    }

    /// The error for a C++ exception, from what the exception says of itself.
    pub fn from_exception(what: &str) -> (error: StoreError)
        ensures
            error matches StoreError::CxxError { exception } && exception@ == what@,
    {
        StoreError::CxxError { exception: what.to_owned() }
    }
}

impl From<std::io::Error> for StoreError {
    fn from(error: std::io::Error) -> (r: StoreError) {
        StoreError::IoError { error }
    }
}

impl vstd::std_specs::convert::FromSpecImpl<std::io::Error> for StoreError {
    open spec fn obeys_from_spec() -> bool {
        true
    }

    open spec fn from_spec(error: std::io::Error) -> StoreError {
        StoreError::IoError { error }
    }
}

} // verus!
