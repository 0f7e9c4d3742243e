//! Validation report for polyglot files

use vstd::prelude::*;

verus! {

/// Validation result for polyglot files
#[derive(Debug, PartialEq)]
pub enum ValidationResult {
    /// File is a valid PNG/ZIP polyglot
    Valid,
    /// Invalid PNG with error message
    InvalidPng(String),
    /// Invalid ZIP with error message
    InvalidZip(String),
    /// Both PNG and ZIP are invalid
    InvalidBoth(String, String),
}

} // verus!
