//! The errors that stop an analysis.
use vstd::prelude::*;

verus! {

/// Why an analysis could not go on.
#[derive(Debug, Clone, Copy, PartialEq, Eq, Structural)]
pub enum CheckError {
    /// A version string holds no parseable major/minor pair.
    MalformedVersion,
    /// A collected object lacks a field that every live object has.
    MissingRequiredField,
}

} // verus!
