//! The ways in which decoding fails.

use vstd::prelude::*;

verus! {

/// Why a decode call failed. A failed call yields no partial value.
#[derive(Clone, Copy, Debug, PartialEq, Eq, Structural)]
pub enum ASPMatchError {
    /// Binary input ended before a field or a declared count was satisfied.
    TruncatedInput,
    /// The declared record counts exceed what the remaining input could hold.
    HeaderSizeImplausible,
    /// A count declared in text disagrees with the number of items present.
    SchemaMismatch,
    /// Text input lacks a number, a blank or a line break where one is due.
    MalformedText,
}

} // verus!
