//! The failures that resolution can report.
use vstd::prelude::*;

verus! {

/// Why a step of the resolution failed.
///
/// "No match in this source" is not a failure: the scanners report it as
/// `None`, and the search moves on to the next source.
#[derive(Clone, Copy, Debug, PartialEq, Eq, Structural)]
pub enum ResolveError {
    /// The text is not six groups of two hexadecimal digits separated by `:`.
    InvalidMacFormat,
    /// An address captured from a configuration line failed to parse.
    MalformedMac,
    /// The text is not a device name: it is empty, longer than 15
    /// characters, holds a `:` or starts with whitespace.
    MalformedName,
    /// Every source was consulted and none names the interface.
    ResolutionFailed,
}

} // verus!
