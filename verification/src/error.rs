//! The codec's error model: transport failure (a short read), structural
//! mismatch (a marker outside the expected category), and encoding failure
//! (a non-UTF-8 string payload, or a value too large for its length class).

use vstd::prelude::*;

use crate::marker::Marker;
use crate::value::BasicTypeKind;

verus! {

/// Why a decode failed. Every failure is terminal for the value being
/// decoded; no partial value is handed out.
#[derive(Clone, Copy, Debug, PartialEq, Eq, Structural)]
pub enum FromMsgpackError {
    /// The byte source ended while the marker byte of a value was read.
    MarkerRead,
    /// The byte source ended while the payload of a value was read.
    Io,
    /// A string payload was not valid UTF-8.
    Utf8,
    /// The decoded marker lies outside the expected category; carries the
    /// category that was expected and the marker actually observed.
    Marker { expected: BasicTypeKind, actual: Marker },
}

/// Why an encode failed: a string, array or mapping was longer than the
/// largest length class of the wire format.
#[derive(Clone, Copy, Debug, PartialEq, Eq, Structural)]
pub enum ToMsgpackError {
    TooLong,
}

} // verus!
