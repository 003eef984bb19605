//! The two ways in which decoding a number from text can fail.

use vstd::prelude::*;

verus! {

/// Why a text was not decoded. Either way no value is produced.
#[derive(Clone, Copy, Debug, PartialEq, Eq, Structural)]
pub enum DecodeError {
    /// The text is not a number in the expected notation: it is empty, holds
    /// a character that is no digit, or ends after a sign or a prefix.
    Invalid,
    /// The text is a well-formed number whose value lies outside the range
    /// of the requested width and signedness.
    Overflow,
}

} // verus!
