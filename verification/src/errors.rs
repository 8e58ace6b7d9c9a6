//! The failures a parse can report.

use vstd::prelude::*;

verus! {

/// Why a parse attempt failed.
///
/// Every failure is local and recoverable: the parser returns it to the
/// caller and never panics.  The variants are chosen so that the most
/// specific cause is surfaced:
///
/// - `MalformedDiscriminator`: the leading byte of a value matches no variant.
/// - `InvalidLength`: a decimal run (a length or count prefix, or a numeric
///   payload) is missing or malformed, a length does not fit in `usize`, or a
///   verbatim-string length is too small to cover its subtype header.
/// - `TruncatedInput`: the buffer ends before the grammar is complete, or a
///   declared length exceeds the remaining bytes.
/// - `MissingDelimiter`: the mandatory `\r\n` terminator is absent.
/// - `InvalidEncoding`: payload bytes are not valid text where text is
///   required (a simple string or error-message payload that is empty or not
///   UTF-8, a boolean payload other than `t`/`f`, or a broken `inf` literal).
/// - `InvalidCodeFormat`: an error-code segment fails the uppercase-letter
///   grammar or is not followed by a space.
/// - `NumericOverflow`: a number payload exceeds the range of its 64-bit
///   representation.
/// - `UnknownSubtype`: a verbatim-string subtype header is neither `txt:`
///   nor `mkd:`.
/// - `RecursionLimitExceeded`: values are nested deeper than the fixed
///   recursion limit; the parser fails cleanly instead of exhausting the
///   call stack.
#[derive(Clone, Copy, Debug, PartialEq, Eq, Structural, Hash)]
pub enum ParseError {
    MalformedDiscriminator,
    InvalidLength,
    TruncatedInput,
    MissingDelimiter,
    InvalidEncoding,
    InvalidCodeFormat,
    NumericOverflow,
    UnknownSubtype,
    RecursionLimitExceeded,
}

} // verus!
