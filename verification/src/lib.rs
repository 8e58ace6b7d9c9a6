//! A codec for the RESP3 wire protocol: a tagged value model together with a
//! verified parser and serializer.
//!
//! The model is a closed sum type of thirteen variants (primitives, textual
//! payloads and recursive containers), each of which may carry an optional
//! out-of-band attribute prefix.  Parsing turns a byte buffer into a value and
//! the unconsumed remainder; serialization is its inverse on well-formed
//! values, which is proved as the round-trip law in `laws`.

pub mod canon;
pub mod digits;
pub mod errors;
pub mod laws;
pub mod lexord;
pub mod model;
pub mod parse;
pub mod ser;
pub mod utf8;
pub mod valid;
pub mod value;

