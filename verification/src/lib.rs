//! A compact, tag-prefixed binary wire format with a verified encoder and
//! decoder, and a self-describing in-memory `Value` tree that bridges the
//! two.
//!
//! Every record starts with a one-byte [`tag::Tag`]: a 3-bit kind and 5
//! data bits that embed small values and lengths directly.  Larger payloads
//! follow the tag, written by a configurable integer codec
//! ([`integer_encoding`]): fixed-width little-endian or 7-bit
//! variable-length, with signed values zig-zag mapped.
//!
//! The byte-level meaning of the format is pinned down by spec functions
//! (`value_bytes`, `parse_value` and their helpers); the executable encoder
//! and decoder are proved to produce and consume exactly those bytes, and
//! [`laws`] states the format-wide guarantees: round trips, transcoding
//! between configurations, tag economy, overlong rejection and skip
//! behaviour.

pub mod de;
pub mod en;
pub mod error;
pub mod fixed_bytes;
pub mod hint;
pub mod integer_encoding;
pub mod laws;
pub mod reader;
pub mod tag;
pub mod unicode;
pub mod value;
pub mod value_de;
pub mod visitor;
