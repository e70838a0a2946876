//! Hiding short messages in PNG files: the chunk codec and the in-memory
//! container, with every operation specified over byte sequences.
//!
//! * [`chunk_type`]: the four-letter chunk type and its property bits.
//! * [`chunk`]: one length-prefixed, checksummed record; encoding, decoding
//!   and the laws that tie the two together.
//! * [`png`]: a whole stream, the signature and its ordered chunks; parsing,
//!   serializing, lookup, append and removal.
//! * [`utils`]: big-endian 32-bit numbers and a byte-appending helper.
//! * [`text`]: UTF-8 text, decoded by the standard library.
//! * [`checksum`]: CRC-32, computed by the `crc` crate.
//! * [`error`]: the error kinds.
//!
//! What is taken on trust is in [`text`] and [`checksum`]: that the standard
//! library decodes UTF-8 as `vstd::utf8` defines it, and that the checksum
//! of a byte sequence depends on the bytes alone.

pub mod error;
pub mod text;
pub mod utils;
pub mod checksum;
pub mod chunk_type;
pub mod chunk;
pub mod png;
