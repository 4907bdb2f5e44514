//! Reading and writing PNG files as containers of typed, checksummed chunks.
//!
//! A file is a signature followed by chunks. Each chunk carries a four-byte
//! type, a payload, and a CRC-32 over both. The library parses such files,
//! serializes them byte for byte, and lets a caller append, find and remove
//! chunks by type, which is how a message is hidden in a picture.
//!
//! Every module states its functions over mathematical values: a chunk is
//! its type and payload ([`chunk::ChunkView`]), a file the sequence of its
//! chunks. The checksum itself is computed by the `crc32fast` crate and
//! enters the contracts as [`checksum::crc32`].
#![allow(unused_imports)]

pub mod args;
pub mod checksum;
pub mod chunk;
pub mod chunk_type;
pub mod commands;
pub mod error;
pub mod png;
pub mod text;
pub mod wire;
