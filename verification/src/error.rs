//! The failures of the library, one variant per component.

use crate::args::ArgsParseErr;
use crate::chunk::ChunkErr;
use crate::chunk_type::ChunkTypeErr;
use crate::png::PngErr;
use vstd::prelude::*;

verus! {

/// Any failure the library reports.
#[derive(Debug, PartialEq, Eq)]
pub enum Error {
    /// A text is no chunk type.
    ChunkType(ChunkTypeErr),
    /// Bytes are no chunk.
    Chunk(ChunkErr),
    /// Bytes are no PNG file, or a chunk is missing from one.
    Png(PngErr),
    /// A command line names no subcommand with its values.
    Args(ArgsParseErr),
    /// Bytes that should be text are not UTF-8.
    Utf8(core::str::Utf8Error),
}

} // verus!
