//! What each subcommand does to the bytes of a file.

use crate::args::ArgsKind;
use crate::chunk::{Chunk, ChunkView};
use crate::error::Error;
use crate::png::{first_of_type, listing, parse_png, png_bytes, Png, PngErr};
use crate::text::text_of;
use vstd::prelude::*;
use vstd::slice::slice_to_vec;
use vstd::string::StringExecFns;
use vstd::utf8::encode_utf8;

verus! {

/// What is left to do when a subcommand has run: first print `message`, if
/// there is one, then write the bytes of `write` to the path beside them, if
/// there is a `write`.
#[derive(Debug)]
pub struct Outcome {
    pub message: Option<String>,
    pub write: Option<(String, Vec<u8>)>,
}

impl Outcome {
    /// The outcome holds this message, and this path and these bytes to write.
    pub open spec fn is(self, message: Option<Seq<char>>, write: Option<(Seq<char>, Seq<u8>)>) -> bool {
        &&& match message {
            Some(text) => self.message matches Some(s) && s@ == text,
            None => self.message is None,
        }
        &&& match write {
            Some((to, content)) => self.write matches Some((path, bytes)) && path@ == to && bytes@
                == content,
            None => self.write is None,
        }
    }
}

/// The report of a removal.
pub open spec fn removal_report(chunk_type: Seq<char>, file_path: Seq<char>) -> Seq<char> {
    "Removed chunk: "@ + chunk_type + " from file "@ + file_path
}

/// Runs the subcommands.
pub struct Command {}

impl Command {
    /// Runs the subcommand of `args` on `file`, the bytes of the file that
    /// the arguments name, and says what to print and what to write.
    ///
    /// The file must parse. Then `encode` appends a chunk with the message
    /// as payload and writes the result to the output path; `decode` prints
    /// the payload of the first chunk of the type as text; `remove` takes
    /// that chunk out, reports it and writes the result back to the file;
    /// `print` prints the listing of the chunks.
    pub fn run(args: ArgsKind, file: &[u8]) -> (r: Result<Outcome, Error>)
        ensures
            match parse_png(file@) {
                Err(e) => r == Err::<Outcome, Error>(e),
                Ok(chunks) => match args {
                    ArgsKind::Encode(a) => r matches Ok(o) && o.is(
                        None,
                        Some(
                            (
                                a.output_path@,
                                png_bytes(
                                    chunks.push(
                                        ChunkView {
                                            chunk_type: a.chunk_type@,
                                            data: encode_utf8(a.message@),
                                        },
                                    ),
                                ),
                            ),
                        ),
                    ),
                    ArgsKind::Decode(a) => match text_of(a.chunk_type@) {
                        None => r matches Err(e) && e is Utf8,
                        Some(name) => match first_of_type(chunks, name) {
                            None => r == Err::<Outcome, Error>(Error::Png(PngErr::ChunkNotFound)),
                            Some(i) => match text_of(chunks[i].data) {
                                None => r matches Err(e) && e is Utf8,
                                Some(text) => r matches Ok(o) && o.is(Some(text), None),
                            },
                        },
                    },
                    ArgsKind::Remove(a) => match text_of(a.chunk_type@) {
                        None => r matches Err(e) && e is Utf8,
                        Some(name) => match first_of_type(chunks, name) {
                            None => r == Err::<Outcome, Error>(Error::Png(PngErr::ChunkNotFound)),
                            Some(i) => r matches Ok(o) && o.is(
                                Some(removal_report(name, a.file_path@)),
                                Some((a.file_path@, png_bytes(chunks.remove(i)))),
                            ),
                        },
                    },
                    ArgsKind::Print(a) => match listing(chunks) {
                        None => r matches Err(e) && e is Utf8,
                        Some(lines) => r matches Ok(o) && o.is(Some(lines), None),
                    },
                },
            },
    {
        let mut png = match Png::parse(file) {
            Ok(png) => png,
            Err(e) => {
                return Err(e);
            },
        };
        match args {
            ArgsKind::Encode(a) => {
                let payload = slice_to_vec(a.message.as_str().as_bytes());
                png.append_chunk(Chunk::new(a.chunk_type, payload));
                Ok(Outcome { message: None, write: Some((a.output_path, png.as_bytes())) })
            },
            ArgsKind::Decode(a) => {
                let name = match a.chunk_type.to_text() {
                    Ok(name) => name,
                    Err(e) => {
                        return Err(e);
                    },
                };
                match png.chunk_by_type(name.as_str()) {
                    Some(chunk) => match chunk.data_as_string() {
                        Ok(text) => Ok(Outcome { message: Some(text), write: None }),
                        Err(e) => Err(e),
                    },
                    None => Err(Error::Png(PngErr::ChunkNotFound)),
                }
            },
            ArgsKind::Remove(a) => {
                let name = match a.chunk_type.to_text() {
                    Ok(name) => name,
                    Err(e) => {
                        return Err(e);
                    },
                };
                match png.remove_chunk(name.as_str()) {
                    Ok(_) => {
                        let mut report = "Removed chunk: ".to_owned();
                        report.append(name.as_str());
                        report.append(" from file ");
                        report.append(a.file_path.as_str());
                        Ok(
                            Outcome {
                                message: Some(report),
                                write: Some((a.file_path, png.as_bytes())),
                            },
                        )
                    },
                    Err(e) => Err(e),
                }
            },
            ArgsKind::Print(_) => match png.to_text() {
                Ok(lines) => Ok(Outcome { message: Some(lines), write: None }),
                Err(e) => Err(e),
            },
        }
    }
}

} // verus!
