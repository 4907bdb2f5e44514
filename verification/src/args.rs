//! The arguments of the four subcommands.

use crate::chunk_type::{chunk_type_of_text, ChunkType};
use crate::error::Error;
use crate::text::same_text;
use vstd::prelude::*;
use vstd::string::StringSliceAdditionalSpecFns;
use vstd::utf8::encode_utf8;

verus! {

/// Why arguments were refused, other than by a bad chunk type.
#[derive(Debug, Clone, Copy, PartialEq, Eq, Structural)]
pub enum ArgsParseErr {
    /// The subcommand is unknown, or it came with the wrong number of values.
    UnknownArgument,
}

impl ArgsParseErr {
    /// The text of the message.
    pub open spec fn message_text(self) -> Seq<char> {
        "Unkown argument found"@
    }

    /// A message that says what is wrong.
    pub fn message(&self) -> (s: String)
        ensures
            s@ == self.message_text(),
    {
        "Unkown argument found".to_owned()
    }
}

/// The arguments of one subcommand.
#[derive(Debug)]
pub enum ArgsKind {
    Encode(EncodeArgs),
    Decode(DecodeArgs),
    Remove(RemoveArgs),
    Print(PrintArgs),
}

/// Hide a message in a file: read `file_path`, append a chunk of type
/// `chunk_type` that holds `message`, write the result to `output_path`.
#[derive(Debug)]
pub struct EncodeArgs {
    pub file_path: String,
    pub chunk_type: ChunkType,
    pub message: String,
    pub output_path: String,
}

/// Show the message that the first chunk of type `chunk_type` holds.
#[derive(Debug)]
pub struct DecodeArgs {
    pub file_path: String,
    pub chunk_type: ChunkType,
}

/// Take the first chunk of type `chunk_type` out of the file.
#[derive(Debug)]
pub struct RemoveArgs {
    pub file_path: String,
    pub chunk_type: ChunkType,
}

/// List the chunks of the file.
#[derive(Debug)]
pub struct PrintArgs {
    pub file_path: String,
}

/// What the command line says when a chunk type is refused.
pub open spec fn invalid_chunk_type_text() -> Seq<char> {
    "Chunk type not valid. All 4 bytes must be from alphabet."@
}

/// Accepts `chunk_type` if it names a chunk type, and explains if not.
pub fn is_chunk_type_valid(chunk_type: String) -> (r: Result<(), String>)
    ensures
        match r {
            Ok(_) => chunk_type_of_text(encode_utf8(chunk_type@)) is Ok,
            Err(why) => chunk_type_of_text(encode_utf8(chunk_type@)) is Err && why@
                == invalid_chunk_type_text(),
        },
{
    match ChunkType::from_text(chunk_type.as_str()) {
        Ok(_) => Ok(()),
        Err(_) => Err("Chunk type not valid. All 4 bytes must be from alphabet.".to_owned()),
    }
}

impl EncodeArgs {
    /// The arguments of `encode`. The chunk type must be four ASCII letters.
    pub fn new(file_path: &str, chunk_type: &str, message: &str, output_path: &str) -> (r: Result<
        Self,
        Error,
    >)
        ensures
            match chunk_type_of_text(chunk_type.spec_bytes()) {
                Ok(ty) => r matches Ok(args) && args.file_path@ == file_path@ && args.chunk_type@
                    == ty && args.message@ == message@ && args.output_path@ == output_path@,
                Err(e) => r == Err::<Self, Error>(e),
            },
    {
        match ChunkType::from_text(chunk_type) {
            Ok(chunk_type) => Ok(
                EncodeArgs {
                    file_path: file_path.to_owned(),
                    chunk_type,
                    message: message.to_owned(),
                    output_path: output_path.to_owned(),
                },
            ),
            Err(e) => Err(e),
        }
    }
}

impl DecodeArgs {
    /// The arguments of `decode`. The chunk type must be four ASCII letters.
    pub fn new(file_path: &str, chunk_type: &str) -> (r: Result<Self, Error>)
        ensures
            match chunk_type_of_text(chunk_type.spec_bytes()) {
                Ok(ty) => r matches Ok(args) && args.file_path@ == file_path@ && args.chunk_type@
                    == ty,
                Err(e) => r == Err::<Self, Error>(e),
            },
    {
        match ChunkType::from_text(chunk_type) {
            Ok(chunk_type) => Ok(DecodeArgs { file_path: file_path.to_owned(), chunk_type }),
            Err(e) => Err(e),
        }
    }
}

impl RemoveArgs {
    /// The arguments of `remove`. The chunk type must be four ASCII letters.
    pub fn new(file_path: &str, chunk_type: &str) -> (r: Result<Self, Error>)
        ensures
            match chunk_type_of_text(chunk_type.spec_bytes()) {
                Ok(ty) => r matches Ok(args) && args.file_path@ == file_path@ && args.chunk_type@
                    == ty,
                Err(e) => r == Err::<Self, Error>(e),
            },
    {
        match ChunkType::from_text(chunk_type) {
            Ok(chunk_type) => Ok(RemoveArgs { file_path: file_path.to_owned(), chunk_type }),
            Err(e) => Err(e),
        }
    }
}

impl PrintArgs {
    /// The arguments of `print`.
    pub fn new(file_path: &str) -> (r: Result<Self, Error>)
        ensures
            r matches Ok(args) && args.file_path@ == file_path@,
    {
        Ok(PrintArgs { file_path: file_path.to_owned() })
    }
}

/// The four subcommands, as contracts tell them apart.
pub enum Subcommand {
    Encode,
    Decode,
    Remove,
    Print,
}

/// The subcommand that `name` with `count` values calls for: `encode` takes
/// four values, `decode` and `remove` two, `print` one.
pub open spec fn subcommand_of(name: Seq<char>, count: nat) -> Option<Subcommand> {
    if name == "encode"@ && count == 4 {
        Some(Subcommand::Encode)
    } else if name == "decode"@ && count == 2 {
        Some(Subcommand::Decode)
    } else if name == "remove"@ && count == 2 {
        Some(Subcommand::Remove)
    } else if name == "print"@ && count == 1 {
        Some(Subcommand::Print)
    } else {
        None
    }
}

/// Reads a command line that was split into a subcommand and its values.
pub struct Config {}

impl Config {
    /// A reader of command lines.
    pub fn new() -> (config: Self)
        ensures
            config == (Config {  }),
    {
        Config {  }
    }

    /// The arguments that the subcommand `name` makes of `values`, which are
    /// its positional values in order: the file, then the chunk type, then
    /// for `encode` the message and the output file.
    pub fn parse_args(name: &str, values: &[&str]) -> (r: Result<ArgsKind, Error>)
        ensures
            match subcommand_of(name@, values@.len()) {
                Some(Subcommand::Encode) => match chunk_type_of_text(values@[1].spec_bytes()) {
                    Ok(ty) => r matches Ok(ArgsKind::Encode(args)) && args.file_path@ == values@[0]@
                        && args.chunk_type@ == ty && args.message@ == values@[2]@
                        && args.output_path@ == values@[3]@,
                    Err(e) => r == Err::<ArgsKind, Error>(e),
                },
                Some(Subcommand::Decode) => match chunk_type_of_text(values@[1].spec_bytes()) {
                    Ok(ty) => r matches Ok(ArgsKind::Decode(args)) && args.file_path@ == values@[0]@
                        && args.chunk_type@ == ty,
                    Err(e) => r == Err::<ArgsKind, Error>(e),
                },
                Some(Subcommand::Remove) => match chunk_type_of_text(values@[1].spec_bytes()) {
                    Ok(ty) => r matches Ok(ArgsKind::Remove(args)) && args.file_path@ == values@[0]@
                        && args.chunk_type@ == ty,
                    Err(e) => r == Err::<ArgsKind, Error>(e),
                },
                Some(Subcommand::Print) => r matches Ok(ArgsKind::Print(args)) && args.file_path@
                    == values@[0]@,
                None => r == Err::<ArgsKind, Error>(Error::Args(ArgsParseErr::UnknownArgument)),
            },
    {
        if same_text(name, "encode") && values.len() == 4 {
            match EncodeArgs::new(values[0], values[1], values[2], values[3]) {
                Ok(args) => Ok(ArgsKind::Encode(args)),
                Err(e) => Err(e),
            }
        } else if same_text(name, "decode") && values.len() == 2 {
            match DecodeArgs::new(values[0], values[1]) {
                Ok(args) => Ok(ArgsKind::Decode(args)),
                Err(e) => Err(e),
            }
        } else if same_text(name, "remove") && values.len() == 2 {
            match RemoveArgs::new(values[0], values[1]) {
                Ok(args) => Ok(ArgsKind::Remove(args)),
                Err(e) => Err(e),
            }
        } else if same_text(name, "print") && values.len() == 1 {
            match PrintArgs::new(values[0]) {
                Ok(args) => Ok(ArgsKind::Print(args)),
                Err(e) => Err(e),
            }
        } else {
            Err(Error::Args(ArgsParseErr::UnknownArgument))
        }
    }
}

} // verus!
