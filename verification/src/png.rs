//! A whole PNG file: the signature and the chunks that follow it, in order.

use crate::chunk::{
    parse_chunk, theorem_as_bytes_of_parse, theorem_parse_of_as_bytes, Chunk, ChunkErr, ChunkView,
};
use crate::error::Error;
use crate::text::{decimal, lemma_text_of_iff_encoding, push_decimal, text_of};
use crate::wire::{be_u32, lemma_be_u32_of_u32_be, read_be_u32, u32_be};
use vstd::prelude::*;
use vstd::std_specs::convert::TryFromSpecImpl;
use vstd::string::StringExecFns;

verus! {

/// Why a container operation failed, other than by a malformed chunk.
#[derive(Debug, Clone, Copy, PartialEq, Eq, Structural)]
pub enum PngErr {
    /// The bytes do not start with the PNG signature.
    BadSignature,
    /// No chunk of the requested type is present.
    ChunkNotFound,
}

impl PngErr {
    /// The text of the message.
    pub open spec fn message_text(self) -> Seq<char> {
        match self {
            PngErr::BadSignature => "File does not start with the PNG signature"@,
            PngErr::ChunkNotFound => "No chunk of this type in the file"@,
        }
    }

    /// A message that says what is wrong.
    pub fn message(&self) -> (s: String)
        ensures
            s@ == self.message_text(),
    {
        match self {
            PngErr::BadSignature => "File does not start with the PNG signature".to_owned(),
            PngErr::ChunkNotFound => "No chunk of this type in the file".to_owned(),
        }
    }
}

/// The eight bytes every PNG file starts with.
pub const SIGNATURE: [u8; 8] = [137, 80, 78, 71, 13, 10, 26, 10];

/// The signature as a sequence.
pub open spec fn signature() -> Seq<u8> {
    seq![137u8, 80u8, 78u8, 71u8, 13u8, 10u8, 26u8, 10u8]
}

/// The serialized forms of `chunks`, one after the other.
pub open spec fn chunks_bytes(chunks: Seq<ChunkView>) -> Seq<u8>
    decreases chunks.len(),
{
    if chunks.len() == 0 {
        Seq::empty()
    } else {
        chunks[0].as_bytes() + chunks_bytes(chunks.drop_first())
    }
}

/// The serialized form of a container: the signature, then the chunks.
pub open spec fn png_bytes(chunks: Seq<ChunkView>) -> Seq<u8> {
    signature() + chunks_bytes(chunks)
}

/// `first` put in front of what `rest` holds, if it holds chunks.
pub open spec fn prepend(first: Seq<ChunkView>, rest: Result<Seq<ChunkView>, Error>) -> Result<
    Seq<ChunkView>,
    Error,
> {
    match rest {
        Ok(chunks) => Ok(first + chunks),
        Err(e) => Err(e),
    }
}

/// What parsing `bytes` as a run of chunks yields. Each chunk takes twelve
/// bytes and as many more as its length field says; the first chunk that
/// does not parse decides the error.
pub open spec fn parse_chunks(bytes: Seq<u8>) -> Result<Seq<ChunkView>, Error>
    decreases bytes.len(),
{
    let size = 12 + be_u32(bytes.subrange(0, 4));
    if bytes.len() == 0 {
        Ok(Seq::empty())
    } else if bytes.len() < 12 {
        Err(Error::Chunk(ChunkErr::ChunksLengthLess))
    } else if size > bytes.len() {
        Err(Error::Chunk(ChunkErr::ChunkLengthInvalid))
    } else {
        match parse_chunk(bytes.subrange(0, size)) {
            Ok(chunk) => prepend(seq![chunk], parse_chunks(bytes.subrange(size, bytes.len() as int))),
            Err(e) => Err(e),
        }
    }
}

/// What parsing `bytes` as a PNG file yields: the chunks that follow the
/// signature.
pub open spec fn parse_png(bytes: Seq<u8>) -> Result<Seq<ChunkView>, Error> {
    if bytes.len() < 8 || bytes.subrange(0, 8) != signature() {
        Err(Error::Png(PngErr::BadSignature))
    } else {
        parse_chunks(bytes.subrange(8, bytes.len() as int))
    }
}

/// The chunks of `chunks` as mathematical values.
pub open spec fn views(chunks: Seq<Chunk>) -> Seq<ChunkView> {
    Seq::new(chunks.len(), |i: int| chunks[i]@)
}

/// The index of the first chunk of `chunks` whose type reads as `text`.
pub open spec fn first_of_type(chunks: Seq<ChunkView>, text: Seq<char>) -> Option<int>
    decreases chunks.len(),
{
    if chunks.len() == 0 {
        None
    } else if text_of(chunks[0].chunk_type) == Some(text) {
        Some(0)
    } else {
        match first_of_type(chunks.drop_first(), text) {
            Some(i) => Some(i + 1),
            None => None,
        }
    }
}

/// The line that lists one chunk: its type as text, a space, its length in
/// decimal, and a line feed. A chunk whose type is no text has no line.
pub open spec fn chunk_line(chunk: ChunkView) -> Option<Seq<char>> {
    match text_of(chunk.chunk_type) {
        Some(name) => Some(name + seq![' '] + decimal(chunk.length() as nat) + seq!['\n']),
        None => None,
    }
}

/// The lines of all chunks, in order, if every chunk has one.
pub open spec fn listing(chunks: Seq<ChunkView>) -> Option<Seq<char>>
    decreases chunks.len(),
{
    if chunks.len() == 0 {
        Some(Seq::empty())
    } else {
        match (listing(chunks.drop_last()), chunk_line(chunks.last())) {
            (Some(lines), Some(line)) => Some(lines + line),
            _ => None,
        }
    }
}

/// Every chunk of `chunks` has a four-byte type and a payload whose length
/// the length field can hold.
pub open spec fn all_fit(chunks: Seq<ChunkView>) -> bool {
    forall|i: int|
        0 <= i < chunks.len() ==> (#[trigger] chunks[i]).wf() && chunks[i].data.len() <= u32::MAX
}

/// A PNG file held in memory.
#[derive(Debug)]
pub struct Png {
    chunks: Vec<Chunk>,
}

impl View for Png {
    type V = Seq<ChunkView>;

    closed spec fn view(&self) -> Seq<ChunkView> {
        views(self.chunks@)
    }
}

fn has_signature(bytes: &[u8]) -> (r: bool)
    ensures
        r == (bytes@.len() >= 8 && bytes@.subrange(0, 8) == signature()),
{
    if bytes.len() < 8 {
        return false;
    }
    let r = bytes[0] == 137 && bytes[1] == 80 && bytes[2] == 78 && bytes[3] == 71 && bytes[4] == 13
        && bytes[5] == 10 && bytes[6] == 26 && bytes[7] == 10;
    proof {
        let head = bytes@.subrange(0, 8);
        if r {
            assert(head =~= signature());
        } else {
            assert(head[0] == bytes[0] && head[1] == bytes[1] && head[2] == bytes[2] && head[3]
                == bytes[3] && head[4] == bytes[4] && head[5] == bytes[5] && head[6] == bytes[6]
                && head[7] == bytes[7]);
        }
    }
    r
}

fn has_type(chunk: &Chunk, text: &str) -> (r: bool)
    ensures
        r == (text_of(chunk@.chunk_type) == Some(text@)),
{
    let tag = chunk.chunk_type().bytes();
    let wanted = text.as_bytes();
    let r = wanted.len() == 4 && tag[0] == wanted[0] && tag[1] == wanted[1] && tag[2] == wanted[2]
        && tag[3] == wanted[3];
    proof {
        lemma_text_of_iff_encoding(chunk@.chunk_type, text@);
        assert(r == (tag@ =~= wanted@));
    }
    r
}

impl Png {
    /// The type of every chunk in a container has four bytes.
    pub proof fn lemma_wf(self)
        ensures
            forall|i: int| 0 <= i < self@.len() ==> (#[trigger] self@[i]).wf(),
    {
        assert forall|i: int| 0 <= i < self@.len() implies (#[trigger] self@[i]).wf() by {
            self.chunks@[i].lemma_wf();
        }
    }

    /// The container that holds `chunks`, in their order.
    pub fn from_chunks(chunks: Vec<Chunk>) -> (png: Png)
        ensures
            png@ == views(chunks@),
    {
        Png { chunks }
    }

    /// Parses a whole PNG file.
    pub fn parse(bytes: &[u8]) -> (r: Result<Png, Error>)
        ensures
            match r {
                Ok(png) => parse_png(bytes@) == Ok::<Seq<ChunkView>, Error>(png@),
                Err(e) => parse_png(bytes@) == Err::<Seq<ChunkView>, Error>(e),
            },
    {
        if !has_signature(bytes) {
            return Err(Error::Png(PngErr::BadSignature));
        }
        let len = bytes.len();
        let mut chunks: Vec<Chunk> = Vec::new();
        let mut pos: usize = 8;
        assert(views(chunks@) + Seq::<ChunkView>::empty() =~= Seq::<ChunkView>::empty());
        while pos < len
            invariant
                len == bytes@.len(),
                8 <= pos <= len,
                parse_png(bytes@) == prepend(
                    views(chunks@),
                    parse_chunks(bytes@.subrange(pos as int, len as int)),
                ),
            decreases len - pos,
        {
            if len - pos < 12 {
                return Err(Error::Chunk(ChunkErr::ChunksLengthLess));
            }
            let declared = read_be_u32(bytes, pos) as usize;
            proof {
                bytes@.lemma_slice_of_slice(pos as int, len as int, 0, 4);
            }
            if declared > len - pos - 12 {
                return Err(Error::Chunk(ChunkErr::ChunkLengthInvalid));
            }
            let next = pos + 12 + declared;
            proof {
                bytes@.lemma_slice_of_slice(pos as int, len as int, 0, 12 + declared);
                bytes@.lemma_slice_of_slice(pos as int, len as int, 12 + declared, len - pos);
            }
            match Chunk::parse(&bytes[pos..next]) {
                Ok(chunk) => {
                    proof {
                        lemma_prepend_push(
                            views(chunks@),
                            chunk@,
                            parse_chunks(bytes@.subrange(next as int, len as int)),
                        );
                        assert(views(chunks@.push(chunk)) =~= views(chunks@).push(chunk@));
                    }
                    chunks.push(chunk);
                },
                Err(e) => {
                    return Err(e);
                },
            }
            pos = next;
        }
        assert(views(chunks@) + Seq::<ChunkView>::empty() =~= views(chunks@));
        Ok(Png { chunks })
    }

    /// The signature.
    pub fn header(&self) -> (h: &[u8; 8])
        ensures
            h@ == signature(),
    {
        assert(SIGNATURE@ =~= signature());
        &SIGNATURE
    }

    /// The chunks, in order.
    pub fn chunks(&self) -> (chunks: &[Chunk])
        ensures
            views(chunks@) == self@,
    {
        self.chunks.as_slice()
    }

    fn position(&self, chunk_type: &str) -> (r: Option<usize>)
        ensures
            match r {
                Some(i) => first_of_type(self@, chunk_type@) == Some(i as int) && i < self.chunks@.len(),
                None => first_of_type(self@, chunk_type@) is None,
            },
    {
        let mut i: usize = 0;
        while i < self.chunks.len()
            invariant
                i <= self.chunks@.len(),
                forall|j: int| 0 <= j < i ==> text_of(#[trigger] self@[j].chunk_type) != Some(chunk_type@),
            decreases self.chunks@.len() - i,
        {
            assert(self@[i as int] == self.chunks@[i as int]@);
            if has_type(&self.chunks[i], chunk_type) {
                proof {
                    lemma_first_of_type(self@, chunk_type@);
                }
                return Some(i);
            }
            i += 1;
        }
        proof {
            lemma_first_of_type(self@, chunk_type@);
        }
        None
    }

    /// The first chunk whose type reads as `chunk_type`, if there is one.
    pub fn chunk_by_type(&self, chunk_type: &str) -> (r: Option<&Chunk>)
        ensures
            match first_of_type(self@, chunk_type@) {
                Some(i) => r matches Some(chunk) && chunk@ == self@[i],
                None => r is None,
            },
    {
        match self.position(chunk_type) {
            Some(i) => Some(&self.chunks[i]),
            None => None,
        }
    }

    /// Takes out the first chunk whose type reads as `chunk_type` and
    /// returns it. Where there is none, nothing changes.
    pub fn remove_chunk(&mut self, chunk_type: &str) -> (r: Result<Chunk, Error>)
        ensures
            match first_of_type(old(self)@, chunk_type@) {
                Some(i) => r matches Ok(chunk) && chunk@ == old(self)@[i] && final(self)@ == old(
                    self,
                )@.remove(i),
                None => r == Err::<Chunk, Error>(Error::Png(PngErr::ChunkNotFound)) && final(self)@
                    == old(self)@,
            },
    {
        match self.position(chunk_type) {
            Some(i) => {
                let chunk = self.chunks.remove(i);
                assert(views(self.chunks@) =~= views(old(self).chunks@).remove(i as int));
                Ok(chunk)
            },
            None => Err(Error::Png(PngErr::ChunkNotFound)),
        }
    }

    /// The serialized form: the signature, then every chunk in order.
    pub fn as_bytes(&self) -> (bytes: Vec<u8>)
        ensures
            bytes@ == png_bytes(self@),
    {
        let mut bytes: Vec<u8> = Vec::new();
        bytes.extend_from_slice(SIGNATURE.as_slice());
        assert(bytes@ =~= signature() + chunks_bytes(self@.take(0)));
        let mut i: usize = 0;
        while i < self.chunks.len()
            invariant
                i <= self.chunks@.len(),
                bytes@ == signature() + chunks_bytes(self@.take(i as int)),
            decreases self.chunks@.len() - i,
        {
            let part = self.chunks[i].as_bytes();
            let ghost before = bytes@;
            bytes.extend_from_slice(part.as_slice());
            proof {
                lemma_chunks_bytes_push(self@.take(i as int), self@[i as int]);
                assert(self@.take(i + 1) =~= self@.take(i as int).push(self@[i as int]));
                assert(bytes@ =~= before + part@);
            }
            i += 1;
        }
        assert(self@.take(i as int) =~= self@);
        bytes
    }

    /// A listing of the chunks, one line each, in order: the type, a space,
    /// the payload length in decimal. It fails on the first chunk whose
    /// type is no text.
    pub fn to_text(&self) -> (r: Result<String, Error>)
        ensures
            match r {
                Ok(s) => listing(self@) == Some(s@),
                Err(e) => listing(self@) is None && e is Utf8,
            },
    {
        let mut out = String::new();
        let mut i: usize = 0;
        assert(self@.take(0) =~= Seq::<ChunkView>::empty());
        while i < self.chunks.len()
            invariant
                i <= self.chunks@.len(),
                listing(self@.take(i as int)) == Some(out@),
            decreases self.chunks@.len() - i,
        {
            let chunk = &self.chunks[i];
            let ghost before = out@;
            proof {
                reveal_strlit(" ");
                reveal_strlit("\n");
                assert(self@.take(i + 1).drop_last() =~= self@.take(i as int));
                assert(self@.take(i + 1).last() == chunk@);
            }
            match chunk.chunk_type().to_text() {
                Ok(name) => {
                    out.append(name.as_str());
                    out.append(" ");
                    push_decimal(&mut out, chunk.length() as u64);
                    out.append("\n");
                    proof {
                        let line = chunk_line(chunk@)->Some_0;
                        assert(out@ =~= before + line);
                    }
                },
                Err(e) => {
                    proof {
                        lemma_listing_fails(self@, i as int);
                    }
                    return Err(e);
                },
            }
            i += 1;
        }
        assert(self@.take(i as int) =~= self@);
        Ok(out)
    }

    /// Puts `chunk` after the chunks already there.
    pub fn append_chunk(&mut self, chunk: Chunk)
        ensures
            final(self)@ == old(self)@.push(chunk@),
    {
        self.chunks.push(chunk);
        assert(views(self.chunks@) =~= views(old(self).chunks@).push(chunk@));
    }
}

impl<'a> TryFrom<&'a [u8]> for Png {
    type Error = Error;

    /// Parses a whole PNG file, as [`Png::parse`] does.
    fn try_from(bytes: &'a [u8]) -> (r: Result<Png, Error>)
        ensures
            match r {
                Ok(png) => parse_png(bytes@) == Ok::<Seq<ChunkView>, Error>(png@),
                Err(e) => parse_png(bytes@) == Err::<Seq<ChunkView>, Error>(e),
            },
    {
        Png::parse(bytes)
    }
}

/// The conversion is described by the `ensures` of `try_from` alone.
impl<'a> TryFromSpecImpl<&'a [u8]> for Png {
    open spec fn obeys_try_from_spec() -> bool {
        false
    }

    open spec fn try_from_spec(bytes: &'a [u8]) -> Result<Png, Error> {
        arbitrary()
    }
}

/// `first_of_type` finds the least index whose chunk has the type, and
/// finds none only where no chunk has it.
pub proof fn lemma_first_of_type(chunks: Seq<ChunkView>, text: Seq<char>)
    ensures
        match first_of_type(chunks, text) {
            Some(i) => 0 <= i < chunks.len() && text_of(chunks[i].chunk_type) == Some(text)
                && forall|j: int| 0 <= j < i ==> text_of(#[trigger] chunks[j].chunk_type) != Some(text),
            None => forall|j: int|
                0 <= j < chunks.len() ==> text_of(#[trigger] chunks[j].chunk_type) != Some(text),
        },
    decreases chunks.len(),
{
    if chunks.len() > 0 && text_of(chunks[0].chunk_type) != Some(text) {
        let rest = chunks.drop_first();
        lemma_first_of_type(rest, text);
        assert(forall|j: int| 0 < j < chunks.len() ==> chunks[j] == rest[j - 1]);
    }
}

/// The serialized form of chunks with one more at the end.
pub proof fn lemma_chunks_bytes_push(chunks: Seq<ChunkView>, chunk: ChunkView)
    ensures
        chunks_bytes(chunks.push(chunk)) == chunks_bytes(chunks) + chunk.as_bytes(),
    decreases chunks.len(),
{
    let all = chunks.push(chunk);
    assert(chunks_bytes(Seq::<ChunkView>::empty()) =~= Seq::<u8>::empty());
    if chunks.len() == 0 {
        assert(all.drop_first() =~= Seq::<ChunkView>::empty());
        assert(chunks_bytes(all) =~= chunk.as_bytes());
        assert(chunks_bytes(chunks) + chunk.as_bytes() =~= chunk.as_bytes());
    } else {
        lemma_chunks_bytes_push(chunks.drop_first(), chunk);
        assert(all.drop_first() =~= chunks.drop_first().push(chunk));
        assert(chunks_bytes(all) =~= chunks_bytes(chunks) + chunk.as_bytes());
    }
}

proof fn lemma_listing_fails(chunks: Seq<ChunkView>, i: int)
    requires
        0 <= i < chunks.len(),
        chunk_line(chunks[i]) is None,
    ensures
        listing(chunks) is None,
    decreases chunks.len(),
{
    if i < chunks.len() - 1 {
        lemma_listing_fails(chunks.drop_last(), i);
    }
}

/// How `parse_chunks` goes on where the bytes start with a whole chunk.
proof fn lemma_parse_chunks_step(bytes: Seq<u8>)
    requires
        parse_chunks(bytes) is Ok,
        bytes.len() > 0,
    ensures
        ({
            let size = 12 + be_u32(bytes.subrange(0, 4));
            let head = bytes.subrange(0, size);
            let tail = bytes.subrange(size, bytes.len() as int);
            &&& 12 <= size <= bytes.len()
            &&& parse_chunk(head) is Ok
            &&& parse_chunks(tail) is Ok
            &&& parse_chunks(bytes)->Ok_0 == seq![parse_chunk(head)->Ok_0] + parse_chunks(tail)->Ok_0
        }),
{
}

/// The serialized form of chunks with one more in front.
proof fn lemma_chunks_bytes_cons(first: ChunkView, rest: Seq<ChunkView>)
    ensures
        chunks_bytes(seq![first] + rest) == first.as_bytes() + chunks_bytes(rest),
{
    let all = seq![first] + rest;
    assert(all[0] == first);
    assert(all.drop_first() =~= rest);
}

proof fn lemma_chunks_bytes_of_parse(bytes: Seq<u8>)
    requires
        parse_chunks(bytes) is Ok,
    ensures
        chunks_bytes(parse_chunks(bytes)->Ok_0) == bytes,
    decreases bytes.len(),
{
    if bytes.len() == 0 {
        assert(parse_chunks(bytes)->Ok_0 =~= Seq::<ChunkView>::empty());
        assert(chunks_bytes(Seq::<ChunkView>::empty()) =~= bytes);
    } else {
        lemma_parse_chunks_step(bytes);
        let size = 12 + be_u32(bytes.subrange(0, 4));
        let head = bytes.subrange(0, size);
        let tail = bytes.subrange(size, bytes.len() as int);
        theorem_as_bytes_of_parse(head);
        lemma_chunks_bytes_of_parse(tail);
        lemma_chunks_bytes_cons(parse_chunk(head)->Ok_0, parse_chunks(tail)->Ok_0);
        bytes.lemma_split_at(size);
    }
}

proof fn lemma_parsed_chunks_fit(bytes: Seq<u8>)
    requires
        parse_chunks(bytes) is Ok,
    ensures
        all_fit(parse_chunks(bytes)->Ok_0),
    decreases bytes.len(),
{
    let chunks = parse_chunks(bytes)->Ok_0;
    if bytes.len() == 0 {
        assert(chunks =~= Seq::<ChunkView>::empty());
    } else {
        lemma_parse_chunks_step(bytes);
        let size = 12 + be_u32(bytes.subrange(0, 4));
        let head = bytes.subrange(0, size);
        let tail = bytes.subrange(size, bytes.len() as int);
        let rest = parse_chunks(tail)->Ok_0;
        theorem_as_bytes_of_parse(head);
        lemma_parsed_chunks_fit(tail);
        assert forall|i: int| 0 <= i < chunks.len() implies (#[trigger] chunks[i]).wf()
            && chunks[i].data.len() <= u32::MAX by {
            if i > 0 {
                assert(chunks[i] == rest[i - 1]);
            }
        }
    }
}

/// Putting a chunk after `before` and then the rest is putting the chunk in
/// front of the rest and `before` in front of that.
proof fn lemma_prepend_push(
    before: Seq<ChunkView>,
    chunk: ChunkView,
    rest: Result<Seq<ChunkView>, Error>,
)
    ensures
        prepend(before, prepend(seq![chunk], rest)) == prepend(before.push(chunk), rest),
{
    if let Ok(chunks) = rest {
        assert(before + (seq![chunk] + chunks) =~= before.push(chunk) + chunks);
    }
}

/// Where the serialized form of a chunk stands in front of other bytes, its
/// length field says where it ends.
proof fn lemma_frame_in_front(first: ChunkView, tail: Seq<u8>)
    requires
        first.wf(),
        first.data.len() <= u32::MAX,
    ensures
        ({
            let bytes = first.as_bytes() + tail;
            let size = 12 + be_u32(bytes.subrange(0, 4));
            &&& size == first.as_bytes().len()
            &&& bytes.subrange(0, size) == first.as_bytes()
            &&& bytes.subrange(size, bytes.len() as int) == tail
        }),
{
    let head = first.as_bytes();
    let bytes = head + tail;
    lemma_be_u32_of_u32_be(first.length());
    assert(head.len() == 12 + first.data.len());
    assert(bytes.subrange(0, 4) =~= u32_be(first.length()));
    assert(bytes.subrange(0, head.len() as int) =~= head);
    assert(bytes.subrange(head.len() as int, bytes.len() as int) =~= tail);
}

/// Parsing a run of chunks that starts with the serialized form of a chunk
/// yields that chunk, then what the rest yields.
proof fn lemma_parse_chunks_cons(first: ChunkView, tail: Seq<u8>)
    requires
        first.wf(),
        first.data.len() <= u32::MAX,
    ensures
        parse_chunks(first.as_bytes() + tail) == prepend(seq![first], parse_chunks(tail)),
{
    lemma_frame_in_front(first, tail);
    theorem_parse_of_as_bytes(first);
}

proof fn lemma_parse_of_chunks_bytes(chunks: Seq<ChunkView>)
    requires
        all_fit(chunks),
    ensures
        parse_chunks(chunks_bytes(chunks)) == Ok::<Seq<ChunkView>, Error>(chunks),
    decreases chunks.len(),
{
    if chunks.len() == 0 {
        assert(chunks =~= Seq::<ChunkView>::empty());
    } else {
        let first = chunks[0];
        let rest = chunks.drop_first();
        assert(all_fit(rest)) by {
            assert forall|i: int| 0 <= i < rest.len() implies (#[trigger] rest[i]).wf()
                && rest[i].data.len() <= u32::MAX by {
                assert(rest[i] == chunks[i + 1]);
            }
        }
        lemma_parse_chunks_cons(first, chunks_bytes(rest));
        lemma_parse_of_chunks_bytes(rest);
        assert(seq![first] + rest =~= chunks);
    }
}

/// Serializing what a PNG file parses to gives the file back, byte for byte.
pub proof fn theorem_png_bytes_of_parse(bytes: Seq<u8>)
    requires
        parse_png(bytes) is Ok,
    ensures
        png_bytes(parse_png(bytes)->Ok_0) == bytes,
        all_fit(parse_png(bytes)->Ok_0),
{
    let head = bytes.subrange(0, 8);
    let body = bytes.subrange(8, bytes.len() as int);
    assert(head == signature() && parse_png(bytes) == parse_chunks(body));
    lemma_chunks_bytes_of_parse(body);
    lemma_parsed_chunks_fit(body);
    assert(head + body =~= bytes);
}

/// Parsing the serialized form of a container gives its chunks back, where
/// each of them fits the format.
pub proof fn theorem_parse_of_png_bytes(chunks: Seq<ChunkView>)
    requires
        all_fit(chunks),
    ensures
        parse_png(png_bytes(chunks)) == Ok::<Seq<ChunkView>, Error>(chunks),
{
    let bytes = png_bytes(chunks);
    lemma_parse_of_chunks_bytes(chunks);
    assert(bytes.subrange(0, 8) =~= signature());
    assert(bytes.subrange(8, bytes.len() as int) =~= chunks_bytes(chunks));
}

/// A type that no chunk has is not found.
pub proof fn theorem_absent_type_not_found(chunks: Seq<ChunkView>, text: Seq<char>)
    requires
        forall|i: int| 0 <= i < chunks.len() ==> text_of(#[trigger] chunks[i].chunk_type) != Some(text),
    ensures
        first_of_type(chunks, text) is None,
{
    lemma_first_of_type(chunks, text);
}

/// A chunk appended to a container that had none of its type is the one
/// found under that type, and removing it leaves the container as it was.
pub proof fn theorem_appended_is_found(chunks: Seq<ChunkView>, chunk: ChunkView, text: Seq<char>)
    requires
        first_of_type(chunks, text) is None,
        text_of(chunk.chunk_type) == Some(text),
    ensures
        first_of_type(chunks.push(chunk), text) == Some(chunks.len() as int),
        chunks.push(chunk)[chunks.len() as int] == chunk,
        chunks.push(chunk).remove(chunks.len() as int) == chunks,
{
    let all = chunks.push(chunk);
    lemma_first_of_type(chunks, text);
    lemma_first_of_type(all, text);
    assert(forall|j: int| 0 <= j < chunks.len() ==> all[j] == chunks[j]);
    assert(all[chunks.len() as int] == chunk);
    assert(all.remove(chunks.len() as int) =~= chunks);
}

/// Appending a chunk to a container appends the bytes of the chunk to the
/// file and leaves every byte before them as it was.
pub proof fn theorem_append_extends_bytes(chunks: Seq<ChunkView>, chunk: ChunkView)
    ensures
        png_bytes(chunks.push(chunk)) == png_bytes(chunks) + chunk.as_bytes(),
{
    lemma_chunks_bytes_push(chunks, chunk);
    assert(png_bytes(chunks.push(chunk)) =~= png_bytes(chunks) + chunk.as_bytes());
}

} // verus!
