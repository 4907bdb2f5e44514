//! One chunk: a length, a type, a payload and a checksum over type and payload.

use crate::checksum::{checksum, crc32};
use crate::chunk_type::ChunkType;
use crate::error::Error;
use crate::text::{decode, text_of};
use crate::wire::{
    be_u32, lemma_be_u32_of_u32_be, lemma_u32_be_of_be_u32, push_be_u32, read_be_u32, u32_be,
};
use vstd::prelude::*;
use vstd::slice::slice_to_vec;
use vstd::std_specs::convert::TryFromSpecImpl;

verus! {

/// Why bytes were refused as a chunk.
#[derive(Debug, Clone, Copy, PartialEq, Eq, Structural)]
pub enum ChunkErr {
    /// There are fewer than twelve bytes.
    ChunksLengthLess,
    /// The stored checksum is not that of type and payload.
    ChunkCRCInvalid,
    /// The stored length is not the number of payload bytes present.
    ChunkLengthInvalid,
}

impl ChunkErr {
    /// The text of the message.
    pub open spec fn message_text(self) -> Seq<char> {
        match self {
            ChunkErr::ChunksLengthLess => "Size of chunks must be atleat 12"@,
            ChunkErr::ChunkCRCInvalid => "Crc in chunk does not match actual crc"@,
            ChunkErr::ChunkLengthInvalid => "Length in chunk does not match actual length"@,
        }
    }

    /// A message that says what is wrong.
    pub fn message(&self) -> (s: String)
        ensures
            s@ == self.message_text(),
    {
        match self {
            ChunkErr::ChunksLengthLess => "Size of chunks must be atleat 12".to_owned(),
            ChunkErr::ChunkCRCInvalid => "Crc in chunk does not match actual crc".to_owned(),
            ChunkErr::ChunkLengthInvalid => "Length in chunk does not match actual length".to_owned(),
        }
    }
}

/// A chunk as a mathematical value: its type and its payload. The checksum
/// and the length are functions of the two.
pub struct ChunkView {
    pub chunk_type: Seq<u8>,
    pub data: Seq<u8>,
}

impl ChunkView {
    /// The type has four bytes.
    pub open spec fn wf(self) -> bool {
        self.chunk_type.len() == 4
    }

    /// The payload length as the length field holds it.
    pub open spec fn length(self) -> u32 {
        self.data.len() as u32
    }

    /// The checksum over type and payload.
    pub open spec fn crc(self) -> u32 {
        crc32(self.chunk_type + self.data)
    }

    /// The serialized form: length, type, payload, checksum.
    pub open spec fn as_bytes(self) -> Seq<u8> {
        u32_be(self.length()) + self.chunk_type + self.data + u32_be(self.crc())
    }
}

/// What `bytes` hold as one chunk, where `crc` is the checksum that the
/// type and payload in them should have: at least twelve bytes, a length
/// field that counts the payload bytes present, and `crc` in the last four.
pub open spec fn read_frame(bytes: Seq<u8>, crc: u32) -> Result<ChunkView, Error> {
    let end = bytes.len() - 4;
    if bytes.len() < 12 {
        Err(Error::Chunk(ChunkErr::ChunksLengthLess))
    } else if be_u32(bytes.subrange(0, 4)) != bytes.len() - 12 {
        Err(Error::Chunk(ChunkErr::ChunkLengthInvalid))
    } else if be_u32(bytes.subrange(end, end + 4)) != crc {
        Err(Error::Chunk(ChunkErr::ChunkCRCInvalid))
    } else {
        Ok(ChunkView { chunk_type: bytes.subrange(4, 8), data: bytes.subrange(8, end) })
    }
}

/// What parsing `bytes` as one chunk yields: what they hold under the
/// checksum of all that stands between the length field and the last four
/// bytes.
pub open spec fn parse_chunk(bytes: Seq<u8>) -> Result<ChunkView, Error> {
    read_frame(bytes, crc32(bytes.subrange(4, bytes.len() - 4)))
}

/// A chunk. Its checksum is at all times that of its type and payload.
#[derive(Debug)]
pub struct Chunk {
    chunk_type: ChunkType,
    data: Vec<u8>,
    crc: u32,
}

impl View for Chunk {
    type V = ChunkView;

    closed spec fn view(&self) -> ChunkView {
        ChunkView { chunk_type: self.chunk_type@, data: self.data@ }
    }
}

impl Chunk {
    #[verifier::type_invariant]
    spec fn checksum_holds(self) -> bool {
        self.crc == crc32(self.chunk_type@ + self.data@)
    }

    /// The type of a chunk has four bytes.
    pub proof fn lemma_wf(self)
        ensures
            self@.wf(),
    {
        self.chunk_type.lemma_len();
    }

    /// The chunk of the given type and payload.
    pub fn new(chunk_type: ChunkType, data: Vec<u8>) -> (chunk: Chunk)
        ensures
            chunk@ == (ChunkView { chunk_type: chunk_type@, data: data@ }),
    {
        let tag = chunk_type.bytes();
        let mut covered: Vec<u8> = Vec::new();
        covered.extend_from_slice(tag.as_slice());
        covered.extend_from_slice(data.as_slice());
        assert(covered@ =~= chunk_type@ + data@);
        let crc = checksum(covered.as_slice());
        Chunk { chunk_type, data, crc }
    }

    /// Takes the bytes of one chunk apart, where `crc` is the checksum that
    /// the type and payload in them should have: checks the size, the length
    /// field and the stored checksum, in this order, and hands out the type
    /// and the payload.
    pub fn read_frame(bytes: &[u8], crc: u32) -> (r: Result<(ChunkType, Vec<u8>), Error>)
        ensures
            match r {
                Ok((chunk_type, data)) => read_frame(bytes@, crc) == Ok::<ChunkView, Error>(
                    ChunkView { chunk_type: chunk_type@, data: data@ },
                ),
                Err(e) => read_frame(bytes@, crc) == Err::<ChunkView, Error>(e),
            },
    {
        if bytes.len() < 12 {
            return Err(Error::Chunk(ChunkErr::ChunksLengthLess));
        }
        let declared = read_be_u32(bytes, 0);
        if declared as usize != bytes.len() - 12 {
            return Err(Error::Chunk(ChunkErr::ChunkLengthInvalid));
        }
        let end = bytes.len() - 4;
        let stored = read_be_u32(bytes, end);
        if stored != crc {
            return Err(Error::Chunk(ChunkErr::ChunkCRCInvalid));
        }
        let chunk_type = ChunkType::from_bytes([bytes[4], bytes[5], bytes[6], bytes[7]]);
        let data = slice_to_vec(&bytes[8..end]);
        assert(chunk_type@ =~= bytes@.subrange(4, 8));
        Ok((chunk_type, data))
    }

    /// Parses one chunk out of exactly `bytes`.
    pub fn parse(bytes: &[u8]) -> (r: Result<Chunk, Error>)
        ensures
            match r {
                Ok(chunk) => parse_chunk(bytes@) == Ok::<ChunkView, Error>(chunk@),
                Err(e) => parse_chunk(bytes@) == Err::<ChunkView, Error>(e),
            },
    {
        if bytes.len() < 12 {
            return Err(Error::Chunk(ChunkErr::ChunksLengthLess));
        }
        let end = bytes.len() - 4;
        let crc = checksum(&bytes[4..end]);
        match Chunk::read_frame(bytes, crc) {
            Ok((chunk_type, data)) => {
                assert(chunk_type@ + data@ =~= bytes@.subrange(4, end as int));
                Ok(Chunk { chunk_type, data, crc })
            },
            Err(e) => Err(e),
        }
    }

    /// The payload length, as the length field of the serialized form holds
    /// it: the number of payload bytes, reduced to 32 bits.
    pub fn length(&self) -> (n: u32)
        ensures
            n == self@.length(),
    {
        #[verifier::truncate]
        (self.data.len() as u32)
    }

    /// The type of the chunk.
    pub fn chunk_type(&self) -> (t: &ChunkType)
        ensures
            t@ == self@.chunk_type,
    {
        &self.chunk_type
    }

    /// The payload.
    pub fn data(&self) -> (d: &[u8])
        ensures
            d@ == self@.data,
    {
        self.data.as_slice()
    }

    /// The checksum over type and payload.
    pub fn crc(&self) -> (crc: u32)
        ensures
            crc == self@.crc(),
    {
        proof {
            use_type_invariant(self);
        }
        self.crc
    }

    /// The payload as text, if it is UTF-8.
    pub fn data_as_string(&self) -> (r: Result<String, Error>)
        ensures
            match r {
                Ok(s) => text_of(self@.data) == Some(s@),
                Err(e) => text_of(self@.data) is None && e is Utf8,
            },
    {
        decode(self.data.as_slice())
    }

    /// The serialized form: length, type, payload and checksum.
    pub fn as_bytes(&self) -> (bytes: Vec<u8>)
        ensures
            bytes@ == self@.as_bytes(),
    {
        proof {
            use_type_invariant(self);
        }
        let tag = self.chunk_type.bytes();
        let mut bytes: Vec<u8> = Vec::new();
        push_be_u32(&mut bytes, self.length());
        bytes.extend_from_slice(tag.as_slice());
        bytes.extend_from_slice(self.data.as_slice());
        assert(bytes@ =~= u32_be(self@.length()) + self@.chunk_type + self@.data);
        push_be_u32(&mut bytes, self.crc);
        bytes
    }
}

impl<'a> TryFrom<&'a [u8]> for Chunk {
    type Error = Error;

    /// Parses one chunk out of exactly `bytes`, as [`Chunk::parse`] does.
    fn try_from(bytes: &'a [u8]) -> (r: Result<Chunk, Error>)
        ensures
            match r {
                Ok(chunk) => parse_chunk(bytes@) == Ok::<ChunkView, Error>(chunk@),
                Err(e) => parse_chunk(bytes@) == Err::<ChunkView, Error>(e),
            },
    {
        Chunk::parse(bytes)
    }
}

/// The conversion is described by the `ensures` of `try_from` alone.
impl<'a> TryFromSpecImpl<&'a [u8]> for Chunk {
    open spec fn obeys_try_from_spec() -> bool {
        false
    }

    open spec fn try_from_spec(bytes: &'a [u8]) -> Result<Chunk, Error> {
        arbitrary()
    }
}

/// Parsing the serialized form of a chunk yields the chunk: same type, same
/// payload, and so the same checksum. The payload must be short enough for
/// the length field to hold its length.
pub proof fn theorem_parse_of_as_bytes(c: ChunkView)
    requires
        c.wf(),
        c.data.len() <= u32::MAX,
    ensures
        parse_chunk(c.as_bytes()) == Ok::<ChunkView, Error>(c),
{
    let bytes = c.as_bytes();
    let end = bytes.len() - 4;
    lemma_be_u32_of_u32_be(c.length());
    lemma_be_u32_of_u32_be(c.crc());
    assert(bytes.subrange(0, 4) =~= u32_be(c.length()));
    assert(bytes.subrange(end, end + 4) =~= u32_be(c.crc()));
    assert(bytes.subrange(4, end) =~= c.chunk_type + c.data);
    assert(bytes.subrange(4, 8) =~= c.chunk_type);
    assert(bytes.subrange(8, end) =~= c.data);
}

/// Bytes that parse as a chunk are the serialized form of that chunk, so no
/// two byte strings parse to the same chunk.
pub proof fn theorem_as_bytes_of_parse(bytes: Seq<u8>)
    requires
        parse_chunk(bytes) is Ok,
    ensures
        parse_chunk(bytes)->Ok_0.wf(),
        parse_chunk(bytes)->Ok_0.data.len() <= u32::MAX,
        parse_chunk(bytes)->Ok_0.as_bytes() == bytes,
{
    let c = parse_chunk(bytes)->Ok_0;
    let end = bytes.len() - 4;
    lemma_u32_be_of_be_u32(bytes.subrange(0, 4));
    lemma_u32_be_of_be_u32(bytes.subrange(end, end + 4));
    assert(c.chunk_type + c.data =~= bytes.subrange(4, end));
    assert(c.as_bytes() =~= bytes);
}

/// Changing any one byte of the checksum field of a serialized chunk makes
/// parsing fail with a checksum error.
pub proof fn theorem_corrupt_crc_detected(c: ChunkView, i: int, b: u8)
    requires
        c.wf(),
        c.data.len() <= u32::MAX,
        0 <= i < 4,
        b != c.as_bytes()[c.as_bytes().len() - 4 + i],
    ensures
        parse_chunk(c.as_bytes().update(c.as_bytes().len() - 4 + i, b)) == Err::<ChunkView, Error>(
            Error::Chunk(ChunkErr::ChunkCRCInvalid),
        ),
{
    let good = c.as_bytes();
    let end = good.len() - 4;
    let bad = good.update(end + i, b);
    theorem_parse_of_as_bytes(c);
    assert(bad.subrange(0, 4) =~= good.subrange(0, 4));
    assert(bad.subrange(4, end) =~= good.subrange(4, end));
    let stored = bad.subrange(end, end + 4);
    assert(stored[i] == b);
    assert(good.subrange(end, end + 4)[i] == good[end + i]);
    if be_u32(stored) == be_u32(good.subrange(end, end + 4)) {
        lemma_u32_be_of_be_u32(stored);
        lemma_u32_be_of_be_u32(good.subrange(end, end + 4));
    }
}

/// A length field that holds anything but the number of payload bytes makes
/// parsing fail with a length error.
pub proof fn theorem_wrong_length_detected(c: ChunkView, n: u32)
    requires
        c.wf(),
        n != c.data.len(),
    ensures
        parse_chunk(u32_be(n) + c.chunk_type + c.data + u32_be(c.crc())) == Err::<ChunkView, Error>(
            Error::Chunk(ChunkErr::ChunkLengthInvalid),
        ),
{
    let bytes = u32_be(n) + c.chunk_type + c.data + u32_be(c.crc());
    lemma_be_u32_of_u32_be(n);
    assert(bytes.subrange(0, 4) =~= u32_be(n));
}

/// Fewer than twelve bytes never parse: the input is reported as too short.
pub proof fn theorem_truncated_detected(bytes: Seq<u8>)
    requires
        bytes.len() < 12,
    ensures
        parse_chunk(bytes) == Err::<ChunkView, Error>(Error::Chunk(ChunkErr::ChunksLengthLess)),
{
}

} // verus!
