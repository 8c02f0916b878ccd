//! Chunks: a type code and a payload, framed by a length and a checksum.

use crate::chunk_type::{all_letters, parse_type_code, type_code_error, ChunkType, ChunkTypeError};
use crate::utils::{
    append_bytes, be_bytes, be_u32, lemma_be_bytes_round_trip, lemma_be_value_round_trip, read_u32,
    string_from_utf8, u32_to_be,
};
use vstd::prelude::*;
use vstd::string::StringSliceAdditionalSpecFns;
use vstd::utf8::{decode_utf8, valid_utf8};

verus! {

/// The CRC-32 (IEEE 802.3 polynomial, as in zlib) of the bytes `b`.
pub uninterp spec fn crc32_ieee(b: Seq<u8>) -> u32;

/// Relies on `crc::crc32::checksum_ieee`: it computes the standard CRC-32
/// (IEEE) of the given bytes, a value that depends on those bytes alone.
#[verifier::external_body]
fn checksum_ieee(bytes: &[u8]) -> (r: u32)
    ensures
        r == crc32_ieee(bytes@),
{
    ::crc::crc32::checksum_ieee(bytes)
}

/// What a chunk holds, as plain values.
pub struct ChunkModel {
    /// The length field.
    pub length: u32,
    /// The four bytes of the type code.
    pub kind: Seq<u8>,
    /// The payload.
    pub data: Seq<u8>,
    /// The checksum field.
    pub crc: u32,
}

impl ChunkModel {
    /// The length matches the payload, the type code is four letters and the
    /// checksum is the CRC of type code and payload.
    pub open spec fn wf(self) -> bool {
        &&& self.length == self.data.len()
        &&& self.kind.len() == 4
        &&& all_letters(self.kind)
        &&& self.crc == crc32_ieee(self.kind + self.data)
    }

    /// The bytes of the chunk on the wire: `length ‖ type ‖ data ‖ crc`, the
    /// two numbers big-endian.
    pub open spec fn wire(self) -> Seq<u8> {
        be_bytes(self.length) + self.kind + self.data + be_bytes(self.crc)
    }
}

/// The chunk with type code `kind` and payload `data`, with its length and
/// checksum computed.
pub open spec fn chunk_model(kind: Seq<u8>, data: Seq<u8>) -> ChunkModel {
    ChunkModel { length: data.len() as u32, kind, data, crc: crc32_ieee(kind + data) }
}

/// Why bytes could not be read as a chunk.
#[derive(Debug, Clone, Copy, PartialEq, Eq)]
pub enum ChunkError {
    /// Fewer than eight bytes: not even a length and a type.
    TooShort,
    /// The type code is not four letters.
    BadType(ChunkTypeError),
    /// Fewer bytes than the length field asks for, with the checksum.
    Truncated,
    /// The stored checksum (`expected`) differs from the one computed over the
    /// type code and payload (`actual`).
    CrcMismatch { expected: u32, actual: u32 },
}

/// The chunk that the bytes `b` start with, or the error that reading it
/// reports. Bytes after the checksum are ignored.
pub open spec fn parse_chunk(b: Seq<u8>) -> Result<ChunkModel, ChunkError> {
    if b.len() < 8 {
        Err(ChunkError::TooShort)
    } else {
        let length = be_u32(b.subrange(0, 4));
        let kind = b.subrange(4, 8);
        match type_code_error(kind) {
            Some(e) => Err(ChunkError::BadType(e)),
            None => if b.len() < 12 + length {
                Err(ChunkError::Truncated)
            } else {
                let data = b.subrange(8, 8 + length);
                let stored = be_u32(b.subrange(8 + length, 12 + length));
                let computed = crc32_ieee(kind + data);
                if stored != computed {
                    Err(ChunkError::CrcMismatch { expected: stored, actual: computed })
                } else {
                    Ok(ChunkModel { length, kind, data, crc: stored })
                }
            },
        }
    }
}

/// The payload of a chunk is not valid UTF-8.
#[derive(Debug, Clone, Copy, PartialEq, Eq)]
pub struct EncodingError;

/// A chunk of a PNG stream.
#[derive(Debug, Clone)]
pub struct Chunk {
    length: u32,
    chunk_type: ChunkType,
    data: Vec<u8>,
    crc: u32,
}

impl View for Chunk {
    type V = ChunkModel;

    closed spec fn view(&self) -> ChunkModel {
        ChunkModel {
            length: self.length,
            kind: self.chunk_type.bytes@,
            data: self.data@,
            crc: self.crc,
        }
    }
}

impl Chunk {
    /// A chunk of the given type holding `data`; its length and checksum are
    /// computed.
    pub fn new(chunk_type: ChunkType, data: Vec<u8>) -> (r: Chunk)
        requires
            data@.len() <= u32::MAX,
        ensures
            r@ == chunk_model(chunk_type.bytes@, data@),
    {
        let crc = Chunk::calculate_crc(&chunk_type, data.as_slice());
        Chunk { length: data.len() as u32, chunk_type, data, crc }
    }

    /// A chunk whose type code is parsed from `chunk_type` and whose payload
    /// is the UTF-8 bytes of `data`.
    pub fn from_strings(chunk_type: &str, data: &str) -> (r: Result<Chunk, ChunkTypeError>)
        requires
            data.spec_bytes().len() <= u32::MAX,
        ensures
            match parse_type_code(chunk_type) {
                Ok(kind) => r matches Ok(c) && c@ == chunk_model(kind, data.spec_bytes()),
                Err(e) => r == Err::<Chunk, ChunkTypeError>(e),
            },
    {
        let chunk_type = ChunkType::from_str(chunk_type)?;
        let mut bytes: Vec<u8> = Vec::new();
        append_bytes(&mut bytes, data.as_bytes());
        Ok(Chunk::new(chunk_type, bytes))
    }

    /// The length field.
    pub fn length(&self) -> (r: u32)
        ensures
            r == self@.length,
    {
        self.length
    }

    /// The type code.
    pub fn chunk_type(&self) -> (r: &ChunkType)
        ensures
            r.bytes@ == self@.kind,
    {
        &self.chunk_type
    }

    /// The payload.
    pub fn data(&self) -> (r: &[u8])
        ensures
            r@ == self@.data,
    {
        self.data.as_slice()
    }

    /// The checksum field.
    pub fn crc(&self) -> (r: u32)
        ensures
            r == self@.crc,
    {
        self.crc
    }

    /// Whether the checksum field is the CRC of the type code and payload.
    pub fn is_crc_valid(&self) -> (r: bool)
        ensures
            r == (self@.crc == crc32_ieee(self@.kind + self@.data)),
    {
        self.crc == Chunk::calculate_crc(&self.chunk_type, self.data.as_slice())
    }

    /// The payload as text, if it is valid UTF-8.
    pub fn data_as_string(&self) -> (r: Result<String, EncodingError>)
        ensures
            r is Ok <==> valid_utf8(self@.data),
            r matches Ok(s) ==> s@ == decode_utf8(self@.data),
    {
        match string_from_utf8(self.data.clone()) {
            Some(s) => Ok(s),
            None => Err(EncodingError),
        }
    }

    /// The chunk as it stands on the wire.
    pub fn as_bytes(&self) -> (r: Vec<u8>)
        ensures
            r@ == self@.wire(),
    {
        let mut out: Vec<u8> = Vec::new();
        let length = u32_to_be(self.length);
        append_bytes(&mut out, length.as_slice());
        append_bytes(&mut out, self.chunk_type.bytes.as_slice());
        append_bytes(&mut out, self.data.as_slice());
        let crc = u32_to_be(self.crc);
        append_bytes(&mut out, crc.as_slice());
        out
    }

    /// The CRC of the type code followed by `data`.
    pub fn calculate_crc(chunk_type: &ChunkType, data: &[u8]) -> (r: u32)
        ensures
            r == crc32_ieee(chunk_type.bytes@ + data@),
    {
        let mut crc_data: Vec<u8> = Vec::new();
        append_bytes(&mut crc_data, chunk_type.bytes.as_slice());
        append_bytes(&mut crc_data, data);
        checksum_ieee(crc_data.as_slice())
    }

    /// Reads the chunk that `bytes` start with, checking its type code and
    /// its checksum.
    pub fn try_from(bytes: &[u8]) -> (r: Result<Chunk, ChunkError>)
        ensures
            match r {
                Ok(c) => parse_chunk(bytes@) == Ok::<ChunkModel, ChunkError>(c@),
                Err(e) => parse_chunk(bytes@) == Err::<ChunkModel, ChunkError>(e),
            },
    {
        if bytes.len() < 8 {
            return Err(ChunkError::TooShort);
        }
        let length = read_u32(bytes, 0);
        let kind: [u8; 4] = [bytes[4], bytes[5], bytes[6], bytes[7]];
        assert(kind@ =~= bytes@.subrange(4, 8));
        let chunk_type = match ChunkType::try_from(kind) {
            Ok(t) => t,
            Err(e) => return Err(ChunkError::BadType(e)),
        };
        let len = length as usize;
        let rest = bytes.len() - 8;
        if len > rest || rest - len < 4 {
            return Err(ChunkError::Truncated);
        }
        let data = vstd::slice::slice_to_vec(vstd::slice::slice_subrange(bytes, 8, 8 + len));
        let crc = read_u32(bytes, 8 + len);
        let computed = Chunk::calculate_crc(&chunk_type, data.as_slice());
        if crc != computed {
            return Err(ChunkError::CrcMismatch { expected: crc, actual: computed });
        }
        Ok(Chunk { length, chunk_type, data, crc })
    }

    /// Reads a chunk whose length field, `data_length`, has already been
    /// taken off: `bytes` start with the type code.
    pub fn from_bytes(data_length: u32, bytes: &[u8]) -> (r: Result<Chunk, ChunkError>)
        ensures
            match r {
                Ok(c) => parse_chunk(be_bytes(data_length) + bytes@) == Ok::<
                    ChunkModel,
                    ChunkError,
                >(c@),
                Err(e) => parse_chunk(be_bytes(data_length) + bytes@) == Err::<
                    ChunkModel,
                    ChunkError,
                >(e),
            },
    {
        let mut whole: Vec<u8> = Vec::new();
        let length = u32_to_be(data_length);
        append_bytes(&mut whole, length.as_slice());
        append_bytes(&mut whole, bytes);
        Chunk::try_from(whole.as_slice())
    }
}

/// A well-formed chunk is read back from its wire bytes, whatever follows them.
pub proof fn lemma_parse_wire(m: ChunkModel, rest: Seq<u8>)
    requires
        m.wf(),
    ensures
        parse_chunk(m.wire() + rest) == Ok::<ChunkModel, ChunkError>(m),
{
    let b = m.wire() + rest;
    let len = m.length as int;
    lemma_be_value_round_trip(m.length);
    lemma_be_value_round_trip(m.crc);
    assert(b.subrange(0, 4) =~= be_bytes(m.length));
    assert(b.subrange(4, 8) =~= m.kind);
    assert(b.subrange(8, 8 + len) =~= m.data);
    assert(b.subrange(8 + len, 12 + len) =~= be_bytes(m.crc));
}

/// The chunk built from a type code and a payload is read back from its own
/// wire bytes.
pub proof fn lemma_chunk_round_trip(kind: Seq<u8>, data: Seq<u8>)
    requires
        kind.len() == 4,
        all_letters(kind),
        data.len() <= u32::MAX,
    ensures
        parse_chunk(chunk_model(kind, data).wire()) == Ok::<ChunkModel, ChunkError>(
            chunk_model(kind, data),
        ),
{
    let m = chunk_model(kind, data);
    lemma_parse_wire(m, Seq::empty());
    assert(m.wire() + Seq::<u8>::empty() =~= m.wire());
}

/// A chunk read from bytes is well formed, and its wire bytes are the bytes
/// it was read from.
pub proof fn lemma_parsed_chunk(b: Seq<u8>)
    requires
        parse_chunk(b) is Ok,
    ensures
        parse_chunk(b)->Ok_0.wf(),
        parse_chunk(b)->Ok_0.wire() =~= b.subrange(0, parse_chunk(b)->Ok_0.wire().len() as int),
{
    let m = parse_chunk(b)->Ok_0;
    let len = m.length as int;
    lemma_be_bytes_round_trip(b.subrange(0, 4));
    lemma_be_bytes_round_trip(b.subrange(8 + len, 12 + len));
    assert(m.wire() =~= b.subrange(0, 12 + len));
}

/// `s` with bit `bit` of byte `i` inverted.
pub open spec fn flip_bit(s: Seq<u8>, i: int, bit: u8) -> Seq<u8> {
    s.update(i, s[i] ^ (1u8 << bit))
}

proof fn lemma_flip_changes(x: u8, bit: u8)
    requires
        bit < 8,
    ensures
        x ^ (1u8 << bit) != x,
{
    assert(bit < 8 ==> x ^ (1u8 << bit) != x) by (bit_vector);
}

/// Inverting one bit of the checksum field of a chunk's wire bytes makes
/// reading them fail with a checksum mismatch.
pub proof fn lemma_crc_field_flip(m: ChunkModel, i: int, bit: u8)
    requires
        m.wf(),
        8 + m.length <= i < 12 + m.length,
        bit < 8,
    ensures
        parse_chunk(flip_bit(m.wire(), i, bit)) matches Err(ChunkError::CrcMismatch { expected, actual })
            && actual == m.crc && expected != m.crc,
{
    let w = m.wire();
    let f = flip_bit(w, i, bit);
    let len = m.length as int;
    lemma_be_value_round_trip(m.length);
    lemma_flip_changes(w[i], bit);
    assert(f.subrange(0, 4) =~= be_bytes(m.length));
    assert(f.subrange(4, 8) =~= m.kind);
    assert(f.subrange(8, 8 + len) =~= m.data);
    let field = f.subrange(8 + len, 12 + len);
    lemma_be_bytes_round_trip(field);
    if be_u32(field) == m.crc {
        assert(field[i - 8 - len] != be_bytes(m.crc)[i - 8 - len]);
    }
}

/// Inverting one bit of the type code or payload of a chunk's wire bytes
/// changes the bytes that the checksum covers. The result is read back as a
/// chunk only when the CRC of the changed bytes equals the stored checksum;
/// while the type code is still four letters and the CRC differs, reading
/// fails with a checksum mismatch.
pub proof fn lemma_body_flip(m: ChunkModel, i: int, bit: u8)
    requires
        m.wf(),
        4 <= i < 8 + m.length,
        bit < 8,
    ensures
        ({
            let f = flip_bit(m.wire(), i, bit);
            let covered = f.subrange(4, 8) + f.subrange(8, 8 + m.length);
            &&& covered != m.kind + m.data
            &&& parse_chunk(f) is Ok ==> crc32_ieee(covered) == m.crc
            &&& all_letters(f.subrange(4, 8)) && crc32_ieee(covered) != m.crc ==> parse_chunk(f)
                == Err::<ChunkModel, ChunkError>(
                ChunkError::CrcMismatch { expected: m.crc, actual: crc32_ieee(covered) },
            )
        }),
{
    let w = m.wire();
    let f = flip_bit(w, i, bit);
    let len = m.length as int;
    lemma_be_value_round_trip(m.length);
    lemma_be_value_round_trip(m.crc);
    lemma_flip_changes(w[i], bit);
    assert(f.subrange(0, 4) =~= be_bytes(m.length));
    assert(f.subrange(8 + len, 12 + len) =~= be_bytes(m.crc));
    let covered = f.subrange(4, 8) + f.subrange(8, 8 + len);
    assert(covered[i - 4] != (m.kind + m.data)[i - 4]);
}

} // verus!
