//! A PNG stream: the signature followed by an ordered list of chunks.

use crate::chunk::{lemma_parse_wire, lemma_parsed_chunk, parse_chunk, Chunk, ChunkError, ChunkModel};
use crate::chunk_type::{parse_type_code, ChunkType, ChunkTypeError};
use crate::utils::{append_bytes, be_bytes, be_u32, lemma_be_value_round_trip, read_u32};
use vstd::prelude::*;

verus! {

/// The eight bytes that open every PNG stream.
pub open spec fn png_signature() -> Seq<u8> {
    seq![137u8, 80u8, 78u8, 71u8, 13u8, 10u8, 26u8, 10u8]
}

/// What a stream holds, as plain values.
pub struct PngModel {
    /// The eight bytes of the signature.
    pub header: Seq<u8>,
    /// The chunks, in stream order.
    pub chunks: Seq<ChunkModel>,
}

/// The models of the chunks `cs`, in order.
pub open spec fn models(cs: Seq<Chunk>) -> Seq<ChunkModel> {
    cs.map_values(|c: Chunk| c@)
}

/// Every chunk of `cs` is well formed.
pub open spec fn all_wf(cs: Seq<ChunkModel>) -> bool {
    forall|i: int| 0 <= i < cs.len() ==> (#[trigger] cs[i]).wf()
}

/// The wire bytes of the chunks `cs`, one after the other.
pub open spec fn chunks_wire(cs: Seq<ChunkModel>) -> Seq<u8>
    decreases cs.len(),
{
    if cs.len() == 0 {
        Seq::empty()
    } else {
        chunks_wire(cs.drop_last()) + cs.last().wire()
    }
}

/// The wire bytes of a stream: its header, then its chunks.
pub open spec fn png_wire(p: PngModel) -> Seq<u8> {
    p.header + chunks_wire(p.chunks)
}

/// The chunks that the bytes `b` hold one after the other, or the first error
/// met reading them. Reading stops when fewer than four bytes are left.
pub open spec fn parse_chunks(b: Seq<u8>) -> Result<Seq<ChunkModel>, ChunkError>
    decreases b.len(),
{
    if b.len() < 4 {
        Ok(Seq::empty())
    } else {
        let length = be_u32(b.subrange(0, 4));
        if b.len() < 12 + length {
            Err(ChunkError::Truncated)
        } else {
            match parse_chunk(b.subrange(0, 12 + length)) {
                Err(e) => Err(e),
                Ok(c) => match parse_chunks(b.subrange(12 + length, b.len() as int)) {
                    Ok(rest) => Ok(seq![c] + rest),
                    Err(e) => Err(e),
                },
            }
        }
    }
}

/// Why bytes could not be read as a PNG stream.
#[derive(Debug, Clone, Copy, PartialEq, Eq)]
pub enum PngError {
    /// Fewer than eight bytes: no room for the signature.
    MissingHeader,
    /// The first eight bytes, `found`, are not the signature.
    BadHeader { found: [u8; 8] },
    /// A chunk could not be read.
    Chunk(ChunkError),
}

/// The stream that the bytes `b` hold, or the error that reading it reports.
pub open spec fn parse_png(b: Seq<u8>) -> Result<PngModel, PngError> {
    if b.len() < 8 {
        Err(PngError::MissingHeader)
    } else if b.subrange(0, 8) != png_signature() {
        Err(PngError::BadHeader { found: [b[0], b[1], b[2], b[3], b[4], b[5], b[6], b[7]] })
    } else {
        match parse_chunks(b.subrange(8, b.len() as int)) {
            Ok(chunks) => Ok(PngModel { header: png_signature(), chunks }),
            Err(e) => Err(PngError::Chunk(e)),
        }
    }
}

/// `cs` with `c` put just before its last chunk, or `c` alone when `cs` is
/// empty.
pub open spec fn insert_before_last(cs: Seq<ChunkModel>, c: ChunkModel) -> Seq<ChunkModel> {
    if cs.len() == 0 {
        seq![c]
    } else {
        cs.insert(cs.len() - 1, c)
    }
}

/// `i` is the position of the first chunk of `cs` whose type code is `kind`.
pub open spec fn is_first_of_type(cs: Seq<ChunkModel>, kind: Seq<u8>, i: int) -> bool {
    &&& 0 <= i < cs.len()
    &&& cs[i].kind == kind
    &&& forall|j: int| 0 <= j < i ==> (#[trigger] cs[j]).kind != kind
}

/// The position of the first chunk of `cs` whose type code is `kind`, if any
/// chunk has that type code.
pub open spec fn first_of_type(cs: Seq<ChunkModel>, kind: Seq<u8>) -> Option<int> {
    if exists|i: int| 0 <= i < cs.len() && (#[trigger] cs[i]).kind == kind {
        Some(choose|i: int| is_first_of_type(cs, kind, i))
    } else {
        None
    }
}

/// The first chunk of `cs` whose type code is the one that the text `s`
/// names; nothing when there is none or when `s` names no type code.
pub open spec fn find_by_type(cs: Seq<ChunkModel>, s: &str) -> Option<ChunkModel> {
    match parse_type_code(s) {
        Err(_) => None,
        Ok(kind) => match first_of_type(cs, kind) {
            None => None,
            Some(i) => Some(cs[i]),
        },
    }
}

/// Why a chunk could not be removed.
#[derive(Debug, Clone, Copy, PartialEq, Eq)]
pub enum RemoveError {
    /// The type code asked for could not be parsed.
    BadTypeQuery(ChunkTypeError),
    /// No chunk has the type code asked for.
    NotFound,
}

/// Whether two type codes have the same bytes.
fn same_code(a: &ChunkType, b: &ChunkType) -> (r: bool)
    ensures
        r == (a.bytes@ == b.bytes@),
{
    let r = a.bytes[0] == b.bytes[0] && a.bytes[1] == b.bytes[1] && a.bytes[2] == b.bytes[2]
        && a.bytes[3] == b.bytes[3];
    if r {
        assert(a.bytes@ =~= b.bytes@);
    }
    r
}

/// `acc` followed by the chunks of `r`, or the error of `r`.
spec fn after(acc: Seq<ChunkModel>, r: Result<Seq<ChunkModel>, ChunkError>) -> Result<
    Seq<ChunkModel>,
    ChunkError,
> {
    match r {
        Ok(rest) => Ok(acc + rest),
        Err(e) => Err(e),
    }
}

/// A PNG stream.
#[derive(Debug)]
pub struct Png {
    header: [u8; 8],
    chunks: Vec<Chunk>,
}

impl View for Png {
    type V = PngModel;

    closed spec fn view(&self) -> PngModel {
        PngModel { header: self.header@, chunks: models(self.chunks@) }
    }
}

impl Png {
    /// The signature that opens every PNG stream.
    pub const EXPECTED_HEADER: [u8; 8] = [137, 80, 78, 71, 13, 10, 26, 10];

    /// A stream holding `chunks`, in order, after the signature.
    pub fn from_chunks(chunks: Vec<Chunk>) -> (r: Png)
        ensures
            r@ == (PngModel { header: png_signature(), chunks: models(chunks@) }),
    {
        let r = Png { header: Png::EXPECTED_HEADER, chunks };
        assert(r.header@ =~= png_signature());
        r
    }

    /// Reads a stream: the signature, then chunks until fewer than four bytes
    /// are left. Any chunk that cannot be read fails the whole stream.
    pub fn try_from(bytes: &[u8]) -> (r: Result<Png, PngError>)
        ensures
            match r {
                Ok(p) => parse_png(bytes@) == Ok::<PngModel, PngError>(p@),
                Err(e) => parse_png(bytes@) == Err::<PngModel, PngError>(e),
            },
    {
        if bytes.len() < 8 {
            return Err(PngError::MissingHeader);
        }
        let header: [u8; 8] = [
            bytes[0],
            bytes[1],
            bytes[2],
            bytes[3],
            bytes[4],
            bytes[5],
            bytes[6],
            bytes[7],
        ];
        let expected = Png::EXPECTED_HEADER;
        let mut k: usize = 0;
        while k < 8
            invariant
                k <= 8,
                bytes@.len() >= 8,
                header@ == bytes@.subrange(0, 8),
                expected@ == png_signature(),
                forall|j: int| 0 <= j < k ==> header@[j] == expected@[j],
            decreases 8 - k,
        {
            if header[k] != expected[k] {
                assert(bytes@.subrange(0, 8)[k as int] != png_signature()[k as int]);
                assert(bytes@.subrange(0, 8) != png_signature());
                let ghost b = bytes@;
                assert(header == [b[0], b[1], b[2], b[3], b[4], b[5], b[6], b[7]]);
                return Err(PngError::BadHeader { found: header });
            }
            k = k + 1;
        }
        assert(bytes@.subrange(0, 8) =~= png_signature());
        let n = bytes.len();
        let mut chunks: Vec<Chunk> = Vec::new();
        let mut pos: usize = 8;
        assert(models(chunks@) + Seq::<ChunkModel>::empty() =~= Seq::<ChunkModel>::empty());
        while n - pos >= 4
            invariant
                n == bytes@.len(),
                8 <= pos <= n,
                bytes@.subrange(0, 8) == png_signature(),
                parse_chunks(bytes@.subrange(8, n as int)) == after(
                    models(chunks@),
                    parse_chunks(bytes@.subrange(pos as int, n as int)),
                ),
            decreases n - pos,
        {
            let ghost s = bytes@.subrange(pos as int, n as int);
            let length = read_u32(bytes, pos);
            assert(s.subrange(0, 4) =~= bytes@.subrange(pos as int, pos + 4));
            let len = length as usize;
            let rest = n - pos - 4;
            if len > rest || rest - len < 8 {
                return Err(PngError::Chunk(ChunkError::Truncated));
            }
            let end = pos + 12 + len;
            assert(s.subrange(0, 12 + length) =~= bytes@.subrange(pos as int, end as int));
            assert(s.subrange(12 + length, s.len() as int) =~= bytes@.subrange(end as int, n as int));
            let chunk = match Chunk::try_from(vstd::slice::slice_subrange(bytes, pos, end)) {
                Ok(c) => c,
                Err(e) => return Err(PngError::Chunk(e)),
            };
            let ghost before = models(chunks@);
            chunks.push(chunk);
            proof {
                assert(models(chunks@) =~= before.push(chunk@));
                let next = parse_chunks(bytes@.subrange(end as int, n as int));
                if next is Ok {
                    assert(before + (seq![chunk@] + next->Ok_0) =~= models(chunks@) + next->Ok_0);
                }
            }
            pos = end;
        }
        assert(models(chunks@) + Seq::<ChunkModel>::empty() =~= models(chunks@));
        let p = Png { header, chunks };
        assert(p.header@ =~= png_signature());
        Ok(p)
    }

    /// The position of the first chunk whose type code is `kind`, if any.
    fn position_of(&self, kind: &ChunkType) -> (r: Option<usize>)
        ensures
            match first_of_type(self@.chunks, kind.bytes@) {
                Some(i) => r == Some(i as usize),
                None => r is None,
            },
            r matches Some(i) ==> is_first_of_type(self@.chunks, kind.bytes@, i as int) && i
                < self.chunks@.len(),
    {
        let ghost cs = self@.chunks;
        let mut i: usize = 0;
        while i < self.chunks.len()
            invariant
                i <= self.chunks@.len(),
                cs == models(self.chunks@),
                forall|j: int| 0 <= j < i ==> (#[trigger] cs[j]).kind != kind.bytes@,
            decreases self.chunks@.len() - i,
        {
            if same_code(self.chunks[i].chunk_type(), kind) {
                proof {
                    assert(is_first_of_type(cs, kind.bytes@, i as int));
                    let k = choose|k: int| is_first_of_type(cs, kind.bytes@, k);
                    assert(k == i) by {
                        if k < i {
                            assert(cs[k].kind != kind.bytes@);
                        } else if k > i {
                            assert(cs[i as int].kind != kind.bytes@);
                        }
                    }
                }
                return Some(i);
            }
            i = i + 1;
        }
        None
    }

    /// Puts `chunk` just before the last chunk, so that the last chunk stays
    /// last; into an empty stream it goes as the only chunk.
    pub fn insert_chunk(&mut self, chunk: Chunk)
        ensures
            final(self)@ == (PngModel {
                header: old(self)@.header,
                chunks: insert_before_last(old(self)@.chunks, chunk@),
            }),
    {
        let ghost c = chunk@;
        if !self.chunks.is_empty() {
            let index = self.chunks.len() - 1;
            self.chunks.insert(index, chunk);
            assert(models(self.chunks@) =~= models(old(self).chunks@).insert(index as int, c));
        } else {
            self.chunks.push(chunk);
            assert(models(self.chunks@) =~= seq![c]);
        }
    }

    /// Removes and returns the first chunk whose type code is the one that
    /// `chunk_type` names.
    pub fn remove_chunk(&mut self, chunk_type: &str) -> (r: Result<Chunk, RemoveError>)
        ensures
            match parse_type_code(chunk_type) {
                Err(e) => r == Err::<Chunk, RemoveError>(RemoveError::BadTypeQuery(e))
                    && final(self)@ == old(self)@,
                Ok(kind) => match first_of_type(old(self)@.chunks, kind) {
                    None => r == Err::<Chunk, RemoveError>(RemoveError::NotFound) && final(self)@
                        == old(self)@,
                    Some(i) => r matches Ok(c) && c@ == old(self)@.chunks[i] && final(self)@
                        == (PngModel {
                        header: old(self)@.header,
                        chunks: old(self)@.chunks.remove(i),
                    }),
                },
            },
    {
        let kind = match ChunkType::from_str(chunk_type) {
            Ok(t) => t,
            Err(e) => return Err(RemoveError::BadTypeQuery(e)),
        };
        match self.position_of(&kind) {
            Some(index) => {
                let c = self.chunks.remove(index);
                assert(models(self.chunks@) =~= models(old(self).chunks@).remove(index as int));
                Ok(c)
            },
            None => Err(RemoveError::NotFound),
        }
    }

    /// The chunks, in stream order.
    pub fn chunks(&self) -> (r: &[Chunk])
        ensures
            models(r@) == self@.chunks,
    {
        self.chunks.as_slice()
    }

    /// The first chunk whose type code is the one that `chunk_type` names;
    /// nothing when there is none or when `chunk_type` names no type code.
    pub fn chunk_by_type(&self, chunk_type: &str) -> (r: Option<&Chunk>)
        ensures
            match find_by_type(self@.chunks, chunk_type) {
                None => r is None,
                Some(m) => r matches Some(c) && c@ == m,
            },
    {
        match ChunkType::from_str(chunk_type) {
            Ok(kind) => match self.position_of(&kind) {
                Some(index) => Some(&self.chunks[index]),
                None => None,
            },
            Err(_) => None,
        }
    }

    /// The stream as bytes: the header, then each chunk's wire bytes in order.
    pub fn as_bytes(&self) -> (r: Vec<u8>)
        ensures
            r@ == png_wire(self@),
    {
        let mut out: Vec<u8> = Vec::new();
        append_bytes(&mut out, self.header.as_slice());
        let mut i: usize = 0;
        while i < self.chunks.len()
            invariant
                i <= self.chunks@.len(),
                out@ == self.header@ + chunks_wire(models(self.chunks@).take(i as int)),
            decreases self.chunks@.len() - i,
        {
            let mut bytes = self.chunks[i].as_bytes();
            out.append(&mut bytes);
            proof {
                let ms = models(self.chunks@);
                assert(ms.take(i + 1).drop_last() =~= ms.take(i as int));
                assert(self.header@ + chunks_wire(ms.take(i as int)) + ms[i as int].wire() =~= self.header@
                    + chunks_wire(ms.take(i + 1)));
            }
            i = i + 1;
        }
        assert(models(self.chunks@).take(self.chunks@.len() as int) =~= models(self.chunks@));
        out
    }
}

/// The wire bytes of a chunk followed by others are its own wire bytes
/// followed by theirs.
proof fn lemma_chunks_wire_cons(c: ChunkModel, rest: Seq<ChunkModel>)
    ensures
        chunks_wire(seq![c] + rest) == c.wire() + chunks_wire(rest),
    decreases rest.len(),
{
    let s = seq![c] + rest;
    if rest.len() == 0 {
        assert(s =~= seq![c]);
        assert(s.drop_last() =~= Seq::<ChunkModel>::empty());
        assert(chunks_wire(s.drop_last()) == Seq::<u8>::empty());
        assert(s.last() == c);
        assert(c.wire() + chunks_wire(rest) =~= c.wire());
        assert(chunks_wire(s) =~= c.wire());
    } else {
        assert(s.drop_last() =~= seq![c] + rest.drop_last());
        lemma_chunks_wire_cons(c, rest.drop_last());
        assert(chunks_wire(s) =~= c.wire() + chunks_wire(rest));
    }
}

/// Well-formed chunks are read back from their wire bytes.
proof fn lemma_parse_chunks_wire(cs: Seq<ChunkModel>)
    requires
        all_wf(cs),
    ensures
        parse_chunks(chunks_wire(cs)) == Ok::<Seq<ChunkModel>, ChunkError>(cs),
    decreases cs.len(),
{
    if cs.len() == 0 {
        assert(parse_chunks(chunks_wire(cs)) == Ok::<Seq<ChunkModel>, ChunkError>(Seq::empty()));
        assert(cs =~= Seq::<ChunkModel>::empty());
    } else {
        let c = cs[0];
        let rest = cs.drop_first();
        assert(cs =~= seq![c] + rest);
        assert(c.wf());
        assert(all_wf(rest)) by {
            assert forall|i: int| 0 <= i < rest.len() implies (#[trigger] rest[i]).wf() by {
                assert(rest[i] == cs[i + 1]);
            }
        }
        lemma_chunks_wire_cons(c, rest);
        lemma_parse_chunks_wire(rest);
        let w = chunks_wire(cs);
        let len = c.length as int;
        lemma_be_value_round_trip(c.length);
        assert(w.subrange(0, 4) =~= c.wire().subrange(0, 4));
        assert(c.wire().subrange(0, 4) =~= be_bytes(c.length));
        assert(w.subrange(0, 12 + len) =~= c.wire());
        lemma_parse_wire(c, Seq::empty());
        assert(c.wire() + Seq::<u8>::empty() =~= c.wire());
        assert(w.subrange(12 + len, w.len() as int) =~= chunks_wire(rest));
    }
}

/// Chunks read from bytes are well formed, and their wire bytes are those
/// bytes up to fewer than four that were left over.
proof fn lemma_parse_chunks_ok(b: Seq<u8>)
    requires
        parse_chunks(b) is Ok,
    ensures
        all_wf(parse_chunks(b)->Ok_0),
        chunks_wire(parse_chunks(b)->Ok_0).len() <= b.len() < chunks_wire(parse_chunks(b)->Ok_0).len()
            + 4,
        chunks_wire(parse_chunks(b)->Ok_0) == b.subrange(
            0,
            chunks_wire(parse_chunks(b)->Ok_0).len() as int,
        ),
    decreases b.len(),
{
    let cs = parse_chunks(b)->Ok_0;
    if b.len() < 4 {
        assert(chunks_wire(cs) =~= b.subrange(0, 0));
    } else {
        let length = be_u32(b.subrange(0, 4));
        let head = b.subrange(0, 12 + length);
        let tail = b.subrange(12 + length, b.len() as int);
        let c = parse_chunk(head)->Ok_0;
        let rest = parse_chunks(tail)->Ok_0;
        lemma_parsed_chunk(head);
        lemma_parse_chunks_ok(tail);
        lemma_chunks_wire_cons(c, rest);
        assert(cs == seq![c] + rest);
        assert(all_wf(cs)) by {
            assert forall|i: int| 0 <= i < cs.len() implies (#[trigger] cs[i]).wf() by {
                if i > 0 {
                    assert(cs[i] == rest[i - 1]);
                }
            }
        }
        assert(c.wire().len() == 12 + length);
        assert(c.wire() =~= head);
        assert(chunks_wire(cs) =~= b.subrange(0, chunks_wire(cs).len() as int));
    }
}

/// A stream with the PNG signature and well-formed chunks is read back from
/// its wire bytes.
pub proof fn lemma_png_wire_parses_back(p: PngModel)
    requires
        p.header == png_signature(),
        all_wf(p.chunks),
    ensures
        parse_png(png_wire(p)) == Ok::<PngModel, PngError>(p),
{
    lemma_parse_chunks_wire(p.chunks);
    let w = png_wire(p);
    assert(w.subrange(0, 8) =~= png_signature());
    assert(w.subrange(8, w.len() as int) =~= chunks_wire(p.chunks));
}

/// Writing out a stream that was read from bytes, and reading the result,
/// gives the same stream. The written bytes are the input without what
/// followed the last chunk (fewer than four bytes, which reading skips), so
/// for an input without such bytes they are the input itself.
pub proof fn lemma_png_round_trip(b: Seq<u8>)
    requires
        parse_png(b) is Ok,
    ensures
        parse_png(png_wire(parse_png(b)->Ok_0)) == parse_png(b),
        png_wire(parse_png(b)->Ok_0) == b.subrange(0, png_wire(parse_png(b)->Ok_0).len() as int),
        b.len() - png_wire(parse_png(b)->Ok_0).len() < 4,
        b.len() == png_wire(parse_png(b)->Ok_0).len() ==> png_wire(parse_png(b)->Ok_0) == b,
{
    let p = parse_png(b)->Ok_0;
    lemma_parse_chunks_ok(b.subrange(8, b.len() as int));
    lemma_png_wire_parses_back(p);
    let w = png_wire(p);
    assert(w =~= b.subrange(0, w.len() as int));
}

/// Bytes that do not start with the PNG signature are refused with a header
/// error, whatever follows.
pub proof fn lemma_header_gate(b: Seq<u8>)
    requires
        b.len() < 8 || b.subrange(0, 8) != png_signature(),
    ensures
        parse_png(b) matches Err(e) && (e is MissingHeader || e is BadHeader),
{
}

/// Inserting into a stream that has chunks keeps its last chunk last, puts
/// the new chunk just before it and leaves the chunks before it as they were.
pub proof fn lemma_insert_keeps_last(cs: Seq<ChunkModel>, c: ChunkModel)
    requires
        cs.len() > 0,
    ensures
        insert_before_last(cs, c).len() == cs.len() + 1,
        insert_before_last(cs, c).last() == cs.last(),
        insert_before_last(cs, c)[cs.len() - 1] == c,
        insert_before_last(cs, c).take(cs.len() - 1) == cs.take(cs.len() - 1),
{
    assert(insert_before_last(cs, c).take(cs.len() - 1) =~= cs.take(cs.len() - 1));
}

/// Removing by type code takes out the first chunk of that type only: the
/// chunks before it have other types, and every chunk after it, of that type
/// or not, stays in order.
pub proof fn lemma_remove_first_only(cs: Seq<ChunkModel>, kind: Seq<u8>)
    requires
        first_of_type(cs, kind) is Some,
    ensures
        ({
            let i = first_of_type(cs, kind)->Some_0;
            &&& 0 <= i < cs.len()
            &&& cs[i].kind == kind
            &&& forall|j: int| 0 <= j < i ==> (#[trigger] cs[j]).kind != kind
            &&& cs.remove(i) == cs.take(i) + cs.skip(i + 1)
        }),
{
    let k = choose|k: int| 0 <= k < cs.len() && (#[trigger] cs[k]).kind == kind;
    lemma_first_exists(cs, kind, k);
    let i = first_of_type(cs, kind)->Some_0;
    assert(cs.remove(i) =~= cs.take(i) + cs.skip(i + 1));
}

/// When some chunk has type code `kind`, a first one has.
proof fn lemma_first_exists(cs: Seq<ChunkModel>, kind: Seq<u8>, k: int)
    requires
        0 <= k < cs.len(),
        cs[k].kind == kind,
    ensures
        exists|i: int| is_first_of_type(cs, kind, i),
    decreases k,
{
    if exists|j: int| 0 <= j < k && (#[trigger] cs[j]).kind == kind {
        let j = choose|j: int| 0 <= j < k && (#[trigger] cs[j]).kind == kind;
        lemma_first_exists(cs, kind, j);
    } else {
        assert(is_first_of_type(cs, kind, k));
    }
}

} // verus!
