//! Chunk-level parsing of the PNG container.

use vstd::prelude::*;
use crate::utils::{
    append_bytes, be32, be32_bytes, lemma_be32_bytes, calculate_crc32, copy_range, crc32_of, has_at, png_magic, read_u32_be,
};
use crate::{lossy_text_of, text, PolyglotError};

verus! {

/// PNG chunk structure
#[derive(Debug, Clone)]
pub struct Chunk {
    pub length: u32,
    pub chunk_type: [u8; 4],
    pub data: Vec<u8>,
    pub crc: u32,
    /// Offset of the chunk's data in the file.
    pub data_offset: usize,
}

/// PNG file representation
#[derive(Debug, Clone)]
pub struct ParsedPng {
    pub chunks: Vec<Chunk>,
}

/// The mathematical content of a chunk.
pub struct ChunkModel {
    pub length: u32,
    pub kind: Seq<u8>,
    pub data: Seq<u8>,
    pub crc: u32,
    pub data_offset: int,
}

impl View for Chunk {
    type V = ChunkModel;

    open spec fn view(&self) -> ChunkModel {
        ChunkModel {
            length: self.length,
            kind: self.chunk_type@,
            data: self.data@,
            crc: self.crc,
            data_offset: self.data_offset as int,
        }
    }
}

impl View for ParsedPng {
    type V = Seq<ChunkModel>;

    open spec fn view(&self) -> Seq<ChunkModel> {
        self.chunks@.map_values(|c: Chunk| c@)
    }
}

/// Why a byte sequence is not a PNG.
pub enum PngFault {
    BadSignature,
    Truncated,
    BadChecksum(Seq<u8>),
    NoChunks,
}

pub open spec fn iend_tag() -> Seq<u8> {
    seq![0x49u8, 0x45u8, 0x4Eu8, 0x44u8]
}

pub open spec fn idat_tag() -> Seq<u8> {
    seq![0x49u8, 0x44u8, 0x41u8, 0x54u8]
}

pub open spec fn text_tag() -> Seq<u8> {
    seq![0x74u8, 0x45u8, 0x58u8, 0x74u8]
}

/// A chunk is stored as a big-endian length, a four-byte type, the data and
/// a big-endian CRC-32 of type and data.
pub open spec fn chunk_checksum_ok(kind: Seq<u8>, data: Seq<u8>, crc: int) -> bool {
    crc == crc32_of(kind + data)
}

/// `cs` placed in front of the chunks of `r`.
pub open spec fn prepend(cs: Seq<ChunkModel>, r: Result<Seq<ChunkModel>, PngFault>) -> Result<
    Seq<ChunkModel>,
    PngFault,
> {
    match r {
        Ok(rest) => Ok(cs + rest),
        Err(f) => Err(f),
    }
}

/// The chunks stored from `off` on: parsing stops at the first terminal
/// chunk, and fewer than eight remaining bytes end the sequence; a header whose
/// data and checksum do not fit in what remains is a truncation.
pub open spec fn chunks_from(data: Seq<u8>, off: int) -> Result<Seq<ChunkModel>, PngFault>
    decreases data.len() - off,
{
    if off < 0 || off + 8 > data.len() {
        Ok(Seq::empty())
    } else {
        let end = off + 8 + be32(data, off);
        if end + 4 > data.len() {
            Err(PngFault::Truncated)
        } else {
            let kind = data.subrange(off + 4, off + 8);
            let payload = data.subrange(off + 8, end);
            let crc = be32(data, end);
            if !chunk_checksum_ok(kind, payload, crc) {
                Err(PngFault::BadChecksum(kind))
            } else {
                let c = ChunkModel {
                    length: be32(data, off) as u32,
                    kind,
                    data: payload,
                    crc: crc as u32,
                    data_offset: off + 8,
                };
                if kind == iend_tag() {
                    Ok(seq![c])
                } else {
                    prepend(seq![c], chunks_from(data, end + 4))
                }
            }
        }
    }
}

/// The chunk list of a PNG file, or why there is none.
pub open spec fn png_parse(data: Seq<u8>) -> Result<Seq<ChunkModel>, PngFault> {
    if !has_at(data, 0, png_magic()) {
        Err(PngFault::BadSignature)
    } else {
        match chunks_from(data, 8) {
            Ok(cs) => if cs.len() == 0 {
                Err(PngFault::NoChunks)
            } else {
                Ok(cs)
            },
            Err(f) => Err(f),
        }
    }
}

/// The error that reports `f`, with its message.
pub open spec fn reports_png_fault(e: PolyglotError, f: PngFault) -> bool {
    match f {
        PngFault::BadChecksum(kind) => e matches PolyglotError::CrcMismatch(s) && s@
            == lossy_text_of(kind),
        PngFault::BadSignature => e matches PolyglotError::PngParse(s) && s@
            == "Invalid PNG signature"@,
        PngFault::Truncated => e matches PolyglotError::PngParse(s) && s@
            == "Chunk data extends beyond file"@,
        PngFault::NoChunks => e matches PolyglotError::PngParse(s) && s@ == "No chunks found"@,
    }
}

/// `r` is the outcome that `expected` describes.
pub open spec fn png_outcome(r: Result<ParsedPng, PolyglotError>, expected: Result<Seq<ChunkModel>, PngFault>) -> bool {
    match expected {
        Ok(cs) => r matches Ok(p) && p@ == cs,
        Err(f) => r matches Err(e) && reports_png_fault(e, f),
    }
}

proof fn lemma_prepend_assoc(a: Seq<ChunkModel>, b: Seq<ChunkModel>, r: Result<Seq<ChunkModel>, PngFault>)
    ensures
        prepend(a, prepend(b, r)) == prepend(a + b, r),
{
    if let Ok(rest) = r {
        assert(a + (b + rest) =~= (a + b) + rest);
    }
}

/// Whether `t` holds the four bytes `a b c d`.
pub fn tag_is(t: &[u8; 4], a: u8, b: u8, c: u8, d: u8) -> (r: bool)
    ensures
        r == (t@ == seq![a, b, c, d]),
{
    let r = t[0] == a && t[1] == b && t[2] == c && t[3] == d;
    assert(r == (t@ =~= seq![a, b, c, d]));
    r
}

/// Parse PNG chunks from byte data
pub fn parse_png_chunks(data: &[u8]) -> (r: Result<ParsedPng, PolyglotError>)
    ensures
        png_outcome(r, png_parse(data@)),
{
    if !crate::utils::is_png_signature(data) {
        return Err(PolyglotError::PngParse(text("Invalid PNG signature")));
    }
    let mut offset: usize = 8;
    let mut chunks: Vec<Chunk> = Vec::new();
    while data.len() - offset >= 8
        invariant
            8 <= offset <= data@.len(),
            has_at(data@, 0, png_magic()),
            chunks_from(data@, 8) == prepend(
                chunks@.map_values(|c: Chunk| c@),
                chunks_from(data@, offset as int),
            ),
        decreases data@.len() - offset,
    {
        let length = read_u32_be(data, offset);
        let chunk_type = [data[offset + 4], data[offset + 5], data[offset + 6], data[offset + 7]];
        assert(chunk_type@ =~= data@.subrange(offset + 4, offset + 8));
        if data.len() - offset < 12 || length as usize > data.len() - offset - 12 {
            return Err(PolyglotError::PngParse(text("Chunk data extends beyond file")));
        }
        let data_end = offset + 8 + length as usize;
        let chunk_data = copy_range(data, offset + 8, data_end);
        let crc = read_u32_be(data, data_end);
        let mut crc_data: Vec<u8> = Vec::new();
        append_bytes(&mut crc_data, &chunk_type);
        append_bytes(&mut crc_data, chunk_data.as_slice());
        let calculated_crc = calculate_crc32(crc_data.as_slice());
        if crc != calculated_crc {
            return Err(PolyglotError::CrcMismatch(crate::lossy_text(&chunk_type)));
        }
        let is_end = tag_is(&chunk_type, 0x49, 0x45, 0x4E, 0x44);
        let chunk = Chunk { length, chunk_type, data: chunk_data, crc, data_offset: offset + 8 };
        let ghost before = chunks@.map_values(|c: Chunk| c@);
        let ghost here = chunks_from(data@, offset as int);
        chunks.push(chunk);
        assert(chunks@.map_values(|c: Chunk| c@) =~= before + seq![chunk@]);
        offset = data_end + 4;
        if is_end {
            assert(here == Ok::<Seq<ChunkModel>, PngFault>(seq![chunk@]));
            assert(chunks_from(data@, 8) == Ok::<Seq<ChunkModel>, PngFault>(chunks@.map_values(|c: Chunk| c@)));
            return Ok(ParsedPng { chunks });
        }
        assert(here == prepend(seq![chunk@], chunks_from(data@, offset as int)));
        proof {
            lemma_prepend_assoc(before, seq![chunk@], chunks_from(data@, offset as int));
        }
    }
    if chunks.len() == 0 {
        return Err(PolyglotError::PngParse(text("No chunks found")));
    }
    Ok(ParsedPng { chunks })
}

/// The bytes that store a chunk of type `kind` holding `data`; the length and
/// the checksum are computed from them.
pub open spec fn chunk_bytes(kind: Seq<u8>, data: Seq<u8>) -> Seq<u8> {
    be32_bytes(data.len() as u32) + kind + data + be32_bytes(crc32_of(kind + data))
}

/// The bytes that store the chunks of `cs`, one after the other.
pub open spec fn chunks_bytes(cs: Seq<ChunkModel>) -> Seq<u8>
    decreases cs.len(),
{
    if cs.len() == 0 {
        Seq::empty()
    } else {
        chunk_bytes(cs[0].kind, cs[0].data) + chunks_bytes(cs.drop_first())
    }
}

/// The chunks of `cs` as a parser sees them once stored from `off` on.
pub open spec fn layout(cs: Seq<ChunkModel>, off: int) -> Seq<ChunkModel>
    decreases cs.len(),
{
    if cs.len() == 0 {
        Seq::empty()
    } else {
        seq![
            ChunkModel {
                length: cs[0].data.len() as u32,
                kind: cs[0].kind,
                data: cs[0].data,
                crc: crc32_of(cs[0].kind + cs[0].data),
                data_offset: off + 8,
            },
        ] + layout(cs.drop_first(), off + 12 + cs[0].data.len())
    }
}

/// Every chunk has a four-byte type and data whose length fits its field,
/// and only the last chunk may be a terminal chunk.
pub open spec fn chunks_storable(cs: Seq<ChunkModel>) -> bool {
    &&& forall|i: int| 0 <= i < cs.len() ==> (#[trigger] cs[i]).kind.len() == 4
    &&& forall|i: int| 0 <= i < cs.len() ==> (#[trigger] cs[i]).data.len() <= u32::MAX
    &&& forall|i: int| 0 <= i < cs.len() - 1 ==> (#[trigger] cs[i]).kind != iend_tag()
}

/// Whether the chunks end with a terminal chunk.
pub open spec fn ends_with_iend(cs: Seq<ChunkModel>) -> bool {
    cs.len() > 0 && cs.last().kind == iend_tag()
}

/// Stored chunks parse back: each with its own data, its computed length and
/// checksum, in order; bytes after a terminal chunk are never read.
#[verifier::rlimit(60)]
pub proof fn lemma_parse_stored(pre: Seq<u8>, cs: Seq<ChunkModel>, tail: Seq<u8>)
    requires
        chunks_storable(cs),
        ends_with_iend(cs) || tail.len() < 8,
    ensures
        chunks_from(pre + chunks_bytes(cs) + tail, pre.len() as int) == Ok::<
            Seq<ChunkModel>,
            PngFault,
        >(layout(cs, pre.len() as int)),
    decreases cs.len(),
{
    let data = pre + chunks_bytes(cs) + tail;
    let off = pre.len() as int;
    if cs.len() == 0 {
        assert(data =~= pre + tail);
    } else {
        let c = cs[0];
        let rest = cs.drop_first();
        assert(c.kind.len() == 4);
        assert(c.data.len() <= u32::MAX);
        let n = c.data.len() as u32;
        let crc = crc32_of(c.kind + c.data);
        lemma_be32_bytes(n);
        lemma_be32_bytes(crc);
        let cb = chunk_bytes(c.kind, c.data);
        let pre2 = pre + cb;
        assert(data =~= pre2 + chunks_bytes(rest) + tail);
        assert(cb.len() == 12 + c.data.len());
        assert forall|k: int| 0 <= k < cb.len() implies data[off + k] == cb[k] by {
            assert(data[off + k] == (pre + cb)[off + k]);
        }
        assert(be32(data, off) == be32(be32_bytes(n), 0)) by {
            assert(forall|k: int| 0 <= k < 4 ==> data[off + k] == cb[k]);
            assert(forall|k: int| 0 <= k < 4 ==> cb[k] == be32_bytes(n)[k]);
        }
        let end = off + 8 + c.data.len();
        assert(be32(data, end) == be32(be32_bytes(crc), 0)) by {
            assert(forall|k: int| 0 <= k < 4 ==> #[trigger] data[end + k] == cb[8 + c.data.len() + k]);
            assert(forall|k: int| 0 <= k < 4 ==> #[trigger] cb[8 + c.data.len() + k] == be32_bytes(crc)[k]);
        }
        assert(data.subrange(off + 4, off + 8) =~= c.kind);
        assert(data.subrange(off + 8, end) =~= c.data);
        if c.kind == iend_tag() {
            assert(rest.len() == 0);
            assert(layout(rest, end + 4) =~= Seq::<ChunkModel>::empty());
        } else {
            assert(chunks_storable(rest)) by {
                assert(forall|i: int| 0 <= i < rest.len() ==> rest[i] == cs[i + 1]);
            }
            if rest.len() > 0 {
                assert(rest.last() == cs.last());
            }
            lemma_parse_stored(pre2, rest, tail);
            assert(pre2.len() == end + 4);
        }
    }
}

/// Where the parser found `c` in `data`: after `off`, with its type, data and
/// checksum at the positions its data offset gives.
pub open spec fn placed(data: Seq<u8>, off: int, c: ChunkModel) -> bool {
    &&& off + 8 <= c.data_offset
    &&& c.data_offset + c.data.len() + 4 <= data.len()
    &&& data.subrange(c.data_offset - 4, c.data_offset) == c.kind
    &&& data.subrange(c.data_offset, c.data_offset + c.data.len()) == c.data
    &&& be32(data, c.data_offset + c.data.len()) == c.crc
    &&& c.length == c.data.len()
    &&& c.crc == crc32_of(c.kind + c.data)
}

/// Storing keeps the number, the types and the data of the chunks.
pub proof fn lemma_layout_fields(cs: Seq<ChunkModel>, off: int)
    ensures
        layout(cs, off).len() == cs.len(),
        forall|i: int|
            0 <= i < cs.len() ==> (#[trigger] layout(cs, off)[i]).kind == cs[i].kind && layout(
                cs,
                off,
            )[i].data == cs[i].data && layout(cs, off)[i].crc == crc32_of(cs[i].kind + cs[i].data)
                && layout(cs, off)[i].length == cs[i].data.len() as u32,
    decreases cs.len(),
{
    if cs.len() > 0 {
        let rest = cs.drop_first();
        let next = off + 12 + cs[0].data.len();
        lemma_layout_fields(rest, next);
        assert forall|i: int| 0 < i < cs.len() implies layout(cs, off)[i] == layout(rest, next)[i - 1]
            && cs[i] == rest[i - 1] by {}
    }
}

/// Every chunk that serialization stores carries the checksum of its type
/// and data: parsing the stored bytes gives back the same chunks, in order,
/// each with a length and a checksum computed from its own type and data.
pub proof fn lemma_stored_checksums(cs: Seq<ChunkModel>)
    requires
        chunks_storable(cs),
        cs.len() > 0,
    ensures
        png_parse(png_magic() + chunks_bytes(cs)) is Ok,
        ({
            let parsed = png_parse(png_magic() + chunks_bytes(cs))->Ok_0;
            &&& parsed.len() == cs.len()
            &&& forall|i: int|
                0 <= i < cs.len() ==> (#[trigger] parsed[i]).kind == cs[i].kind && parsed[i].data
                    == cs[i].data && parsed[i].crc == crc32_of(parsed[i].kind + parsed[i].data)
                    && parsed[i].length == parsed[i].data.len()
        }),
{
    let bytes = png_magic() + chunks_bytes(cs);
    lemma_parse_stored(png_magic(), cs, Seq::empty());
    assert(bytes =~= png_magic() + chunks_bytes(cs) + Seq::<u8>::empty());
    assert(bytes.subrange(0, 8) =~= png_magic());
    lemma_layout_fields(cs, 8);
    assert forall|i: int| 0 <= i < cs.len() implies (#[trigger] cs[i]).data.len() <= u32::MAX by {}
}

/// Parsing establishes the conditions under which chunks can be stored again.
pub proof fn lemma_parsed_storable(data: Seq<u8>, off: int)
    requires
        chunks_from(data, off) is Ok,
    ensures
        chunks_storable(chunks_from(data, off)->Ok_0),
        layout(chunks_from(data, off)->Ok_0, off) == chunks_from(data, off)->Ok_0,
        off >= 0 ==> forall|i: int|
            0 <= i < chunks_from(data, off)->Ok_0.len() ==> placed(
                data,
                off,
                #[trigger] chunks_from(data, off)->Ok_0[i],
            ),
    decreases data.len() - off,
{
    if off < 0 || off + 8 > data.len() {
    } else {
        let end = off + 8 + be32(data, off);
        if end + 4 <= data.len() {
            let kind = data.subrange(off + 4, off + 8);
            if chunk_checksum_ok(kind, data.subrange(off + 8, end), be32(data, end)) && kind
                != iend_tag() {
                lemma_parsed_storable(data, end + 4);
                let rest = chunks_from(data, end + 4)->Ok_0;
                let all = chunks_from(data, off)->Ok_0;
                let payload = data.subrange(off + 8, end);
                let c = ChunkModel {
                    length: be32(data, off) as u32,
                    kind,
                    data: payload,
                    crc: be32(data, end) as u32,
                    data_offset: off + 8,
                };
                assert(all == seq![c] + rest);
                assert(all.drop_first() =~= rest);
                assert(all[0] == c);
                assert(off + 12 + c.data.len() == end + 4);
                assert(payload.len() == be32(data, off));
                assert(c.length == c.data.len() as u32);
                assert(c.crc == crc32_of(c.kind + c.data));
                let m = ChunkModel {
                    length: c.data.len() as u32,
                    kind: c.kind,
                    data: c.data,
                    crc: crc32_of(c.kind + c.data),
                    data_offset: off + 8,
                };
                assert(m == c);
                assert(layout(all, off) == seq![m] + layout(rest, end + 4));
                assert(layout(rest, end + 4) == rest);
                assert(layout(all, off) == all);
                assert(placed(data, off, c));
                assert forall|i: int| 0 <= i < all.len() implies placed(data, off, #[trigger] all[i]) by {
                    if i > 0 {
                        assert(all[i] == rest[i - 1]);
                        assert(placed(data, end + 4, rest[i - 1]));
                    }
                }
            } else if chunk_checksum_ok(kind, data.subrange(off + 8, end), be32(data, end)) {
                let all = chunks_from(data, off)->Ok_0;
                let end = off + 8 + be32(data, off);
                let payload = data.subrange(off + 8, end);
                let c = ChunkModel {
                    length: be32(data, off) as u32,
                    kind,
                    data: payload,
                    crc: be32(data, end) as u32,
                    data_offset: off + 8,
                };
                assert(all == seq![c]);
                assert(all.drop_first() =~= Seq::<ChunkModel>::empty());
                let m = ChunkModel {
                    length: c.data.len() as u32,
                    kind: c.kind,
                    data: c.data,
                    crc: crc32_of(c.kind + c.data),
                    data_offset: off + 8,
                };
                assert(m == c);
                assert(layout(all, off) == seq![m] + layout(all.drop_first(), end + 4));
                assert(layout(all, off) =~= all);
                assert(placed(data, off, c));
            }
        }
    }
}

/// Storing two runs of chunks stores the first, then the second.
pub proof fn lemma_chunks_bytes_concat(a: Seq<ChunkModel>, b: Seq<ChunkModel>)
    ensures
        chunks_bytes(a + b) == chunks_bytes(a) + chunks_bytes(b),
    decreases a.len(),
{
    if a.len() == 0 {
        assert(a + b =~= b);
        assert(chunks_bytes(a) + chunks_bytes(b) =~= chunks_bytes(b));
    } else {
        assert((a + b).drop_first() =~= a.drop_first() + b);
        lemma_chunks_bytes_concat(a.drop_first(), b);
        assert(chunks_bytes(a + b) =~= chunks_bytes(a) + chunks_bytes(b));
    }
}

/// Storing one more chunk appends its bytes.
pub proof fn lemma_chunks_bytes_push(a: Seq<ChunkModel>, c: ChunkModel)
    ensures
        chunks_bytes(a.push(c)) == chunks_bytes(a) + chunk_bytes(c.kind, c.data),
{
    lemma_chunks_bytes_concat(a, seq![c]);
    assert(a.push(c) =~= a + seq![c]);
    assert(seq![c].drop_first() =~= Seq::<ChunkModel>::empty());
    assert(chunks_bytes(seq![c].drop_first()) =~= Seq::<u8>::empty());
    assert(chunks_bytes(seq![c]) =~= chunk_bytes(c.kind, c.data));
}

/// Storing `a`, then `c`, then `b`.
pub proof fn lemma_chunks_bytes_split(a: Seq<ChunkModel>, c: ChunkModel, b: Seq<ChunkModel>)
    ensures
        chunks_bytes(a + seq![c] + b) == chunks_bytes(a) + chunk_bytes(c.kind, c.data) + chunks_bytes(b),
{
    lemma_chunks_bytes_concat(a + seq![c], b);
    lemma_chunks_bytes_push(a, c);
    assert(a.push(c) =~= a + seq![c]);
}

/// Append the stored form of chunks `start..end`.
pub fn write_chunk_run(out: &mut Vec<u8>, chunks: &Vec<Chunk>, start: usize, end: usize)
    requires
        start <= end <= chunks@.len(),
        chunks_storable(chunks@.map_values(|c: Chunk| c@)),
    ensures
        final(out)@ == old(out)@ + chunks_bytes(
            chunks@.map_values(|c: Chunk| c@).subrange(start as int, end as int),
        ),
{
    let ghost cs = chunks@.map_values(|c: Chunk| c@);
    let ghost base = out@;
    assert(cs.subrange(start as int, start as int) =~= Seq::<ChunkModel>::empty());
    assert(out@ =~= base + chunks_bytes(cs.subrange(start as int, start as int)));
    let mut j = start;
    while j < end
        invariant
            start <= j <= end,
            end <= chunks@.len(),
            cs == chunks@.map_values(|c: Chunk| c@),
            chunks_storable(cs),
            out@ == base + chunks_bytes(cs.subrange(start as int, j as int)),
        decreases end - j,
    {
        let c = &chunks[j];
        assert(cs[j as int] == c@);
        write_chunk(out, &c.chunk_type, c.data.as_slice());
        proof {
            lemma_chunks_bytes_push(cs.subrange(start as int, j as int), cs[j as int]);
            assert(cs.subrange(start as int, j + 1) =~= cs.subrange(start as int, j as int).push(
                cs[j as int],
            ));
        }
        j = j + 1;
    }
}

/// Append the stored form of a chunk of type `kind` holding `data`.
pub fn write_chunk(out: &mut Vec<u8>, kind: &[u8; 4], data: &[u8])
    requires
        data@.len() <= u32::MAX,
    ensures
        final(out)@ == old(out)@ + chunk_bytes(kind@, data@),
{
    let mut crc_data: Vec<u8> = Vec::new();
    append_bytes(&mut crc_data, kind);
    append_bytes(&mut crc_data, data);
    let crc = calculate_crc32(crc_data.as_slice());
    crate::utils::push_u32_be(out, data.len() as u32);
    append_bytes(out, kind);
    append_bytes(out, data);
    crate::utils::push_u32_be(out, crc);
    assert(final(out)@ =~= old(out)@ + chunk_bytes(kind@, data@));
}

/// Store the chunks of a parsed container after the PNG signature, each with
/// its length and checksum computed afresh from its type and data.
pub fn serialize_png(png: &ParsedPng) -> (r: Vec<u8>)
    requires
        chunks_storable(png@),
    ensures
        r@ == png_magic() + chunks_bytes(png@),
{
    let mut out: Vec<u8> = Vec::new();
    out.push(0x89);
    out.push(0x50);
    out.push(0x4E);
    out.push(0x47);
    out.push(0x0D);
    out.push(0x0A);
    out.push(0x1A);
    out.push(0x0A);
    assert(out@ =~= png_magic() + chunks_bytes(png@.subrange(0, 0)));
    let mut j: usize = 0;
    while j < png.chunks.len()
        invariant
            j <= png@.len(),
            chunks_storable(png@),
            out@ == png_magic() + chunks_bytes(png@.subrange(0, j as int)),
        decreases png@.len() - j,
    {
        let c = &png.chunks[j];
        assert(png@[j as int] == c@);
        assert(c@.data.len() <= u32::MAX);
        write_chunk(&mut out, &c.chunk_type, c.data.as_slice());
        proof {
            lemma_chunks_bytes_push(png@.subrange(0, j as int), png@[j as int]);
            assert(png@.subrange(0, j + 1) =~= png@.subrange(0, j as int).push(png@[j as int]));
        }
        j = j + 1;
    }
    assert(png@.subrange(0, png@.len() as int) =~= png@);
    out
}

/// Position of the first chunk of type `kind`, if any.
pub open spec fn first_of_kind(cs: Seq<ChunkModel>, kind: Seq<u8>) -> Option<int> {
    if exists|i: int| 0 <= i < cs.len() && #[trigger] cs[i].kind == kind {
        Some(choose|i: int| is_first_of_kind(cs, kind, i))
    } else {
        None
    }
}

pub open spec fn is_first_of_kind(cs: Seq<ChunkModel>, kind: Seq<u8>, i: int) -> bool {
    &&& 0 <= i < cs.len()
    &&& cs[i].kind == kind
    &&& forall|j: int| 0 <= j < i ==> (#[trigger] cs[j]).kind != kind
}

proof fn lemma_has_first(cs: Seq<ChunkModel>, kind: Seq<u8>, j: int)
    requires
        0 <= j < cs.len(),
        cs[j].kind == kind,
    ensures
        exists|i: int| is_first_of_kind(cs, kind, i),
    decreases j,
{
    if exists|m: int| 0 <= m < j && (#[trigger] cs[m]).kind == kind {
        let m = choose|m: int| 0 <= m < j && (#[trigger] cs[m]).kind == kind;
        lemma_has_first(cs, kind, m);
    } else {
        assert(is_first_of_kind(cs, kind, j));
    }
}

/// The position `first_of_kind` gives is that of the first chunk of the type.
pub proof fn lemma_first_of_kind(cs: Seq<ChunkModel>, kind: Seq<u8>)
    ensures
        first_of_kind(cs, kind) matches Some(i) ==> is_first_of_kind(cs, kind, i),
        first_of_kind(cs, kind) is None ==> forall|j: int| 0 <= j < cs.len() ==> (#[trigger] cs[j]).kind != kind,
{
    if exists|i: int| 0 <= i < cs.len() && #[trigger] cs[i].kind == kind {
        let j = choose|i: int| 0 <= i < cs.len() && #[trigger] cs[i].kind == kind;
        lemma_has_first(cs, kind, j);
    }
}

/// Position of the first chunk whose type is `a b c d`.
pub fn first_chunk_index(chunks: &Vec<Chunk>, a: u8, b: u8, c: u8, d: u8) -> (r: Option<usize>)
    ensures
        r matches Some(i) ==> first_of_kind(chunks@.map_values(|c: Chunk| c@), seq![a, b, c, d])
            == Some(i as int) && is_first_of_kind(
            chunks@.map_values(|c: Chunk| c@),
            seq![a, b, c, d],
            i as int,
        ),
        r is None ==> first_of_kind(chunks@.map_values(|c: Chunk| c@), seq![a, b, c, d]) is None,
{
    let ghost cs = chunks@.map_values(|c: Chunk| c@);
    let ghost kind = seq![a, b, c, d];
    let mut i: usize = 0;
    while i < chunks.len()
        invariant
            i <= chunks@.len(),
            cs == chunks@.map_values(|c: Chunk| c@),
            kind == seq![a, b, c, d],
            forall|j: int| 0 <= j < i ==> (#[trigger] cs[j]).kind != kind,
        decreases chunks@.len() - i,
    {
        if tag_is(&chunks[i].chunk_type, a, b, c, d) {
            assert(is_first_of_kind(cs, kind, i as int));
            let ghost w = choose|w: int| is_first_of_kind(cs, kind, w);
            assert(w == i) by {
                if w < i {
                    assert(cs[w].kind != kind);
                } else if w > i {
                    assert(cs[i as int].kind != kind);
                }
            }
            return Some(i);
        }
        i = i + 1;
    }
    None
}

/// Find the first IDAT chunk in parsed PNG
pub fn find_first_idat(png: &ParsedPng) -> (r: Result<&Chunk, PolyglotError>)
    ensures
        first_of_kind(png@, idat_tag()) matches Some(i) ==> (r matches Ok(c) && c@ == png@[i]),
        first_of_kind(png@, idat_tag()) is None ==> r matches Err(PolyglotError::NoIdatChunk),
{
    match first_chunk_index(&png.chunks, 0x49, 0x44, 0x41, 0x54) {
        Some(i) => Ok(&png.chunks[i]),
        None => Err(PolyglotError::NoIdatChunk),
    }
}

/// Get all IDAT chunks
pub fn find_all_idat(png: &ParsedPng) -> (r: Vec<&Chunk>)
    ensures
        r@.map_values(|c: &Chunk| c@) == png@.filter(|c: ChunkModel| c.kind == idat_tag()),
{
    let mut r: Vec<&Chunk> = Vec::new();
    let mut i: usize = 0;
    while i < png.chunks.len()
        invariant
            i <= png@.len(),
            r@.map_values(|c: &Chunk| c@) == png@.subrange(0, i as int).filter(
                |c: ChunkModel| c.kind == idat_tag(),
            ),
        decreases png@.len() - i,
    {
        let ghost before = png@.subrange(0, i as int);
        assert(png@.subrange(0, i + 1) =~= before.push(png@[i as int]));
        proof {
            before.lemma_filter_push(png@[i as int], |c: ChunkModel| c.kind == idat_tag());
        }
        let ghost rv = r@.map_values(|c: &Chunk| c@);
        if tag_is(&png.chunks[i].chunk_type, 0x49, 0x44, 0x41, 0x54) {
            r.push(&png.chunks[i]);
            assert(r@.map_values(|c: &Chunk| c@) =~= rv.push(png@[i as int]));
        }
        i = i + 1;
    }
    assert(png@.subrange(0, png@.len() as int) =~= png@);
    r
}

} // verus!
