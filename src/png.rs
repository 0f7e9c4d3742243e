//! PNG chunk manipulation module

use vstd::prelude::*;

pub mod parser;

use crate::utils::{append_bytes, be32, be32_bytes, copy_range, crc32_of, png_magic, write_u32_be};
use crate::{text, PolyglotError, PolyglotResult};
pub use parser::{Chunk, ParsedPng};
use parser::{
    chunks_bytes, chunks_storable, ends_with_iend, first_chunk_index, first_of_kind,
    chunks_from, iend_tag, idat_tag, is_first_of_kind, lemma_parse_stored, lemma_parsed_storable, png_parse, reports_png_fault, tag_is, text_tag, write_chunk, ChunkModel, PngFault,
};

verus! {

/// PNG file representation with manipulation capabilities
#[derive(Debug, Clone)]
pub struct PngFile {
    pub raw_data: Vec<u8>,
    pub parsed: ParsedPng,
}

/// The chunks `cs` with `extra` appended to the data of chunk `i`.
pub open spec fn extended(cs: Seq<ChunkModel>, i: int, extra: Seq<u8>) -> Seq<ChunkModel> {
    cs.update(
        i,
        ChunkModel {
            length: cs[i].length,
            kind: cs[i].kind,
            data: cs[i].data + extra,
            crc: cs[i].crc,
            data_offset: cs[i].data_offset,
        },
    )
}

/// A text chunk holding `payload`.
pub open spec fn text_chunk(payload: Seq<u8>) -> ChunkModel {
    ChunkModel {
        length: payload.len() as u32,
        kind: text_tag(),
        data: payload,
        crc: crc32_of(text_tag() + payload),
        data_offset: 0,
    }
}

/// `cs` with `c` placed right before its last chunk.
pub open spec fn insert_before_last(cs: Seq<ChunkModel>, c: ChunkModel) -> Seq<ChunkModel> {
    cs.subrange(0, cs.len() - 1).push(c).push(cs.last())
}

/// The bytes of `raw` that follow its last chunk.
pub open spec fn after_chunks(raw: Seq<u8>, cs: Seq<ChunkModel>) -> Seq<u8> {
    raw.subrange(cs.last().data_offset + cs.last().data.len() + 4, raw.len() as int)
}

proof fn lemma_tags_differ()
    ensures
        text_tag() != iend_tag(),
        idat_tag() != iend_tag(),
{
    assert(text_tag()[0] != iend_tag()[0]);
    assert(idat_tag()[1] != iend_tag()[1]);
}

impl PngFile {
    /// The parsed chunks are those of the raw bytes.
    #[verifier::opaque]
    pub open spec fn wf(&self) -> bool {
        png_parse(self.raw_data@) == Ok::<Seq<ChunkModel>, PngFault>(self.parsed@)
    }

    /// Create from raw data
    pub fn from_data(data: Vec<u8>) -> (r: PolyglotResult<Self>)
        ensures
            r matches Ok(f) ==> f.raw_data@ == data@ && f.wf(),
            png_parse(data@) is Ok ==> r is Ok,
            png_parse(data@) matches Err(fault) ==> (r matches Err(e) && reports_png_fault(e, fault)),
    {
        reveal(PngFile::wf);
        match parser::parse_png_chunks(data.as_slice()) {
            Ok(parsed) => Ok(Self { raw_data: data, parsed }),
            Err(e) => Err(e),
        }
    }

    /// Find the first IDAT chunk and return its offset and length
    pub fn find_first_idat(&self) -> (r: Result<(usize, usize), PolyglotError>)
        ensures
            first_of_kind(self.parsed@, idat_tag()) matches Some(i) ==> (r matches Ok(p) && p.0
                == self.parsed@[i].data_offset && p.1 == self.parsed@[i].data.len()),
            first_of_kind(self.parsed@, idat_tag()) is None ==> r matches Err(
                PolyglotError::NoIdatChunk,
            ),
    {
        match first_chunk_index(&self.parsed.chunks, 0x49, 0x44, 0x41, 0x54) {
            Some(i) => {
                let c = &self.parsed.chunks[i];
                assert(self.parsed@[i as int] == c@);
                Ok((c.data_offset, c.data.len()))
            },
            None => Err(PolyglotError::NoIdatChunk),
        }
    }

    /// Embed ZIP data in a new tEXt chunk (parasitic - embeds in metadata): the
    /// chunk's data is the archive bytes verbatim, placed before the terminal
    /// chunk.
    #[verifier::rlimit(40)]
    pub fn add_zip_text_chunk(&mut self, zip_data: &[u8]) -> (r: PolyglotResult<()>)
        requires
            old(self).wf(),
        ensures
            final(self).wf(),
            !ends_with_iend(old(self).parsed@) ==> (r matches Err(PolyglotError::ChunkNotFound(_))
                && *final(self) == *old(self)),
            ends_with_iend(old(self).parsed@) && zip_data@.len() > u32::MAX ==> (r
                matches Err(PolyglotError::SizeOverflow) && *final(self) == *old(self)),
            ends_with_iend(old(self).parsed@) && zip_data@.len() <= u32::MAX ==> (
            r is Ok && final(self).raw_data@ == png_magic() + chunks_bytes(
                insert_before_last(old(self).parsed@, text_chunk(zip_data@)),
            ) + after_chunks(old(self).raw_data@, old(self).parsed@)),
    {
        reveal(PngFile::wf);
        let ghost cs = self.parsed@;
        proof {
            lemma_parsed_storable(self.raw_data@, 8);
            lemma_tags_differ();
        }
        let n = self.parsed.chunks.len();
        if n == 0 || !tag_is(&self.parsed.chunks[n - 1].chunk_type, 0x49, 0x45, 0x4E, 0x44) {
            proof {
                if n > 0 {
                    assert(cs.last() == self.parsed.chunks@[n - 1]@);
                }
            }
            return Err(PolyglotError::ChunkNotFound(text("IEND")));
        }
        assert(cs.last() == self.parsed.chunks@[n - 1]@);
        if zip_data.len() > 0xFFFF_FFFF {
            return Err(PolyglotError::SizeOverflow);
        }
        let payload = copy_range(zip_data, 0, zip_data.len());
        assert(payload@ =~= zip_data@);
        let mut out: Vec<u8> = Vec::new();
        append_bytes(&mut out, &self.raw_data.as_slice()[0..8]);
        parser::write_chunk_run(&mut out, &self.parsed.chunks, 0, n - 1);
        let text_type: [u8; 4] = [0x74, 0x45, 0x58, 0x74];
        assert(text_type@ =~= text_tag());
        write_chunk(&mut out, &text_type, payload.as_slice());
        parser::write_chunk_run(&mut out, &self.parsed.chunks, n - 1, n);
        let last = &self.parsed.chunks[n - 1];
        proof {
            assert(parser::placed(self.raw_data@, 8, cs[n - 1]));
        }
        let raw_len = self.raw_data.len();
        assert(cs[n - 1] == last@);
        assert(last.data_offset + last.data@.len() + 4 <= raw_len);
        let tail_start = last.data_offset + last.data.len() + 4;
        let tail = copy_range(self.raw_data.as_slice(), tail_start, self.raw_data.len());
        append_bytes(&mut out, tail.as_slice());
        proof {
            lemma_insert_text_parses(self.raw_data@, cs, payload@, tail@, out@);
        }
        match parser::parse_png_chunks(out.as_slice()) {
            Ok(parsed) => {
                self.raw_data = out;
                self.parsed = parsed;
                Ok(())
            },
            Err(e) => Err(e),
        }
    }

    /// Append WAV data to the first IDAT chunk (parasitic - embeds in image data)
    pub fn append_wav_to_idat(&mut self, wav_data: &[u8]) -> (r: PolyglotResult<()>)
        requires
            old(self).wf(),
        ensures
            final(self).wf(),
            appended_to_idat(*old(self), *final(self), wav_data@, r),
    {
        self.append_to_idat(wav_data)
    }

    /// Append data to the first IDAT chunk (parasitic - embeds in image data)
    #[verifier::rlimit(40)]
    pub fn append_to_idat(&mut self, additional_data: &[u8]) -> (r: PolyglotResult<()>)
        requires
            old(self).wf(),
        ensures
            final(self).wf(),
            appended_to_idat(*old(self), *final(self), additional_data@, r),
    {
        reveal(PngFile::wf);
        let ghost cs = self.parsed@;
        proof {
            lemma_parsed_storable(self.raw_data@, 8);
            lemma_tags_differ();
        }
        let idx = match first_chunk_index(&self.parsed.chunks, 0x49, 0x44, 0x41, 0x54) {
            Some(i) => i,
            None => return Err(PolyglotError::NoIdatChunk),
        };
        let old_len = self.parsed.chunks[idx].data.len();
        assert(cs[idx as int] == self.parsed.chunks@[idx as int]@);
        if additional_data.len() > 0xFFFF_FFFF || old_len > 0xFFFF_FFFF - additional_data.len() {
            return Err(PolyglotError::SizeOverflow);
        }
        let n = self.parsed.chunks.len();
        let mut out: Vec<u8> = Vec::new();
        append_bytes(&mut out, &self.raw_data.as_slice()[0..8]);
        parser::write_chunk_run(&mut out, &self.parsed.chunks, 0, idx);
        let c = &self.parsed.chunks[idx];
        let mut grown: Vec<u8> = Vec::new();
        append_bytes(&mut grown, c.data.as_slice());
        append_bytes(&mut grown, additional_data);
        write_chunk(&mut out, &c.chunk_type, grown.as_slice());
        parser::write_chunk_run(&mut out, &self.parsed.chunks, idx + 1, n);
        proof {
            lemma_extend_parses(self.raw_data@, cs, idx as int, additional_data@, out@);
        }
        match parser::parse_png_chunks(out.as_slice()) {
            Ok(parsed) => {
                self.raw_data = out;
                self.parsed = parsed;
                Ok(())
            },
            Err(e) => Err(e),
        }
    }

    /// Recalculate CRC for all chunks: each chunk's stored checksum becomes
    /// the CRC-32 of its type and of the payload bytes now in `raw_data`;
    /// every other byte stays as it is.
    pub fn recalculate_crcs(&mut self) -> (r: PolyglotResult<()>)
        requires
            chunks_laid_out(old(self).raw_data@, old(self).parsed@),
        ensures
            r is Ok,
            final(self).parsed == old(self).parsed,
            final(self).raw_data@.len() == old(self).raw_data@.len(),
            forall|i: int|
                0 <= i < old(self).parsed@.len() ==> checksum_current(
                    final(self).raw_data@,
                    #[trigger] old(self).parsed@[i],
                ),
            forall|p: int|
                0 <= p < old(self).raw_data@.len() && outside_crc_fields(old(self).parsed@, old(self).parsed@.len() as int, p)
                    ==> #[trigger] final(self).raw_data@[p] == old(self).raw_data@[p],
    {
        let ghost cs = self.parsed@;
        let ghost raw = self.raw_data@;
        let n = self.parsed.chunks.len();
        let raw_len = self.raw_data.len();
        let mut j: usize = 0;
        while j < n
            invariant
                n == cs.len(),
                cs == self.parsed@,
                self.parsed == old(self).parsed,
                raw == old(self).raw_data@,
                raw_len == raw.len(),
                self.raw_data@.len() == raw.len(),
                j <= n,
                chunks_laid_out(raw, cs),
                forall|i: int| 0 <= i < j ==> checksum_current(self.raw_data@, #[trigger] cs[i]),
                forall|p: int|
                    0 <= p < raw.len() && outside_crc_fields(cs, j as int, p) ==> #[trigger] self.raw_data@[p]
                        == raw[p],
            decreases n - j,
        {
            let c = &self.parsed.chunks[j];
            assert(cs[j as int] == c@);
            let ghost cur = self.raw_data@;
            let data_start = c.data_offset;
            let data_end = data_start + c.length as usize;
            let mut crc_data: Vec<u8> = Vec::new();
            append_bytes(&mut crc_data, &c.chunk_type);
            append_bytes(&mut crc_data, &self.raw_data.as_slice()[data_start..data_end]);
            let new_crc = crate::utils::calculate_crc32(crc_data.as_slice());
            write_u32_be(&mut self.raw_data, data_end, new_crc);
            proof {
                let next = self.raw_data@;
                crate::utils::lemma_be32_bytes(new_crc);
                assert(next.subrange(data_start as int, data_end as int) =~= cur.subrange(
                    data_start as int,
                    data_end as int,
                ));
                assert(crc_data@ =~= c@.kind + cur.subrange(data_start as int, data_end as int));
                assert(next.subrange(data_end as int, data_end + 4) =~= be32_bytes(new_crc));
                assert(checksum_current(next, cs[j as int]));
                assert forall|i: int| 0 <= i < j + 1 implies checksum_current(next, #[trigger] cs[i]) by {
                    if i < j {
                        let ci = cs[i];
                        assert(crc_field(ci) + 4 <= cs[j as int].data_offset);
                        assert(next.subrange(ci.data_offset, crc_field(ci)) =~= cur.subrange(
                            ci.data_offset,
                            crc_field(ci),
                        ));
                        assert(next.subrange(crc_field(ci), crc_field(ci) + 4) =~= cur.subrange(
                            crc_field(ci),
                            crc_field(ci) + 4,
                        ));
                        assert(checksum_current(cur, ci));
                        assert(next[crc_field(ci)] == cur[crc_field(ci)]);
                        assert(next[crc_field(ci) + 1] == cur[crc_field(ci) + 1]);
                        assert(next[crc_field(ci) + 2] == cur[crc_field(ci) + 2]);
                        assert(next[crc_field(ci) + 3] == cur[crc_field(ci) + 3]);
                    }
                }
                assert forall|p: int|
                    0 <= p < raw.len() && outside_crc_fields(cs, j + 1, p) implies #[trigger] next[p]
                        == raw[p] by {
                    assert(!(crc_field(cs[j as int]) <= p < crc_field(cs[j as int]) + 4));
                    assert(outside_crc_fields(cs, j as int, p));
                }
            }
            j = j + 1;
        }
        Ok(())
    }

    /// Get the raw data
    pub fn as_bytes(&self) -> (r: &[u8])
        ensures
            r@ == self.raw_data@,
    {
        self.raw_data.as_slice()
    }
}

/// The bytes that `add_zip_text_chunk` builds parse as the old chunks with
/// the text chunk before the terminal one.
pub proof fn lemma_text_insertion_parses(png: PngFile, payload: Seq<u8>)
    requires
        png.wf(),
        ends_with_iend(png.parsed@),
        payload.len() <= u32::MAX,
    ensures
        png_parse(
            png_magic() + chunks_bytes(insert_before_last(png.parsed@, text_chunk(payload)))
                + after_chunks(png.raw_data@, png.parsed@),
        ) == Ok::<Seq<ChunkModel>, PngFault>(
            parser::layout(insert_before_last(png.parsed@, text_chunk(payload)), 8),
        ),
{
    reveal(PngFile::wf);
    let cs = png.parsed@;
    let raw = png.raw_data@;
    lemma_parsed_storable(raw, 8);
    lemma_tags_differ();
    let n = cs.len();
    let a = cs.subrange(0, n - 1);
    let b = cs.subrange(n - 1, n as int);
    let target = insert_before_last(cs, text_chunk(payload));
    assert(target =~= a + seq![text_chunk(payload)] + b);
    assert(a + b =~= cs);
    lemma_storable_parts(target, a, text_chunk(payload), b);
    assert(ends_with_iend(target));
    let tail = after_chunks(raw, cs);
    lemma_parse_stored(png_magic(), target, tail);
    let out = png_magic() + chunks_bytes(target) + tail;
    assert(out.subrange(0, 8) =~= png_magic());
    assert(parser::layout(target, 8).len() > 0) by {
        parser::lemma_layout_fields(target, 8);
    }
}

/// The first image-data chunk of a consistent container lies whole within
/// its bytes.
pub proof fn lemma_first_idat_placed(png: PngFile)
    requires
        png.wf(),
    ensures
        first_of_kind(png.parsed@, idat_tag()) matches Some(i) ==> {
            &&& is_first_of_kind(png.parsed@, idat_tag(), i)
            &&& png.parsed@[i].data_offset + png.parsed@[i].data.len() + 4 <= png.raw_data@.len()
        },
{
    reveal(PngFile::wf);
    lemma_parsed_storable(png.raw_data@, 8);
    parser::lemma_first_of_kind(png.parsed@, idat_tag());
    if let Some(i) = first_of_kind(png.parsed@, idat_tag()) {
        assert(parser::placed(png.raw_data@, 8, png.parsed@[i]));
    }
}

/// Where the checksum of chunk `c` is stored: right after its data.
pub open spec fn crc_field(c: ChunkModel) -> int {
    c.data_offset + c.length
}

/// The chunks lie in order in `raw`: each one's data and checksum fit, and
/// each checksum ends before the data of every later chunk.
pub open spec fn chunks_laid_out(raw: Seq<u8>, cs: Seq<ChunkModel>) -> bool {
    &&& forall|i: int|
        0 <= i < cs.len() ==> 0 <= (#[trigger] cs[i]).data_offset && crc_field(cs[i]) + 4
            <= raw.len()
    &&& forall|i: int, j: int|
        0 <= i < j < cs.len() ==> crc_field(#[trigger] cs[i]) + 4 <= (#[trigger] cs[j]).data_offset
}

/// The stored checksum of `c` is the CRC-32 of its type and of the payload
/// bytes now in `raw`.
pub open spec fn checksum_current(raw: Seq<u8>, c: ChunkModel) -> bool {
    be32(raw, crc_field(c)) == crc32_of(c.kind + raw.subrange(c.data_offset, crc_field(c)))
}

/// Byte `p` lies outside the checksum fields of the first `n` chunks.
pub open spec fn outside_crc_fields(cs: Seq<ChunkModel>, n: int, p: int) -> bool {
    forall|i: int| 0 <= i < n ==> !(crc_field(#[trigger] cs[i]) <= p < crc_field(cs[i]) + 4)
}

proof fn lemma_chunks_laid_out(data: Seq<u8>, off: int)
    requires
        off >= 0,
        chunks_from(data, off) is Ok,
    ensures
        chunks_laid_out(data, chunks_from(data, off)->Ok_0),
        forall|i: int|
            0 <= i < chunks_from(data, off)->Ok_0.len() ==> off + 8 <= (#[trigger] chunks_from(
                data,
                off,
            )->Ok_0[i]).data_offset,
    decreases data.len() - off,
{
    lemma_parsed_storable(data, off);
    let all = chunks_from(data, off)->Ok_0;
    assert forall|i: int| 0 <= i < all.len() implies off + 8 <= (#[trigger] all[i]).data_offset && crc_field(
        all[i],
    ) + 4 <= data.len() by {
        assert(parser::placed(data, off, all[i]));
    }
    if off + 8 <= data.len() {
        let end = off + 8 + be32(data, off);
        if end + 4 <= data.len() {
            let kind = data.subrange(off + 4, off + 8);
            if parser::chunk_checksum_ok(kind, data.subrange(off + 8, end), be32(data, end)) && kind
                != iend_tag() {
                lemma_chunks_laid_out(data, end + 4);
                let rest = chunks_from(data, end + 4)->Ok_0;
                assert(all.len() == rest.len() + 1);
                assert forall|i: int| 0 < i < all.len() implies all[i] == rest[i - 1] by {}
                assert(crc_field(all[0]) == end);
                assert forall|i: int, j: int| 0 <= i < j < all.len() implies crc_field(#[trigger] all[i])
                    + 4 <= (#[trigger] all[j]).data_offset by {
                    assert(all[j] == rest[j - 1]);
                    if i > 0 {
                        assert(all[i] == rest[i - 1]);
                    }
                }
            }
        }
    }
}

/// The chunks of a consistent container lie in order in its bytes, as
/// `recalculate_crcs` needs.
pub proof fn lemma_parsed_chunks_laid_out(png: PngFile)
    requires
        png.wf(),
    ensures
        chunks_laid_out(png.raw_data@, png.parsed@),
{
    reveal(PngFile::wf);
    lemma_chunks_laid_out(png.raw_data@, 8);
}

/// What appending `extra` to the first image-data chunk does: it fails when
/// there is none or when the grown data no longer fits its length field,
/// and otherwise stores every chunk again with the grown one in place.
pub open spec fn appended_to_idat(
    before: PngFile,
    after: PngFile,
    extra: Seq<u8>,
    r: PolyglotResult<()>,
) -> bool {
    match first_of_kind(before.parsed@, idat_tag()) {
        None => r matches Err(PolyglotError::NoIdatChunk) && after == before,
        Some(i) => if before.parsed@[i].data.len() + extra.len() > u32::MAX {
            r matches Err(PolyglotError::SizeOverflow) && after == before
        } else {
            r is Ok && after.raw_data@ == png_magic() + chunks_bytes(
                extended(before.parsed@, i, extra),
            )
        },
    }
}

proof fn lemma_storable_parts(cs: Seq<ChunkModel>, a: Seq<ChunkModel>, c: ChunkModel, b: Seq<ChunkModel>)
    requires
        chunks_storable(a + b),
        c.kind.len() == 4,
        c.data.len() <= u32::MAX,
        c.kind != iend_tag(),
        cs == a + seq![c] + b,
        b.len() > 0,
    ensures
        chunks_storable(cs),
{
    assert forall|i: int| 0 <= i < cs.len() implies (#[trigger] cs[i]).kind.len() == 4
        && cs[i].data.len() <= u32::MAX && (i < cs.len() - 1 ==> cs[i].kind != iend_tag()) by {
        if i < a.len() {
            assert(cs[i] == (a + b)[i]);
        } else if i > a.len() {
            assert(cs[i] == (a + b)[i - 1]);
        }
    }
}

/// The bytes built by `add_zip_text_chunk` parse as the old chunks with the
/// text chunk placed before the terminal one.
proof fn lemma_insert_text_parses(
    raw: Seq<u8>,
    cs: Seq<ChunkModel>,
    payload: Seq<u8>,
    tail: Seq<u8>,
    out: Seq<u8>,
)
    requires
        png_parse(raw) == Ok::<Seq<ChunkModel>, PngFault>(cs),
        ends_with_iend(cs),
        payload.len() <= u32::MAX,
        raw.len() >= 8,
        out == raw.subrange(0, 8) + chunks_bytes(cs.subrange(0, cs.len() - 1)) + parser::chunk_bytes(
            text_tag(),
            payload,
        ) + chunks_bytes(cs.subrange(cs.len() - 1, cs.len() as int)) + tail,
    ensures
        png_parse(out) == Ok::<Seq<ChunkModel>, PngFault>(
            parser::layout(insert_before_last(cs, text_chunk(payload)), 8),
        ),
        out == png_magic() + chunks_bytes(insert_before_last(cs, text_chunk(payload))) + tail,
{
    lemma_parsed_storable(raw, 8);
    lemma_tags_differ();
    let n = cs.len();
    let a = cs.subrange(0, n - 1);
    let b = cs.subrange(n - 1, n as int);
    let target = insert_before_last(cs, text_chunk(payload));
    assert(target =~= a + seq![text_chunk(payload)] + b);
    assert(a + b =~= cs);
    lemma_storable_parts(target, a, text_chunk(payload), b);
    parser::lemma_chunks_bytes_split(a, text_chunk(payload), b);
    assert(raw.subrange(0, 8) =~= png_magic());
    assert(out =~= png_magic() + chunks_bytes(target) + tail);
    assert(ends_with_iend(target));
    lemma_parse_stored(png_magic(), target, tail);
    assert(out.subrange(0, 8) =~= png_magic());
}

/// The bytes built by `append_to_idat` parse as the old chunks with the grown
/// one in place.
proof fn lemma_extend_parses(raw: Seq<u8>, cs: Seq<ChunkModel>, i: int, extra: Seq<u8>, out: Seq<u8>)
    requires
        png_parse(raw) == Ok::<Seq<ChunkModel>, PngFault>(cs),
        0 <= i < cs.len(),
        cs[i].data.len() + extra.len() <= u32::MAX,
        raw.len() >= 8,
        out == raw.subrange(0, 8) + chunks_bytes(cs.subrange(0, i)) + parser::chunk_bytes(
            cs[i].kind,
            cs[i].data + extra,
        ) + chunks_bytes(cs.subrange(i + 1, cs.len() as int)),
    ensures
        png_parse(out) == Ok::<Seq<ChunkModel>, PngFault>(
            parser::layout(extended(cs, i, extra), 8),
        ),
        out == png_magic() + chunks_bytes(extended(cs, i, extra)),
{
    lemma_parsed_storable(raw, 8);
    let a = cs.subrange(0, i);
    let b = cs.subrange(i + 1, cs.len() as int);
    let target = extended(cs, i, extra);
    let c = target[i];
    assert(target =~= a + seq![c] + b);
    parser::lemma_chunks_bytes_split(a, c, b);
    assert(chunks_storable(target)) by {
        assert forall|k: int| 0 <= k < target.len() implies (#[trigger] target[k]).kind == cs[k].kind
            && (k != i ==> target[k] == cs[k]) by {}
    }
    assert(raw.subrange(0, 8) =~= png_magic());
    assert(out =~= png_magic() + chunks_bytes(target) + Seq::<u8>::empty());
    lemma_parse_stored(png_magic(), target, Seq::empty());
    assert(out.subrange(0, 8) =~= png_magic());
}

} // verus!
