//! WAV file format support for PNG+WAV parasitic polyglots (PNG embedded in RIFF chunks)

use vstd::prelude::*;

use crate::utils::{append_bytes, copy_range, has_at, le32, le32_bytes, png_magic, push_u32_le, read_u32_le};
use crate::{text, PolyglotError, PolyglotResult};

verus! {

/// RIFF chunk header (all chunks have this format)
#[derive(Debug, Clone)]
pub struct RiffChunkHeader {
    pub fourcc: [u8; 4],
    pub data_size: u32,
}

/// Generic RIFF chunk
#[derive(Debug, Clone)]
pub struct RiffChunk {
    pub header: RiffChunkHeader,
    pub data: Vec<u8>,
}

/// RIFF header (first 12 bytes)
#[derive(Debug, Clone)]
pub struct RiffHeader {
    pub file_size: u32,
}

/// fmt chunk (mandatory for WAV)
#[derive(Debug, Clone)]
pub struct FmtChunk {
    pub header: RiffChunkHeader,
    pub data: Vec<u8>,
}

/// data chunk (mandatory for WAV, contains audio samples)
#[derive(Debug, Clone)]
pub struct DataChunk {
    pub header: RiffChunkHeader,
    pub data: Vec<u8>,
}

/// Parsed RIFF/WAV structure (minimal for our needs)
#[derive(Debug, Clone)]
pub struct RiffStructure {
    pub header: RiffHeader,
    pub fmt_chunk: FmtChunk,
    pub data_chunk: DataChunk,
    pub additional_chunks: Vec<RiffChunk>,
}

/// WAV file handler for parasitic polyglots
#[derive(Debug, Clone)]
pub struct WavFile {
    pub raw_data: Vec<u8>,
    pub structure: RiffStructure,
}

/// The content of a RIFF chunk: its four-character code, its declared size
/// and its data.
pub struct RiffChunkModel {
    pub fourcc: Seq<u8>,
    pub size: u32,
    pub data: Seq<u8>,
}

/// The content of a parsed RIFF file.
pub struct RiffModel {
    pub file_size: u32,
    pub fmt: RiffChunkModel,
    pub data: RiffChunkModel,
    pub extra: Seq<RiffChunkModel>,
}

/// What a scan of the chunks has found so far.
pub struct RiffScan {
    pub fmt: Option<RiffChunkModel>,
    pub data: Option<RiffChunkModel>,
    pub extra: Seq<RiffChunkModel>,
}

/// Why bytes are not a RIFF file this library reads.
pub enum RiffFault {
    TooShort,
    Overrun,
    NoFmt,
    NoData,
}

pub open spec fn fmt_tag() -> Seq<u8> {
    seq![0x66u8, 0x6Du8, 0x74u8, 0x20u8]
}

pub open spec fn data_tag() -> Seq<u8> {
    seq![0x64u8, 0x61u8, 0x74u8, 0x61u8]
}

/// The code of the chunk that carries an embedded image.
pub open spec fn png_chunk_tag() -> Seq<u8> {
    seq![0x70u8, 0x6Eu8, 0x47u8, 0x20u8]
}

pub open spec fn riff_tag() -> Seq<u8> {
    seq![0x52u8, 0x49u8, 0x46u8, 0x46u8]
}

pub open spec fn wave_tag() -> Seq<u8> {
    seq![0x57u8, 0x41u8, 0x56u8, 0x45u8]
}

impl View for RiffChunkHeader {
    type V = (Seq<u8>, u32);

    open spec fn view(&self) -> (Seq<u8>, u32) {
        (self.fourcc@, self.data_size)
    }
}

impl View for RiffChunk {
    type V = RiffChunkModel;

    open spec fn view(&self) -> RiffChunkModel {
        RiffChunkModel { fourcc: self.header.fourcc@, size: self.header.data_size, data: self.data@ }
    }
}

impl View for RiffStructure {
    type V = RiffModel;

    open spec fn view(&self) -> RiffModel {
        RiffModel {
            file_size: self.header.file_size,
            fmt: RiffChunkModel {
                fourcc: self.fmt_chunk.header.fourcc@,
                size: self.fmt_chunk.header.data_size,
                data: self.fmt_chunk.data@,
            },
            data: RiffChunkModel {
                fourcc: self.data_chunk.header.fourcc@,
                size: self.data_chunk.header.data_size,
                data: self.data_chunk.data@,
            },
            extra: self.additional_chunks@.map_values(|c: RiffChunk| c@),
        }
    }
}

/// Scan the chunks from `off` on, each padded to an even size; a later
/// `fmt ` or `data` chunk replaces an earlier one, other chunks are kept in
/// order.
pub open spec fn riff_scan(d: Seq<u8>, off: int, acc: RiffScan) -> Result<RiffScan, RiffFault>
    decreases d.len() + 1 - off,
{
    if off < 0 || off + 8 > d.len() {
        Ok(acc)
    } else {
        let size = le32(d, off + 4);
        let end = off + 8 + size;
        if end > d.len() {
            Err(RiffFault::Overrun)
        } else {
            let c = RiffChunkModel { fourcc: d.subrange(off, off + 4), size: size as u32, data: d.subrange(off + 8, end) };
            let next = if c.fourcc == fmt_tag() {
                RiffScan { fmt: Some(c), data: acc.data, extra: acc.extra }
            } else if c.fourcc == data_tag() {
                RiffScan { fmt: acc.fmt, data: Some(c), extra: acc.extra }
            } else {
                RiffScan { fmt: acc.fmt, data: acc.data, extra: acc.extra.push(c) }
            };
            riff_scan(d, end + size % 2, next)
        }
    }
}

/// The structure of a RIFF file, or why there is none.
pub open spec fn riff_parse(d: Seq<u8>) -> Result<RiffModel, RiffFault> {
    if d.len() < 12 {
        Err(RiffFault::TooShort)
    } else {
        match riff_scan(d, 12, RiffScan { fmt: None, data: None, extra: Seq::empty() }) {
            Err(f) => Err(f),
            Ok(s) => if s.fmt is None {
                Err(RiffFault::NoFmt)
            } else if s.data is None {
                Err(RiffFault::NoData)
            } else {
                Ok(RiffModel { file_size: le32(d, 4) as u32, fmt: s.fmt->0, data: s.data->0, extra: s.extra })
            },
        }
    }
}

/// The content of an optional `fmt ` chunk.
pub open spec fn fmt_model(o: Option<FmtChunk>) -> Option<RiffChunkModel> {
    match o {
        Some(c) => Some(RiffChunkModel { fourcc: c.header.fourcc@, size: c.header.data_size, data: c.data@ }),
        None => None,
    }
}

/// The content of an optional `data` chunk.
pub open spec fn data_model(o: Option<DataChunk>) -> Option<RiffChunkModel> {
    match o {
        Some(c) => Some(RiffChunkModel { fourcc: c.header.fourcc@, size: c.header.data_size, data: c.data@ }),
        None => None,
    }
}

/// The error that reports `f`.
pub open spec fn reports_riff_fault(e: PolyglotError, f: RiffFault) -> bool {
    match f {
        RiffFault::TooShort | RiffFault::Overrun => e is WavParse,
        RiffFault::NoFmt | RiffFault::NoData => e is ChunkNotFound,
    }
}

/// The stored form of a chunk: code, little-endian size, data, and a zero
/// byte after an odd size.
pub open spec fn riff_chunk_bytes(fourcc: Seq<u8>, size: u32, data: Seq<u8>) -> Seq<u8> {
    fourcc + le32_bytes(size) + data + if size % 2 == 1 {
        seq![0u8]
    } else {
        Seq::empty()
    }
}

/// The stored form of a run of chunks.
pub open spec fn riff_chunks_bytes(cs: Seq<RiffChunkModel>) -> Seq<u8>
    decreases cs.len(),
{
    if cs.len() == 0 {
        Seq::empty()
    } else {
        riff_chunks_bytes(cs.drop_last()) + riff_chunk_bytes(cs.last().fourcc, cs.last().size, cs.last().data)
    }
}

/// The stored form of a RIFF structure: header, `fmt `, `data`, then the
/// other chunks.
pub open spec fn riff_bytes(m: RiffModel) -> Seq<u8> {
    riff_tag() + le32_bytes(m.file_size) + wave_tag() + riff_chunk_bytes(m.fmt.fourcc, m.fmt.size, m.fmt.data)
        + riff_chunk_bytes(m.data.fourcc, m.data.size, m.data.data) + riff_chunks_bytes(m.extra)
}

/// Number of bytes an embedded image adds: chunk header, data and padding.
pub open spec fn png_chunk_growth(n: int) -> int {
    8 + n + n % 2
}

/// The index of the first chunk that carries an embedded image.
pub open spec fn first_png_chunk(cs: Seq<RiffChunkModel>, i: int) -> Option<int>
    decreases cs.len() - i,
{
    if i < 0 || i >= cs.len() {
        None
    } else if cs[i].fourcc == png_chunk_tag() {
        Some(i)
    } else {
        first_png_chunk(cs, i + 1)
    }
}

/// Whether `t` holds the four bytes `a b c d`.
fn code_is(t: &[u8; 4], a: u8, b: u8, c: u8, d: u8) -> (r: bool)
    ensures
        r == (t@ == seq![a, b, c, d]),
{
    crate::png::parser::tag_is(t, a, b, c, d)
}

impl RiffStructure {
    /// Insert PNG data as custom RIFF chunk after data chunk
    pub fn insert_png_chunk(&mut self, png_data: &[u8]) -> (r: PolyglotResult<()>)
        ensures
            png_chunk_growth(png_data@.len() as int) > u32::MAX || old(self)@.file_size
                + png_chunk_growth(png_data@.len() as int) > u32::MAX ==> (r matches Err(
                PolyglotError::SizeOverflow,
            ) && final(self)@ == old(self)@),
            png_chunk_growth(png_data@.len() as int) <= u32::MAX && old(self)@.file_size
                + png_chunk_growth(png_data@.len() as int) <= u32::MAX ==> {
                &&& r is Ok
                &&& final(self)@ == RiffModel {
                    file_size: (old(self)@.file_size + png_chunk_growth(png_data@.len() as int)) as u32,
                    extra: old(self)@.extra.push(
                        RiffChunkModel {
                            fourcc: png_chunk_tag(),
                            size: png_data@.len() as u32,
                            data: png_data@,
                        },
                    ),
                    ..old(self)@
                }
            },
    {
        let png_size = png_data.len() as u64;
        if png_size > 0xFFFF_FFFF - 9 {
            return Err(PolyglotError::SizeOverflow);
        }
        let padding_size: u64 = if png_size % 2 == 1 { 1 } else { 0 };
        let additional_size = 8 + png_size + padding_size;
        if additional_size > 0xFFFF_FFFF {
            return Err(PolyglotError::SizeOverflow);
        }
        let new_total_size = self.header.file_size as u64 + additional_size;
        if new_total_size > 0xFFFF_FFFF {
            return Err(PolyglotError::SizeOverflow);
        }
        self.header.file_size = new_total_size as u32;
        let fourcc: [u8; 4] = [0x70, 0x6E, 0x47, 0x20];
        assert(fourcc@ =~= png_chunk_tag());
        let png_chunk = RiffChunk {
            header: RiffChunkHeader { fourcc, data_size: png_size as u32 },
            data: copy_range(png_data, 0, png_data.len()),
        };
        assert(png_chunk.data@ =~= png_data@);
        let ghost before = self.additional_chunks@.map_values(|c: RiffChunk| c@);
        self.additional_chunks.push(png_chunk);
        assert(self.additional_chunks@.map_values(|c: RiffChunk| c@) =~= before.push(png_chunk@));
        Ok(())
    }

    /// Get PNG data from embedded chunk if present
    pub fn extract_png_data(&self) -> (r: Option<Vec<u8>>)
        ensures
            first_png_chunk(self@.extra, 0) matches Some(i) ==> (r matches Some(v) && v@
                == self@.extra[i].data),
            first_png_chunk(self@.extra, 0) is None ==> r is None,
    {
        let mut i: usize = 0;
        while i < self.additional_chunks.len()
            invariant
                i <= self@.extra.len(),
                first_png_chunk(self@.extra, 0) == first_png_chunk(self@.extra, i as int),
            decreases self@.extra.len() - i,
        {
            let c = &self.additional_chunks[i];
            assert(self@.extra[i as int] == c@);
            if code_is(&c.header.fourcc, 0x70, 0x6E, 0x47, 0x20) {
                return Some(copy_range(c.data.as_slice(), 0, c.data.len()));
            }
            i = i + 1;
        }
        None
    }

    /// Parse RIFF structure from raw bytes
    pub fn parse(data: &[u8]) -> (r: PolyglotResult<Self>)
        ensures
            riff_parse(data@) matches Ok(m) ==> (r matches Ok(s) && s@ == m),
            riff_parse(data@) matches Err(f) ==> (r matches Err(e) && reports_riff_fault(e, f)),
    {
        if data.len() < 12 {
            return Err(PolyglotError::WavParse(text("Data too short for RIFF header")));
        }
        let file_size = read_u32_le(data, 4);
        let header = RiffHeader { file_size };
        let mut offset: usize = 12;
        let mut fmt_chunk: Option<FmtChunk> = None;
        let mut data_chunk: Option<DataChunk> = None;
        let mut additional_chunks: Vec<RiffChunk> = Vec::new();
        let ghost start = RiffScan { fmt: None, data: None, extra: Seq::empty() };
        let ghost mut acc = start;
        assert(additional_chunks@.map_values(|c: RiffChunk| c@) =~= Seq::<RiffChunkModel>::empty());
        while offset <= data.len() && data.len() - offset >= 8
            invariant
                12 <= offset,
                data@.len() >= 12,
                start == (RiffScan { fmt: None, data: None, extra: Seq::empty() }),
                riff_scan(data@, 12, start) == riff_scan(data@, offset as int, acc),
                acc.extra == additional_chunks@.map_values(|c: RiffChunk| c@),
                acc.fmt == fmt_model(fmt_chunk),
                acc.data == data_model(data_chunk),
            decreases data@.len() - offset,
        {
            let chunk_header = match Self::parse_chunk_header(&data[offset..data.len()]) {
                Ok(h) => h,
                Err(e) => return Err(e),
            };
            assert(chunk_header.fourcc@ =~= data@.subrange(offset as int, offset + 4));
            assert(chunk_header.data_size == le32(data@, offset + 4)) by {
                let sub = data@.subrange(offset as int, data@.len() as int);
                assert(sub[4] == data@[offset + 4]);
                assert(sub[5] == data@[offset + 5]);
                assert(sub[6] == data@[offset + 6]);
                assert(sub[7] == data@[offset + 7]);
            }
            let chunk_data_start = offset + 8;
            if chunk_header.data_size as usize > data.len() - chunk_data_start {
                assert(riff_scan(data@, offset as int, acc) == Err::<RiffScan, RiffFault>(RiffFault::Overrun));
                return Err(PolyglotError::WavParse(text("Chunk data extends beyond file")));
            }
            let chunk_data_end = chunk_data_start + chunk_header.data_size as usize;
            let chunk_data = copy_range(data, chunk_data_start, chunk_data_end);
            let size = chunk_header.data_size;
            let ghost c = RiffChunkModel {
                fourcc: data@.subrange(offset as int, offset + 4),
                size: size,
                data: data@.subrange(chunk_data_start as int, chunk_data_end as int),
            };
            let ghost next = if c.fourcc == fmt_tag() {
                RiffScan { fmt: Some(c), data: acc.data, extra: acc.extra }
            } else if c.fourcc == data_tag() {
                RiffScan { fmt: acc.fmt, data: Some(c), extra: acc.extra }
            } else {
                RiffScan { fmt: acc.fmt, data: acc.data, extra: acc.extra.push(c) }
            };
            assert(riff_scan(data@, offset as int, acc) == riff_scan(
                data@,
                chunk_data_end + size % 2,
                next,
            ));
            if code_is(&chunk_header.fourcc, 0x66, 0x6D, 0x74, 0x20) {
                fmt_chunk = Some(FmtChunk { header: chunk_header, data: chunk_data });
            } else if code_is(&chunk_header.fourcc, 0x64, 0x61, 0x74, 0x61) {
                data_chunk = Some(DataChunk { header: chunk_header, data: chunk_data });
            } else {
                let ghost before = additional_chunks@.map_values(|c: RiffChunk| c@);
                let chunk = RiffChunk { header: chunk_header, data: chunk_data };
                additional_chunks.push(chunk);
                assert(additional_chunks@.map_values(|c: RiffChunk| c@) =~= before.push(chunk@));
            }
            if size % 2 == 1 && chunk_data_end < data.len() {
                offset = chunk_data_end + 1;
            } else {
                offset = chunk_data_end;
                assert(riff_scan(data@, chunk_data_end + size % 2, next) == riff_scan(
                    data@,
                    chunk_data_end as int,
                    next,
                ));
            }
            proof {
                acc = next;
            }
        }
        let fmt_chunk = match fmt_chunk {
            Some(c) => c,
            None => return Err(PolyglotError::ChunkNotFound(text("fmt "))),
        };
        let data_chunk = match data_chunk {
            Some(c) => c,
            None => return Err(PolyglotError::ChunkNotFound(text("data"))),
        };
        Ok(RiffStructure { header, fmt_chunk, data_chunk, additional_chunks })
    }

    /// Parse a chunk header from data
    fn parse_chunk_header(data: &[u8]) -> (r: PolyglotResult<RiffChunkHeader>)
        ensures
            data@.len() < 8 ==> r matches Err(PolyglotError::WavParse(_)),
            data@.len() >= 8 ==> (r matches Ok(h) && h.fourcc@ == data@.subrange(0, 4) && h.data_size
                == le32(data@, 4)),
    {
        if data.len() < 8 {
            return Err(PolyglotError::WavParse(text("Insufficient data for chunk header")));
        }
        let fourcc: [u8; 4] = [data[0], data[1], data[2], data[3]];
        assert(fourcc@ =~= data@.subrange(0, 4));
        let data_size = read_u32_le(data, 4);
        Ok(RiffChunkHeader { fourcc, data_size })
    }

    /// Rebuild raw bytes from structure
    pub fn to_bytes(&self) -> (r: PolyglotResult<Vec<u8>>)
        ensures
            r matches Ok(v) && v@ == riff_bytes(self@),
    {
        let mut result: Vec<u8> = Vec::new();
        let riff: [u8; 4] = [0x52, 0x49, 0x46, 0x46];
        let wave: [u8; 4] = [0x57, 0x41, 0x56, 0x45];
        append_bytes(&mut result, &riff);
        push_u32_le(&mut result, self.header.file_size);
        append_bytes(&mut result, &wave);
        Self::write_chunk(&mut result, &self.fmt_chunk.header, self.fmt_chunk.data.as_slice());
        Self::write_chunk(&mut result, &self.data_chunk.header, self.data_chunk.data.as_slice());
        let ghost head = result@;
        let ghost cs = self@.extra;
        assert(cs.subrange(0, 0) =~= Seq::<RiffChunkModel>::empty());
        let mut i: usize = 0;
        while i < self.additional_chunks.len()
            invariant
                i <= cs.len(),
                cs == self@.extra,
                result@ == head + riff_chunks_bytes(cs.subrange(0, i as int)),
            decreases cs.len() - i,
        {
            let chunk = &self.additional_chunks[i];
            assert(cs[i as int] == chunk@);
            Self::write_chunk(&mut result, &chunk.header, chunk.data.as_slice());
            assert(cs.subrange(0, i + 1).drop_last() =~= cs.subrange(0, i as int));
            i = i + 1;
        }
        assert(cs.subrange(0, cs.len() as int) =~= cs);
        assert(riff@ =~= riff_tag());
        assert(wave@ =~= wave_tag());
        assert(result@ =~= riff_bytes(self@));
        Ok(result)
    }

    /// Write a chunk to the output buffer
    fn write_chunk(output: &mut Vec<u8>, header: &RiffChunkHeader, data: &[u8])
        ensures
            final(output)@ == old(output)@ + riff_chunk_bytes(header.fourcc@, header.data_size, data@),
    {
        append_bytes(output, &header.fourcc);
        push_u32_le(output, header.data_size);
        append_bytes(output, data);
        if header.data_size % 2 == 1 {
            output.push(0);
        }
        assert(final(output)@ =~= old(output)@ + riff_chunk_bytes(header.fourcc@, header.data_size, data@));
    }
}

/// The outcome of reading `raw` as a WAV file.
pub open spec fn wav_outcome(raw: Seq<u8>, r: PolyglotResult<WavFile>) -> bool {
    if raw.len() < 12 {
        r matches Err(PolyglotError::WavParse(_))
    } else if raw.subrange(0, 4) != riff_tag() {
        r matches Err(PolyglotError::InvalidRiffHeader)
    } else if raw.subrange(8, 12) != wave_tag() {
        r matches Err(PolyglotError::WavParse(_))
    } else {
        match riff_parse(raw) {
            Ok(m) => r matches Ok(w) && w.raw_data@ == raw && w.structure@ == m,
            Err(f) => r matches Err(e) && reports_riff_fault(e, f),
        }
    }
}

/// The image embedded in a RIFF-first polyglot: the data of its first
/// image-carrying chunk.
pub open spec fn png_in_wav(d: Seq<u8>) -> Option<Seq<u8>> {
    if has_at(d, 0, png_magic()) {
        None
    } else if d.len() >= 12 && d.subrange(0, 4) == riff_tag() && riff_parse(d) is Ok {
        let m = riff_parse(d)->Ok_0;
        match first_png_chunk(m.extra, 0) {
            Some(i) => Some(m.extra[i].data),
            None => None,
        }
    } else {
        None
    }
}

/// Whether the four bytes of `d` at `at` are `a` and `b`.
fn quad_at(d: &[u8], at: usize, a: u8, b: u8, c: u8, e: u8) -> (r: bool)
    requires
        at + 4 <= d@.len(),
    ensures
        r == (d@.subrange(at as int, at + 4) == seq![a, b, c, e]),
{
    let r = d[at] == a && d[at + 1] == b && d[at + 2] == c && d[at + 3] == e;
    assert(r == (d@.subrange(at as int, at + 4) =~= seq![a, b, c, e]));
    r
}

impl WavFile {
    /// Load WAV file from raw data
    pub fn from_data(raw_data: Vec<u8>) -> (r: PolyglotResult<Self>)
        ensures
            wav_outcome(raw_data@, r),
    {
        if raw_data.len() < 12 {
            return Err(PolyglotError::WavParse(text("File too short for RIFF/WAV")));
        }
        if !quad_at(raw_data.as_slice(), 0, 0x52, 0x49, 0x46, 0x46) {
            return Err(PolyglotError::InvalidRiffHeader);
        }
        if !quad_at(raw_data.as_slice(), 8, 0x57, 0x41, 0x56, 0x45) {
            return Err(PolyglotError::WavParse(text("Not a WAVE file")));
        }
        match RiffStructure::parse(raw_data.as_slice()) {
            Ok(structure) => Ok(Self { raw_data, structure }),
            Err(e) => Err(e),
        }
    }

    /// Get raw data
    pub fn as_bytes(&self) -> (r: &[u8])
        ensures
            r@ == self.raw_data@,
    {
        self.raw_data.as_slice()
    }

    /// Embed PNG data as custom RIFF chunk (WAV-dominant polyglot)
    pub fn embed_png_data(&mut self, png_data: &[u8]) -> (r: PolyglotResult<()>)
        ensures
            png_chunk_growth(png_data@.len() as int) > u32::MAX || old(self).structure@.file_size
                + png_chunk_growth(png_data@.len() as int) > u32::MAX ==> (r matches Err(
                PolyglotError::SizeOverflow,
            ) && final(self).structure@ == old(self).structure@ && final(self).raw_data@ == old(
                self,
            ).raw_data@),
            png_chunk_growth(png_data@.len() as int) <= u32::MAX && old(self).structure@.file_size
                + png_chunk_growth(png_data@.len() as int) <= u32::MAX ==> {
                &&& r is Ok
                &&& final(self).structure@ == RiffModel {
                    file_size: (old(self).structure@.file_size + png_chunk_growth(
                        png_data@.len() as int,
                    )) as u32,
                    extra: old(self).structure@.extra.push(
                        RiffChunkModel {
                            fourcc: png_chunk_tag(),
                            size: png_data@.len() as u32,
                            data: png_data@,
                        },
                    ),
                    ..old(self).structure@
                }
                &&& final(self).raw_data@ == riff_bytes(final(self).structure@)
            },
    {
        match self.structure.insert_png_chunk(png_data) {
            Ok(()) => {},
            Err(e) => return Err(e),
        }
        match self.structure.to_bytes() {
            Ok(bytes) => {
                self.raw_data = bytes;
                Ok(())
            },
            Err(e) => Err(e),
        }
    }

    /// Load WAV-dominant polyglot and extract PNG data if present
    pub fn extract_png_from_wav_polyglot(wav_data: &[u8]) -> (r: Option<Vec<u8>>)
        ensures
            png_in_wav(wav_data@) matches Some(p) ==> (r matches Some(v) && v@ == p),
            png_in_wav(wav_data@) is None ==> r is None,
    {
        if crate::utils::is_png_signature(wav_data) {
            return None;
        }
        if wav_data.len() >= 12 && quad_at(wav_data, 0, 0x52, 0x49, 0x46, 0x46) {
            if let Ok(structure) = RiffStructure::parse(wav_data) {
                return structure.extract_png_data();
            }
        }
        None
    }

    /// Extract embedded PNG data if present
    pub fn extract_png_data(&self) -> (r: Option<Vec<u8>>)
        ensures
            first_png_chunk(self.structure@.extra, 0) matches Some(i) ==> (r matches Some(v) && v@
                == self.structure@.extra[i].data),
            first_png_chunk(self.structure@.extra, 0) is None ==> r is None,
    {
        self.structure.extract_png_data()
    }
}

} // verus!
