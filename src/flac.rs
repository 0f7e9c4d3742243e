//! FLAC file format support for parasitic polyglots (PNG in PADDING blocks)

use vstd::prelude::*;

use crate::utils::{append_bytes, be32, be32_bytes, copy_range, push_u32_be, read_u32_be};
use crate::{text, PolyglotError, PolyglotResult};

verus! {

/// FLAC metadata block types
#[derive(Debug, Clone)]
pub enum MetadataBlock {
    StreamInfo(StreamInfo),
    Padding { length: u32, data: Vec<u8> },
    Application { id: [u8; 4], data: Vec<u8> },
    SeekTable(Vec<u8>),
    VorbisComment(Vec<u8>),
    Cuesheet(Vec<u8>),
    Picture(Vec<u8>),
    Unknown { block_type: u8, length: u32, data: Vec<u8> },
}

/// Parsed FLAC structure
#[derive(Debug, Clone)]
pub struct FlacStructure {
    pub streaminfo: StreamInfo,
    pub metadata_blocks: Vec<MetadataBlock>,
}

/// STREAMINFO block (always the first metadata block)
#[derive(Debug, Clone)]
pub struct StreamInfo {
    pub min_block_size: u16,
    pub max_block_size: u16,
    pub min_frame_size: u32,
    pub max_frame_size: u32,
    pub sample_rate: u32,
    pub channels: u8,
    pub bits_per_sample: u8,
    pub total_samples: u64,
    pub md5_signature: [u8; 16],
}

/// FLAC file handler for parasitic polyglots
#[derive(Debug, Clone)]
pub struct FlacFile {
    pub raw_data: Vec<u8>,
    pub structure: FlacStructure,
}

/// A metadata block as the scan reads it: type, declared length, data.
pub struct BlockModel {
    pub block_type: u8,
    pub length: u32,
    pub data: Seq<u8>,
}

/// Big-endian 16-bit value of the two bytes at `i`.
pub open spec fn be16(s: Seq<u8>, i: int) -> int {
    s[i] as int * 0x100 + s[i + 1] as int
}

/// The fields of a STREAMINFO block read from its 34 data bytes.
pub open spec fn stream_info_matches(si: StreamInfo, d: Seq<u8>) -> bool {
    let packed = be32(d, 12) as u32;
    &&& si.min_block_size == be16(d, 0)
    &&& si.max_block_size == be16(d, 2)
    &&& si.min_frame_size == be32(d, 4)
    &&& si.max_frame_size == be32(d, 8)
    &&& si.sample_rate == (packed >> 12u32) & 0xFFFFFu32
    &&& si.channels == ((packed >> 9u32) & 7u32) + 1
    &&& si.bits_per_sample == ((packed >> 4u32) & 0x1Fu32) + 1
    &&& si.total_samples == ((be32(d, 16) * 0x1_0000_0000 + be32(d, 20)) as u64) & 0xF_FFFF_FFFFu64
    &&& si.md5_signature@ == d.subrange(18, 34)
}

/// The block that a block of type `t`, declared length `length` and data
/// `data` parses to.
pub open spec fn block_matches(b: MetadataBlock, m: BlockModel) -> bool {
    match b {
        MetadataBlock::StreamInfo(si) => m.block_type == 0 && stream_info_matches(si, m.data),
        MetadataBlock::Padding { length, data } => m.block_type == 1 && length == m.length && data@
            == m.data,
        MetadataBlock::Application { id, data } => m.block_type == 2 && m.data.len() >= 4 && id@
            == m.data.subrange(0, 4) && data@ == m.data,
        MetadataBlock::SeekTable(data) => m.block_type == 3 && data@ == m.data,
        MetadataBlock::VorbisComment(data) => m.block_type == 4 && data@ == m.data,
        MetadataBlock::Cuesheet(_) => false,
        MetadataBlock::Picture(data) => m.block_type == 6 && data@ == m.data,
        MetadataBlock::Unknown { block_type, length, data } => (m.block_type == 5 || m.block_type > 6
            || (m.block_type == 2 && m.data.len() < 4)) && block_type == m.block_type && length
            == m.length && data@ == m.data,
    }
}

/// The metadata blocks from `off` on: each a type byte whose top bit marks
/// the last block, a big-endian 32-bit length read from the next four bytes,
/// and data that starts four bytes after the block.
pub open spec fn flac_scan(d: Seq<u8>, off: int) -> Option<Seq<BlockModel>>
    decreases d.len() - off,
{
    if off < 0 || off >= d.len() {
        Some(Seq::empty())
    } else if off + 5 > d.len() {
        None
    } else {
        let end = off + 4 + be32(d, off + 1);
        if end > d.len() {
            None
        } else {
            let b = BlockModel { block_type: d[off] & 0x7Fu8, length: be32(d, off + 1) as u32, data: d.subrange(off + 4, end) };
            if b.block_type == 0 && b.data.len() < 34 {
                None
            } else if d[off] & 0x80u8 != 0 {
                Some(seq![b])
            } else {
                match flac_scan(d, end) {
                    Some(rest) => Some(seq![b] + rest),
                    None => None,
                }
            }
        }
    }
}

/// `bs` placed in front of the blocks of `r`.
pub open spec fn prepend_blocks(bs: Seq<BlockModel>, r: Option<Seq<BlockModel>>) -> Option<Seq<BlockModel>> {
    match r {
        Some(rest) => Some(bs + rest),
        None => None,
    }
}

/// The stored form of one block, when it can be stored: only a padding
/// block can, as type 1, its length and its data.
pub open spec fn block_bytes(b: MetadataBlock) -> Option<Seq<u8>> {
    match b {
        MetadataBlock::Padding { data, .. } => if data@.len() > u32::MAX {
            None
        } else {
            Some(seq![1u8] + be32_bytes(data@.len() as u32) + data@)
        },
        _ => None,
    }
}

/// The stored form of the blocks, when all of them can be stored.
pub open spec fn flac_blocks_bytes(bs: Seq<MetadataBlock>) -> Option<Seq<u8>>
    decreases bs.len(),
{
    if bs.len() == 0 {
        Some(Seq::empty())
    } else {
        match (flac_blocks_bytes(bs.drop_last()), block_bytes(bs.last())) {
            (Some(prefix), Some(b)) => Some(prefix + b),
            _ => None,
        }
    }
}

/// The declared length of a padding block.
pub open spec fn padding_length(b: MetadataBlock) -> Option<u32> {
    match b {
        MetadataBlock::Padding { length, .. } => Some(length),
        _ => None,
    }
}

/// `b` is a padding block that holds `png` followed by zero bytes up to its
/// declared length.
pub open spec fn padding_holds(b: MetadataBlock, png: Seq<u8>) -> bool {
    match b {
        MetadataBlock::Padding { length, data } => data@ == padded(png, length as int),
        _ => false,
    }
}

/// `s` is what parsing `d` with the blocks `bs` after STREAMINFO gives.
pub open spec fn parsed_as(s: FlacStructure, d: Seq<u8>, bs: Seq<BlockModel>) -> bool {
    &&& stream_info_matches(s.streaminfo, d.subrange(8, 42))
    &&& s.metadata_blocks@.len() == bs.len() + 1
    &&& (s.metadata_blocks@[0] matches MetadataBlock::StreamInfo(si) && stream_info_matches(
        si,
        d.subrange(8, 42),
    ))
    &&& forall|i: int| 0 <= i < bs.len() ==> block_matches(#[trigger] s.metadata_blocks@[i + 1], bs[i])
}

pub open spec fn flac_tag() -> Seq<u8> {
    seq![0x66u8, 0x4Cu8, 0x61u8, 0x43u8]
}

/// The first padding block at or after `i` whose declared length holds `n`
/// bytes.
pub open spec fn first_fitting_padding(bs: Seq<MetadataBlock>, n: int, i: int) -> Option<int>
    decreases bs.len() - i,
{
    if i < 0 || i >= bs.len() {
        None
    } else if bs[i] matches MetadataBlock::Padding { length, .. } && length >= n {
        Some(i)
    } else {
        first_fitting_padding(bs, n, i + 1)
    }
}

/// What `first_fitting_padding` finds is a padding block that holds `n`
/// bytes.
pub proof fn lemma_first_fitting(bs: Seq<MetadataBlock>, n: int, k: int)
    ensures
        first_fitting_padding(bs, n, k) matches Some(i) ==> (0 <= i < bs.len() && padding_length(
            bs[i],
        ) is Some && padding_length(bs[i])->0 >= n),
    decreases bs.len() - k,
{
    if 0 <= k < bs.len() && !(bs[k] matches MetadataBlock::Padding { length, .. } && length >= n) {
        lemma_first_fitting(bs, n, k + 1);
    }
}

/// `png` followed by zero bytes up to `length`.
pub open spec fn padded(png: Seq<u8>, length: int) -> Seq<u8> {
    png + Seq::new((length - png.len()) as nat, |k: int| 0u8)
}

impl FlacFile {
    /// Load FLAC file from raw data: the signature, then the structure.
    pub fn from_data(raw_data: Vec<u8>) -> (r: PolyglotResult<Self>)
        ensures
            raw_data@.len() < 8 || raw_data@.subrange(0, 4) != flac_tag() || raw_data@.len() < 42
                || flac_scan(raw_data@, 42) is None ==> r matches Err(PolyglotError::PngParse(_)),
            !(raw_data@.len() < 8 || raw_data@.subrange(0, 4) != flac_tag() || raw_data@.len() < 42
                || flac_scan(raw_data@, 42) is None) ==> (r matches Ok(f) && f.raw_data@ == raw_data@
                && parsed_as(f.structure, raw_data@, flac_scan(raw_data@, 42)->0)),
    {
        if raw_data.len() < 8 {
            return Err(PolyglotError::PngParse(text("File too short for FLAC")));
        }
        let sig_ok = raw_data[0] == 0x66 && raw_data[1] == 0x4C && raw_data[2] == 0x61 && raw_data[3]
            == 0x43;
        assert(sig_ok == (raw_data@.subrange(0, 4) =~= flac_tag()));
        if !sig_ok {
            return Err(PolyglotError::PngParse(text("Invalid FLAC signature")));
        }
        match FlacStructure::parse(raw_data.as_slice()) {
            Ok(structure) => Ok(Self { raw_data, structure }),
            Err(e) => Err(e),
        }
    }

    /// Inject PNG data into PADDING metadata blocks (parasitic embedding)
    pub fn inject_png_to_padding(&mut self, png_data: &[u8]) -> (r: PolyglotResult<()>)
        ensures
            ({
                let bs = old(self).structure.metadata_blocks@;
                match first_fitting_padding(bs, png_data@.len() as int, 0) {
                    None => r matches Err(PolyglotError::InvalidInput(_)) && *final(self) == *old(self),
                    Some(i) => {
                        let nbs = final(self).structure.metadata_blocks@;
                        &&& nbs.len() == bs.len()
                        &&& forall|j: int| 0 <= j < bs.len() && j != i ==> nbs[j] == bs[j]
                        &&& padding_holds(nbs[i], png_data@)
                        &&& padding_length(nbs[i]) == padding_length(bs[i])
                        &&& match flac_blocks_bytes(nbs) {
                            Some(b) => r is Ok && final(self).raw_data@ == flac_tag() + b,
                            None => r matches Err(PolyglotError::InvalidInput(_))
                                && final(self).raw_data@ == old(self).raw_data@,
                        }
                    },
                }
            }),
    {
        proof {
            lemma_first_fitting(self.structure.metadata_blocks@, png_data@.len() as int, 0);
        }
        let block_idx = match self.find_or_create_padding_for_png(png_data.len()) {
            Ok(p) => p.0,
            Err(e) => return Err(e),
        };
        match self.replace_padding_content(block_idx, png_data) {
            Ok(()) => {},
            Err(e) => return Err(e),
        }
        match self.structure.to_bytes() {
            Ok(bytes) => {
                self.raw_data = bytes;
                Ok(())
            },
            Err(e) => Err(e),
        }
    }

    /// Find existing PADDING block large enough for PNG
    fn find_or_create_padding_for_png(&self, png_size: usize) -> (r: PolyglotResult<(usize, &MetadataBlock)>)
        ensures
            first_fitting_padding(self.structure.metadata_blocks@, png_size as int, 0) matches Some(i)
                ==> (r matches Ok(p) && p.0 == i && *p.1 == self.structure.metadata_blocks@[i]),
            first_fitting_padding(self.structure.metadata_blocks@, png_size as int, 0) is None ==> r
                matches Err(PolyglotError::InvalidInput(_)),
    {
        let bs = &self.structure.metadata_blocks;
        let mut i: usize = 0;
        while i < bs.len()
            invariant
                i <= bs@.len(),
                bs == &self.structure.metadata_blocks,
                first_fitting_padding(bs@, png_size as int, 0) == first_fitting_padding(
                    bs@,
                    png_size as int,
                    i as int,
                ),
            decreases bs@.len() - i,
        {
            let block = &bs[i];
            assert(bs@[i as int] == *block);
            if let MetadataBlock::Padding { length, .. } = block {
                if *length as usize >= png_size {
                    assert(first_fitting_padding(bs@, png_size as int, i as int) == Some(i as int));
                    return Ok((i, block));
                }
            }
            i = i + 1;
        }
        Err(PolyglotError::InvalidInput(text("No PADDING block large enough for the PNG data found in FLAC file")))
    }

    /// Replace the content of a PADDING block with PNG data
    fn replace_padding_content(&mut self, block_idx: usize, png_data: &[u8]) -> (r: PolyglotResult<()>)
        requires
            block_idx < old(self).structure.metadata_blocks@.len(),
            padding_length(old(self).structure.metadata_blocks@[block_idx as int]) matches Some(l) && l
                >= png_data@.len(),
        ensures
            r is Ok,
            final(self).raw_data == old(self).raw_data,
            final(self).structure.streaminfo == old(self).structure.streaminfo,
            final(self).structure.metadata_blocks@ == old(self).structure.metadata_blocks@.update(
                block_idx as int,
                final(self).structure.metadata_blocks@[block_idx as int],
            ),
            padding_holds(final(self).structure.metadata_blocks@[block_idx as int], png_data@),
            padding_length(final(self).structure.metadata_blocks@[block_idx as int]) == padding_length(
                old(self).structure.metadata_blocks@[block_idx as int],
            ),
    {
        let length = match &self.structure.metadata_blocks[block_idx] {
            MetadataBlock::Padding { length, .. } => *length,
            _ => return Ok(()),
        };
        let mut data: Vec<u8> = Vec::new();
        append_bytes(&mut data, png_data);
        let mut k = png_data.len();
        while k < length as usize
            invariant
                png_data@.len() <= k <= length,
                data@ == padded(png_data@, k as int),
            decreases length - k,
        {
            data.push(0);
            k = k + 1;
            assert(data@ =~= padded(png_data@, k as int));
        }
        assert(data@ =~= padded(png_data@, length as int));
        self.structure.metadata_blocks.set(block_idx, MetadataBlock::Padding { length, data });
        Ok(())
    }

    /// Get raw data
    pub fn as_bytes(&self) -> (r: &[u8])
        ensures
            r@ == self.raw_data@,
    {
        self.raw_data.as_slice()
    }
}

impl FlacStructure {
    /// Parse the STREAMINFO block after the signature, then the metadata
    /// blocks up to the one marked last.
    pub fn parse(data: &[u8]) -> (r: PolyglotResult<Self>)
        ensures
            data@.len() < 42 ==> r matches Err(PolyglotError::PngParse(_)),
            data@.len() >= 42 && flac_scan(data@, 42) is None ==> r matches Err(
                PolyglotError::PngParse(_),
            ),
            data@.len() >= 42 && flac_scan(data@, 42) is Some ==> (r matches Ok(s) && parsed_as(
                s,
                data@,
                flac_scan(data@, 42)->0,
            )),
    {
        let (streaminfo, first_end) = match StreamInfo::parse(data, 4) {
            Ok(p) => p,
            Err(e) => return Err(e),
        };
        let mut offset = first_end;
        let (first, _) = match StreamInfo::parse(data, 4) {
            Ok(p) => p,
            Err(e) => return Err(e),
        };
        let mut metadata_blocks: Vec<MetadataBlock> = Vec::new();
        metadata_blocks.push(MetadataBlock::StreamInfo(first));
        let ghost mut seen: Seq<BlockModel> = Seq::empty();
        while offset < data.len()
            invariant
                42 <= offset,
                metadata_blocks@.len() == seen.len() + 1,
                (metadata_blocks@[0] matches MetadataBlock::StreamInfo(si) && stream_info_matches(
                    si,
                    data@.subrange(8, 42),
                )),
                stream_info_matches(streaminfo, data@.subrange(8, 42)),
                forall|i: int| 0 <= i < seen.len() ==> block_matches(#[trigger] metadata_blocks@[i + 1], seen[i]),
                flac_scan(data@, 42) == prepend_blocks(seen, flac_scan(data@, offset as int)),
            decreases data@.len() - offset,
        {
            let is_last = (data[offset] & 0x80) != 0;
            let (block, new_offset) = match Self::parse_metadata_block(data, offset) {
                Ok(p) => p,
                Err(e) => return Err(e),
            };
            let ghost b = BlockModel {
                block_type: data@[offset as int] & 0x7Fu8,
                length: be32(data@, offset + 1) as u32,
                data: data@.subrange(offset + 4, new_offset as int),
            };
            assert(block_matches(block, b));
            let ghost before = metadata_blocks@;
            metadata_blocks.push(block);
            proof {
                assert(seen + seq![b] + flac_scan(data@, new_offset as int)->0 =~= seen + (seq![b]
                    + flac_scan(data@, new_offset as int)->0));
                assert forall|i: int| 0 <= i < seen.len() + 1 implies block_matches(
                    #[trigger] metadata_blocks@[i + 1],
                    (seen + seq![b])[i],
                ) by {
                    if i < seen.len() {
                        assert(metadata_blocks@[i + 1] == before[i + 1]);
                    }
                }
                seen = seen + seq![b];
            }
            offset = new_offset;
            if is_last {
                assert(flac_scan(data@, 42) == Some(seen));
                return Ok(FlacStructure { streaminfo, metadata_blocks });
            }
        }
        assert(seen + Seq::<BlockModel>::empty() =~= seen);
        Ok(FlacStructure { streaminfo, metadata_blocks })
    }

    /// Parse the metadata block at `offset`: its type, its length and its data.
    fn parse_metadata_block(data: &[u8], offset: usize) -> (r: PolyglotResult<(MetadataBlock, usize)>)
        requires
            offset < data@.len(),
        ensures
            ({
                let d = data@;
                let off = offset as int;
                if off + 5 > d.len() || off + 4 + be32(d, off + 1) > d.len() {
                    r matches Err(PolyglotError::PngParse(_))
                } else {
                    let end = off + 4 + be32(d, off + 1);
                    let b = BlockModel { block_type: d[off] & 0x7Fu8, length: be32(d, off + 1) as u32, data: d.subrange(off + 4, end) };
                    if b.block_type == 0 && b.data.len() < 34 {
                        r matches Err(PolyglotError::PngParse(_))
                    } else {
                        r matches Ok(p) && p.1 == end && block_matches(p.0, b)
                    }
                }
            }),
    {
        if data.len() - offset < 5 {
            return Err(PolyglotError::PngParse(text("Truncated FLAC metadata block header")));
        }
        let block_type = data[offset] & 0x7F;
        let length = read_u32_be(data, offset + 1);
        let data_start = offset + 4;
        if length as usize > data.len() - data_start {
            return Err(PolyglotError::PngParse(text("FLAC metadata block extends beyond file")));
        }
        let data_end = data_start + length as usize;
        let block_data = copy_range(data, data_start, data_end);
        let block = if block_type == 0 {
            match StreamInfo::parse_from_data(block_data.as_slice()) {
                Ok(si) => MetadataBlock::StreamInfo(si),
                Err(e) => return Err(e),
            }
        } else if block_type == 1 {
            MetadataBlock::Padding { length, data: block_data }
        } else if block_type == 2 {
            if block_data.len() >= 4 {
                let id: [u8; 4] = [block_data[0], block_data[1], block_data[2], block_data[3]];
                assert(id@ =~= block_data@.subrange(0, 4));
                MetadataBlock::Application { id, data: block_data }
            } else {
                MetadataBlock::Unknown { block_type, length, data: block_data }
            }
        } else if block_type == 3 {
            MetadataBlock::SeekTable(block_data)
        } else if block_type == 4 {
            MetadataBlock::VorbisComment(block_data)
        } else if block_type == 6 {
            MetadataBlock::Picture(block_data)
        } else {
            MetadataBlock::Unknown { block_type, length, data: block_data }
        };
        Ok((block, data_end))
    }

    /// Serialize the metadata blocks after the signature; only padding
    /// blocks can be written.
    pub fn to_bytes(&self) -> (r: PolyglotResult<Vec<u8>>)
        ensures
            flac_blocks_bytes(self.metadata_blocks@) matches Some(b) ==> (r matches Ok(v) && v@
                == flac_tag() + b),
            flac_blocks_bytes(self.metadata_blocks@) is None ==> r matches Err(
                PolyglotError::InvalidInput(_),
            ),
    {
        let mut result: Vec<u8> = Vec::new();
        let sig: [u8; 4] = [0x66, 0x4C, 0x61, 0x43];
        append_bytes(&mut result, &sig);
        assert(sig@ =~= flac_tag());
        let bs = &self.metadata_blocks;
        let mut i: usize = 0;
        assert(bs@.subrange(0, 0) =~= Seq::<MetadataBlock>::empty());
        while i < bs.len()
            invariant
                i <= bs@.len(),
                bs == &self.metadata_blocks,
                flac_blocks_bytes(bs@.subrange(0, i as int)) is Some,
                result@ == flac_tag() + flac_blocks_bytes(bs@.subrange(0, i as int))->0,
            decreases bs@.len() - i,
        {
            let ghost prefix = flac_blocks_bytes(bs@.subrange(0, i as int))->0;
            assert(bs@.subrange(0, i + 1).drop_last() =~= bs@.subrange(0, i as int));
            assert(bs@[i as int] == bs[i as int]);
            match Self::write_metadata_block(&bs[i], &mut result) {
                Ok(()) => {},
                Err(e) => {
                    proof {
                        lemma_blocks_bytes_none(bs@, i as int);
                    }
                    return Err(e);
                },
            }
            i = i + 1;
        }
        assert(bs@.subrange(0, bs@.len() as int) =~= bs@);
        Ok(result)
    }

    /// Write one metadata block: a padding block as its type, length and
    /// data; any other kind cannot be written.
    fn write_metadata_block(block: &MetadataBlock, output: &mut Vec<u8>) -> (r: PolyglotResult<()>)
        ensures
            block_bytes(*block) matches Some(b) ==> (r is Ok && final(output)@ == old(output)@ + b),
            block_bytes(*block) is None ==> r matches Err(PolyglotError::InvalidInput(_)),
    {
        match block {
            MetadataBlock::Padding { data, .. } => {
                if data.len() > 0xFFFF_FFFF {
                    return Err(PolyglotError::InvalidInput(text("PADDING block too large")));
                }
                let length = data.len() as u32;
                output.push(1);
                push_u32_be(output, length);
                append_bytes(output, data.as_slice());
                Ok(())
            },
            MetadataBlock::StreamInfo(streaminfo) => {
                output.push(0);
                streaminfo.write_to(output)
            },
            _ => Err(PolyglotError::InvalidInput(text("Block serialization not implemented"))),
        }
    }
}

/// Serialization fails from the first block on that cannot be written.
proof fn lemma_blocks_bytes_none(bs: Seq<MetadataBlock>, i: int)
    requires
        0 <= i < bs.len(),
        block_bytes(bs[i]) is None,
    ensures
        flac_blocks_bytes(bs) is None,
    decreases bs.len(),
{
    if i < bs.len() - 1 {
        assert(bs.drop_last()[i] == bs[i]);
        lemma_blocks_bytes_none(bs.drop_last(), i);
    }
}

impl StreamInfo {
    /// Parse the STREAMINFO block whose header is at `offset`; returns the
    /// block and the offset after its 34 data bytes.
    pub fn parse(data: &[u8], offset: usize) -> (r: PolyglotResult<(StreamInfo, usize)>)
        ensures
            offset + 4 + 34 > data@.len() ==> r matches Err(PolyglotError::PngParse(_)),
            offset + 4 + 34 <= data@.len() ==> (r matches Ok(p) && p.1 == offset + 38
                && stream_info_matches(p.0, data@.subrange(offset + 4, offset + 38))),
    {
        if offset > data.len() || data.len() - offset < 38 {
            return Err(PolyglotError::PngParse(text("STREAMINFO data too short")));
        }
        let block_start = offset + 4;
        match Self::parse_from_data(&data[block_start..block_start + 34]) {
            Ok(si) => Ok((si, block_start + 34)),
            Err(e) => Err(e),
        }
    }

    /// Read the STREAMINFO fields from its data bytes.
    pub fn parse_from_data(data: &[u8]) -> (r: PolyglotResult<StreamInfo>)
        ensures
            data@.len() < 34 ==> r matches Err(PolyglotError::PngParse(_)),
            data@.len() >= 34 ==> (r matches Ok(si) && stream_info_matches(si, data@)),
    {
        if data.len() < 34 {
            return Err(PolyglotError::PngParse(text("STREAMINFO data too short")));
        }
        let min_block_size = data[0] as u16 * 0x100 + data[1] as u16;
        let max_block_size = data[2] as u16 * 0x100 + data[3] as u16;
        let min_frame_size = read_u32_be(data, 4);
        let max_frame_size = read_u32_be(data, 8);
        let packed = read_u32_be(data, 12);
        let sample_rate = (packed >> 12) & 0xFFFFF;
        let channel_bits = (packed >> 9) & 0x07;
        let depth_bits = (packed >> 4) & 0x1F;
        assert(channel_bits <= 7) by (bit_vector)
            requires
                channel_bits == (packed >> 9u32) & 0x07u32,
        ;
        assert(depth_bits <= 31) by (bit_vector)
            requires
                depth_bits == (packed >> 4u32) & 0x1Fu32,
        ;
        let channels = (channel_bits + 1) as u8;
        let bits_per_sample = (depth_bits + 1) as u8;
        let high = read_u32_be(data, 16) as u64;
        let low = read_u32_be(data, 20) as u64;
        let total_samples = (high * 0x1_0000_0000 + low) & 0xF_FFFF_FFFF;
        let md5_signature: [u8; 16] = [
            data[18], data[19], data[20], data[21], data[22], data[23], data[24], data[25],
            data[26], data[27], data[28], data[29], data[30], data[31], data[32], data[33],
        ];
        assert(md5_signature@ =~= data@.subrange(18, 34));
        Ok(StreamInfo {
            min_block_size,
            max_block_size,
            min_frame_size,
            max_frame_size,
            sample_rate,
            channels,
            bits_per_sample,
            total_samples,
            md5_signature,
        })
    }

    /// Writing STREAMINFO is not supported; the output is left as it is.
    pub fn write_to(&self, output: &mut Vec<u8>) -> (r: PolyglotResult<()>)
        ensures
            r matches Err(PolyglotError::InvalidInput(_)),
            final(output)@ == old(output)@,
    {
        Err(PolyglotError::InvalidInput(text("STREAMINFO serialization not implemented yet")))
    }
}

} // verus!
