//! Core polyglot creation logic: the three embedding strategies.

use vstd::prelude::*;

use crate::png::parser::{
    chunks_bytes, ends_with_iend, first_of_kind, idat_tag, png_parse, reports_png_fault,
};
use crate::png::{extended, insert_before_last, text_chunk, after_chunks, PngFile};
use crate::utils::{
    append_bytes, copy_range, crc32_of, le16_bytes, le32_bytes, png_magic, push_u16_le, push_u32_le,
};
use crate::zip::offsets::{eocd_position, is_zip64};
use crate::zip::{archive_ok, relocated, shift_allowed, ZipArchive};
use crate::wav::{riff_bytes, png_chunk_growth, WavFile};
use crate::png::appended_to_idat;
use crate::png::parser::{chunk_bytes, iend_tag, write_chunk};
use crate::{PolyglotError, PolyglotResult};

verus! {

/// Which of the three strategies builds the polyglot.
#[derive(Debug, Clone, Copy, PartialEq, Eq, Structural)]
pub enum EmbedMethod {
    /// The container is stored as the single entry of a new archive.
    Zip,
    /// The archive is appended to the first image-data chunk.
    Idat,
    /// The archive is wrapped in a new text chunk before the terminal chunk.
    Text,
}

/// Core orchestrator for creating PNG/ZIP polyglots
pub struct PolyglotCreator {
    png: PngFile,
    zip: ZipArchive,
}

/// Core orchestrator for creating PNG/WAV bidirectional polyglots (PNG-dominant - embeds WAV in PNG)
pub struct PngWavPolyglotCreator {
    png: PngFile,
    wav: WavFile,
}

/// Core orchestrator for creating WAV/PNG bidirectional polyglots (WAV-dominant - embeds PNG in WAV)
pub struct WavPngPolyglotCreator {
    wav: WavFile,
    png: PngFile,
}

/// Core orchestrator for a PNG/WAV polyglot built from scratch: a minimal
/// image whose single image-data chunk holds the audio file.
pub struct TrueBidirectionalPngWavCreator {
    png: PngFile,
    wav: WavFile,
}

/// The name under which the archive-wrapping strategy stores the image.
pub open spec fn image_name() -> Seq<u8> {
    seq![0x69u8, 0x6Du8, 0x61u8, 0x67u8, 0x65u8, 0x2Eu8, 0x70u8, 0x6Eu8, 0x67u8]
}

/// Offset of the stored data in the archive-wrapping layout: the local
/// header's fixed part and the name.
pub open spec fn wrapped_data_offset() -> int {
    39
}

/// The local header of the archive-wrapping layout.
pub open spec fn wrap_local(data: Seq<u8>) -> Seq<u8> {
    seq![0x50u8, 0x4Bu8, 0x03u8, 0x04u8, 0x0Au8, 0u8, 0u8, 0u8, 0u8, 0u8, 0u8, 0u8, 0u8, 0u8]
        + le32_bytes(crc32_of(data)) + le32_bytes(data.len() as u32) + le32_bytes(data.len() as u32)
        + le16_bytes(9) + seq![0u8, 0u8] + image_name()
}

/// The single directory entry of the archive-wrapping layout; its header
/// offset is 0, where the local header stands.
pub open spec fn wrap_central(data: Seq<u8>) -> Seq<u8> {
    seq![
        0x50u8, 0x4Bu8, 0x01u8, 0x02u8, 0x0Au8, 0x03u8, 0x0Au8, 0u8, 0u8, 0u8, 0u8, 0u8, 0u8, 0u8, 0u8, 0u8,
    ] + le32_bytes(crc32_of(data)) + le32_bytes(data.len() as u32) + le32_bytes(data.len() as u32)
        + le16_bytes(9) + seq![0u8, 0u8, 0u8, 0u8, 0u8, 0u8, 0u8, 0u8, 0u8, 0u8, 0u8, 0u8]
        + le32_bytes(0) + image_name()
}

/// The trailer of the archive-wrapping layout.
pub open spec fn wrap_trailer(data: Seq<u8>) -> Seq<u8> {
    seq![0x50u8, 0x4Bu8, 0x05u8, 0x06u8, 0u8, 0u8, 0u8, 0u8, 1u8, 0u8, 1u8, 0u8] + le32_bytes(55)
        + le32_bytes((wrapped_data_offset() + data.len()) as u32) + seq![0u8, 0u8]
}

/// The archive that stores `data` as its single, uncompressed entry: local
/// header, data, one directory entry, trailer.
pub open spec fn zip_wrapping(data: Seq<u8>) -> Seq<u8> {
    wrap_local(data) + data + wrap_central(data) + wrap_trailer(data)
}

/// The archive-wrapping layout is an archive this library reads: it opens
/// with a local file header, its trailer is the last 22 bytes, and it does
/// not use the 64-bit extension; the stored entry's data is the container,
/// right after the local header.
pub proof fn lemma_zip_wrapping_is_archive(data: Seq<u8>)
    requires
        data.len() + wrapped_data_offset() < u32::MAX,
    ensures
        archive_ok(zip_wrapping(data)),
        eocd_position(zip_wrapping(data)) == Some(zip_wrapping(data).len() - 22),
        zip_wrapping(data).subrange(wrapped_data_offset(), wrapped_data_offset() + data.len()) == data,
{
    let w = zip_wrapping(data);
    let n = data.len() as int;
    let local = wrap_local(data);
    let central = wrap_central(data);
    let trailer = wrap_trailer(data);
    crate::utils::lemma_le32_bytes(55);
    crate::utils::lemma_le32_bytes((wrapped_data_offset() + n) as u32);
    assert(local.len() == 39);
    assert(central.len() == 55);
    assert(trailer.len() == 22);
    let p = w.len() - 22;
    assert(p == 39 + n + 55);
    assert forall|k: int| 0 <= k < 22 implies #[trigger] w[p + k] == trailer[k] by {
        assert(w == local + data + central + trailer);
    }
    assert forall|k: int| 0 <= k < 4 implies #[trigger] w[k] == local[k] by {
        assert(w == local + data + central + trailer);
    }
    assert(crate::zip::offsets::eocd_fits(w, p));
    assert(crate::zip::offsets::eocd_at(w, p).cd_offset == wrapped_data_offset() + n) by {
        assert(trailer.subrange(16, 20) =~= le32_bytes((wrapped_data_offset() + n) as u32));
    }
    assert(crate::zip::offsets::eocd_at(w, p).cd_size == 55) by {
        assert(trailer.subrange(12, 16) =~= le32_bytes(55));
    }
    assert(w.subrange(39, 39 + n) =~= data) by {
        assert(w == local + data + central + trailer);
    }
}

/// The container with the archive appended to its first image-data chunk,
/// the archive's directory moved by the position at which it now starts.
pub open spec fn idat_polyglot(png: PngFile, zip: ZipArchive, i: int) -> Seq<u8> {
    let cs = png.parsed@;
    png_magic() + chunks_bytes(extended(cs, i, relocated(
        zip.data@,
        zip.eocd_offset as int,
        zip.eocd.cd_offset as int,
        idat_shift(png, i),
    )))
}

/// Where the archive starts once appended to image-data chunk `i`.
pub open spec fn idat_shift(png: PngFile, i: int) -> int {
    png.parsed@[i].data_offset + png.parsed@[i].data.len()
}

/// The container with the archive wrapped in a text chunk before its
/// terminal chunk.
pub open spec fn text_polyglot(png: PngFile, zip_bytes: Seq<u8>) -> Seq<u8> {
    png_magic() + chunks_bytes(
        insert_before_last(png.parsed@, text_chunk(zip_bytes)),
    ) + after_chunks(png.raw_data@, png.parsed@)
}

/// What the image-data strategy yields for the container `png` and the
/// archive `zip`.
pub open spec fn idat_outcome(png: PngFile, zip: ZipArchive, r: PolyglotResult<Vec<u8>>) -> bool {
    if zip.is_shifted() {
        r matches Err(PolyglotError::OffsetsAlreadyPatched)
    } else {
        match first_of_kind(png.parsed@, idat_tag()) {
        None => r matches Err(PolyglotError::NoIdatChunk),
        Some(i) => if png.parsed@[i].data.len() + zip.data@.len() > u32::MAX {
            r matches Err(PolyglotError::SizeOverflow)
        } else if is_zip64(zip.eocd) {
            r matches Err(PolyglotError::ZipParse(_))
        } else if !shift_allowed(zip, idat_shift(png, i)) {
            r matches Err(PolyglotError::OffsetOverflow)
        } else {
            r matches Ok(out) && out@ == idat_polyglot(png, zip, i)
        },
        }
    }
}

/// What one run of the image-data strategy does to the creator: the result
/// `r` as `idat_outcome` gives it; on success the archive is marked as moved
/// and the container holds the result; on failure both parts stay as they
/// were.
pub open spec fn idat_step(before: PolyglotCreator, after: PolyglotCreator, r: PolyglotResult<Vec<u8>>) -> bool {
    &&& idat_outcome(before.png_part(), before.zip_part(), r)
    &&& (r matches Ok(out) ==> after.zip_part().is_shifted() && after.png_part().raw_data@ == out@)
    &&& (r is Err ==> after.png_part() == before.png_part() && crate::zip::unchanged(
        before.zip_part(),
        after.zip_part(),
    ))
}

/// The image-data strategy runs at most once per creator: after a build
/// succeeded, a second one fails with `OffsetsAlreadyPatched` and leaves
/// both parts as they were, so the archive is never moved twice.
pub proof fn lemma_polyglot_built_once(
    a: PolyglotCreator,
    b: PolyglotCreator,
    c: PolyglotCreator,
    r1: PolyglotResult<Vec<u8>>,
    r2: PolyglotResult<Vec<u8>>,
)
    requires
        idat_step(a, b, r1),
        r1 is Ok,
        idat_step(b, c, r2),
    ensures
        r2 matches Err(PolyglotError::OffsetsAlreadyPatched),
        c.png_part() == b.png_part(),
        crate::zip::unchanged(b.zip_part(), c.zip_part()),
{
}

/// What the text-chunk strategy yields for the container `png` and the
/// archive bytes `zip_bytes`.
pub open spec fn text_outcome(png: PngFile, zip_bytes: Seq<u8>, r: PolyglotResult<Vec<u8>>) -> bool {
    if !ends_with_iend(png.parsed@) {
        r matches Err(PolyglotError::ChunkNotFound(_))
    } else if zip_bytes.len() > u32::MAX {
        r matches Err(PolyglotError::SizeOverflow)
    } else {
        r matches Ok(out) && out@ == text_polyglot(png, zip_bytes)
    }
}

/// What the archive-wrapping strategy yields for the container bytes.
pub open spec fn zip_outcome(png_bytes: Seq<u8>, r: PolyglotResult<Vec<u8>>) -> bool {
    if png_bytes.len() + wrapped_data_offset() > u32::MAX {
        r matches Err(PolyglotError::OffsetOverflow)
    } else {
        r matches Ok(out) && out@ == zip_wrapping(png_bytes)
    }
}

impl PolyglotCreator {
    /// The container part.
    pub closed spec fn png_part(&self) -> PngFile {
        self.png
    }

    /// The archive part.
    pub closed spec fn zip_part(&self) -> ZipArchive {
        self.zip
    }

    /// Both parts are consistent with their bytes.
    pub open spec fn wf(&self) -> bool {
        self.png_part().wf() && self.zip_part().wf()
    }

    /// Create polyglot from raw data
    pub fn from_data(png_data: Vec<u8>, zip_data: Vec<u8>) -> (r: PolyglotResult<Self>)
        ensures
            r matches Ok(c) ==> {
                &&& c.wf()
                &&& c.png_part().raw_data@ == png_data@
                &&& c.zip_part().data@ == zip_data@
                &&& c.zip_part().eocd_offset == eocd_position(zip_data@)->0
                &&& !c.zip_part().is_shifted()
            },
            png_parse(png_data@) is Ok && archive_ok(zip_data@) ==> r is Ok,
            png_parse(png_data@) matches Err(f) ==> (r matches Err(e) && reports_png_fault(e, f)),
            png_parse(png_data@) is Ok && !archive_ok(zip_data@) ==> (r matches Err(e)
                && crate::zip::reports_zip_fault(e, zip_data@)),
    {
        let png = match PngFile::from_data(png_data) {
            Ok(p) => p,
            Err(e) => return Err(e),
        };
        let zip = match ZipArchive::from_data(zip_data) {
            Ok(z) => z,
            Err(e) => return Err(e),
        };
        Ok(Self { png, zip })
    }

    /// Build the polyglot with the given strategy and return its bytes.
    pub fn create_polyglot_data(&mut self, method: EmbedMethod) -> (r: PolyglotResult<Vec<u8>>)
        requires
            old(self).wf(),
        ensures
            final(self).wf(),
            method == EmbedMethod::Zip ==> zip_outcome(old(self).png_part().raw_data@, r),
            method == EmbedMethod::Idat ==> idat_step(*old(self), *final(self), r),
            method == EmbedMethod::Text ==> text_outcome(
                old(self).png_part(),
                old(self).zip_part().data@,
                r,
            ),
    {
        match method {
            EmbedMethod::Zip => self.create_zip_dominant_polyglot(),
            EmbedMethod::Idat => self.create_png_dominant_polyglot_idat(),
            EmbedMethod::Text => self.create_png_dominant_polyglot_text(),
        }
    }

    /// Create ZIP-dominant polyglot: the image stored whole as the single
    /// entry of an archive built from scratch.
    fn create_zip_dominant_polyglot(&self) -> (r: PolyglotResult<Vec<u8>>)
        ensures
            zip_outcome(self.png_part().raw_data@, r),
    {
        let png_data = self.png.as_bytes();
        if png_data.len() > 0xFFFF_FFFF - 39 {
            return Err(PolyglotError::OffsetOverflow);
        }
        let n = png_data.len() as u32;
        let crc = crate::utils::calculate_crc32(png_data);
        let name: [u8; 9] = [0x69, 0x6D, 0x61, 0x67, 0x65, 0x2E, 0x70, 0x6E, 0x67];
        let mut out: Vec<u8> = Vec::new();
        let local_start: [u8; 14] = [0x50, 0x4B, 0x03, 0x04, 0x0A, 0, 0, 0, 0, 0, 0, 0, 0, 0];
        append_bytes(&mut out, &local_start);
        push_u32_le(&mut out, crc);
        push_u32_le(&mut out, n);
        push_u32_le(&mut out, n);
        push_u16_le(&mut out, 9);
        out.push(0);
        out.push(0);
        append_bytes(&mut out, &name);
        proof {
            assert(name@ =~= image_name());
            assert(local_start@ =~= seq![0x50u8, 0x4Bu8, 0x03u8, 0x04u8, 0x0Au8, 0u8, 0u8, 0u8, 0u8, 0u8, 0u8, 0u8, 0u8, 0u8]);
            assert(out@ =~= wrap_local(png_data@));
        }
        append_bytes(&mut out, png_data);
        let ghost before_central = out@;
        let cd_offset = out.len() as u32;
        let central_start: [u8; 16] = [0x50, 0x4B, 0x01, 0x02, 0x0A, 0x03, 0x0A, 0, 0, 0, 0, 0, 0, 0, 0, 0];
        append_bytes(&mut out, &central_start);
        push_u32_le(&mut out, crc);
        push_u32_le(&mut out, n);
        push_u32_le(&mut out, n);
        push_u16_le(&mut out, 9);
        let central_rest: [u8; 12] = [0, 0, 0, 0, 0, 0, 0, 0, 0, 0, 0, 0];
        append_bytes(&mut out, &central_rest);
        push_u32_le(&mut out, 0);
        append_bytes(&mut out, &name);
        proof {
            assert(central_start@ =~= seq![
                0x50u8, 0x4Bu8, 0x01u8, 0x02u8, 0x0Au8, 0x03u8, 0x0Au8, 0u8, 0u8, 0u8, 0u8, 0u8, 0u8, 0u8, 0u8, 0u8,
            ]);
            assert(central_rest@ =~= seq![0u8, 0u8, 0u8, 0u8, 0u8, 0u8, 0u8, 0u8, 0u8, 0u8, 0u8, 0u8]);
            assert(out@ =~= before_central + wrap_central(png_data@));
        }
        let ghost before_trailer = out@;
        // The directory holds one entry: its fixed part and the name.
        let cd_size: u32 = 46 + 9;
        let trailer_start: [u8; 12] = [0x50, 0x4B, 0x05, 0x06, 0, 0, 0, 0, 1, 0, 1, 0];
        append_bytes(&mut out, &trailer_start);
        push_u32_le(&mut out, cd_size);
        push_u32_le(&mut out, cd_offset);
        out.push(0);
        out.push(0);
        proof {
            assert(trailer_start@ =~= seq![0x50u8, 0x4Bu8, 0x05u8, 0x06u8, 0u8, 0u8, 0u8, 0u8, 1u8, 0u8, 1u8, 0u8]);
            assert(out@ =~= before_trailer + wrap_trailer(png_data@));
            assert(out@ =~= zip_wrapping(png_data@));
        }
        Ok(out)
    }

    /// Create PNG-dominant polyglot with ZIP in IDAT chunk
    fn create_png_dominant_polyglot_idat(&mut self) -> (r: PolyglotResult<Vec<u8>>)
        requires
            old(self).wf(),
        ensures
            final(self).wf(),
            idat_step(*old(self), *final(self), r),
    {
        self.create_polyglot_in_memory()
    }

    /// Create PNG-dominant polyglot with ZIP in text chunk
    #[verifier::rlimit(50)]
    fn create_png_dominant_polyglot_text(&mut self) -> (r: PolyglotResult<Vec<u8>>)
        requires
            old(self).wf(),
        ensures
            final(self).wf(),
            text_outcome(old(self).png_part(), old(self).zip_part().data@, r),
    {
        match self.png.add_zip_text_chunk(self.zip.as_bytes()) {
            Ok(()) => {
                let out = copy_range(self.png.as_bytes(), 0, self.png.raw_data.len());
                assert(out@ =~= self.png.raw_data@);
                Ok(out)
            },
            Err(e) => Err(e),
        }
    }

    /// Get final polyglot data without writing to file
    #[verifier::rlimit(50)]
    pub fn create_polyglot_in_memory(&mut self) -> (r: PolyglotResult<Vec<u8>>)
        requires
            old(self).wf(),
        ensures
            final(self).wf(),
            idat_step(*old(self), *final(self), r),
    {
        if self.zip.shifted {
            return Err(PolyglotError::OffsetsAlreadyPatched);
        }
        let ghost cs = self.png.parsed@;
        proof {
            crate::png::lemma_first_idat_placed(self.png);
            if let Some(i) = first_of_kind(cs, idat_tag()) {
                crate::zip::lemma_shift_keeps_length(
                    self.zip.data@,
                    self.zip.eocd.cd_offset as int,
                    idat_shift(self.png, i),
                );
            }
        }
        let (idat_offset, idat_length) = match self.png.find_first_idat() {
            Ok(p) => p,
            Err(e) => return Err(e),
        };
        let ghost i = first_of_kind(cs, idat_tag())->0;
        let raw_len = self.png.raw_data.len();
        assert(idat_offset + idat_length + 4 <= raw_len);
        let zip_len = self.zip.data.len();
        if zip_len > 0xFFFF_FFFF || idat_length > 0xFFFF_FFFF - zip_len {
            return Err(PolyglotError::SizeOverflow);
        }
        let embed_position = crate::utils::calculate_offset_adjustment(
            idat_offset as u64,
            idat_length as u64,
        );
        let shift = match self.zip.calculate_offset_adjustment(embed_position) {
            Ok(v) => v,
            Err(e) => return Err(e),
        };
        assert(shift as int == idat_shift(self.png, i));
        let ghost png0 = self.png;
        let ghost zip0 = self.zip;
        match self.zip.update_central_directory_offsets(shift) {
            Ok(()) => {},
            Err(e) => return Err(e),
        }
        assert(self.png == png0);
        assert(self.zip.data@ == relocated(
            zip0.data@,
            zip0.eocd_offset as int,
            zip0.eocd.cd_offset as int,
            idat_shift(png0, i),
        ));
        assert(self.zip.data@.len() == zip0.data@.len());
        match self.png.append_to_idat(self.zip.as_bytes()) {
            Ok(()) => {},
            Err(e) => {
                // The image-data chunk exists and the grown data fits, so
                // appending cannot fail here.
                assert(false);
                return Err(e);
            },
        }
        let out = copy_range(self.png.as_bytes(), 0, self.png.raw_data.len());
        assert(out@ =~= self.png.raw_data@);
        Ok(out)
    }

    /// Get PNG component
    pub fn png(&self) -> (r: &PngFile)
        ensures
            *r == self.png_part(),
    {
        &self.png
    }

    /// Get ZIP component
    pub fn zip(&self) -> (r: &ZipArchive)
        ensures
            *r == self.zip_part(),
    {
        &self.zip
    }
}

impl PngWavPolyglotCreator {
    /// Pair a container and an audio file.
    pub fn new(png: PngFile, wav: WavFile) -> (r: Self)
        ensures
            r.png_part() == png,
            r.wav_part() == wav,
    {
        Self { png, wav }
    }

    /// The container part.
    pub closed spec fn png_part(&self) -> PngFile {
        self.png
    }

    /// The audio part.
    pub closed spec fn wav_part(&self) -> WavFile {
        self.wav
    }

    /// Append the audio file to the container's first image-data chunk and
    /// return the bytes of the result.
    pub fn create_polyglot_data(&mut self) -> (r: PolyglotResult<Vec<u8>>)
        requires
            old(self).png_part().wf(),
        ensures
            final(self).png_part().wf(),
            appended_to_idat(
                old(self).png_part(),
                final(self).png_part(),
                old(self).wav_part().raw_data@,
                match r {
                    Ok(_) => Ok(()),
                    Err(e) => Err(e),
                },
            ),
            r matches Ok(v) ==> v@ == final(self).png_part().raw_data@,
    {
        match self.png.append_wav_to_idat(self.wav.as_bytes()) {
            Ok(()) => {
                let out = copy_range(self.png.as_bytes(), 0, self.png.raw_data.len());
                assert(out@ =~= self.png.raw_data@);
                Ok(out)
            },
            Err(e) => Err(e),
        }
    }

    /// Get PNG component
    pub fn png(&self) -> (r: &PngFile)
        ensures
            *r == self.png_part(),
    {
        &self.png
    }

    /// Get WAV component
    pub fn wav(&self) -> (r: &WavFile)
        ensures
            *r == self.wav_part(),
    {
        &self.wav
    }
}

impl WavPngPolyglotCreator {
    /// Pair an audio file and a container.
    pub fn new(wav: WavFile, png: PngFile) -> (r: Self)
        ensures
            r.png_part() == png,
            r.wav_part() == wav,
    {
        Self { wav, png }
    }

    /// The container part.
    pub closed spec fn png_part(&self) -> PngFile {
        self.png
    }

    /// The audio part.
    pub closed spec fn wav_part(&self) -> WavFile {
        self.wav
    }

    /// Store the container as an extra chunk of the audio file and return
    /// the bytes of the result.
    pub fn create_polyglot_data(&mut self) -> (r: PolyglotResult<Vec<u8>>)
        ensures
            ({
                let n = old(self).png_part().raw_data@.len() as int;
                let m = old(self).wav_part().structure@;
                if png_chunk_growth(n) > u32::MAX || m.file_size + png_chunk_growth(n) > u32::MAX {
                    r matches Err(PolyglotError::SizeOverflow)
                } else {
                    r matches Ok(v) && v@ == riff_bytes(final(self).wav_part().structure@)
                        && final(self).wav_part().structure@.extra.last().data
                        == old(self).png_part().raw_data@
                }
            }),
    {
        match self.wav.embed_png_data(self.png.as_bytes()) {
            Ok(()) => {
                let out = copy_range(self.wav.as_bytes(), 0, self.wav.raw_data.len());
                assert(out@ =~= self.wav.raw_data@);
                Ok(out)
            },
            Err(e) => Err(e),
        }
    }

    /// Get WAV component
    pub fn wav(&self) -> (r: &WavFile)
        ensures
            *r == self.wav_part(),
    {
        &self.wav
    }

    /// Get PNG component
    pub fn png(&self) -> (r: &PngFile)
        ensures
            *r == self.png_part(),
    {
        &self.png
    }
}

/// The data of the image header chunk that the built-from-scratch layout
/// uses: width and height both the container length, taken modulo 2^32,
/// divided by 1000, stored least significant byte first, then depth 8,
/// colour type 2 and three zero bytes.
pub open spec fn bidirectional_header(n: int) -> Seq<u8> {
    let w = ((n % 0x1_0000_0000) / 1000) as u32;
    le32_bytes(w) + le32_bytes(w) + seq![8u8, 2u8, 0u8, 0u8, 0u8]
}

pub open spec fn ihdr_tag() -> Seq<u8> {
    seq![0x49u8, 0x48u8, 0x44u8, 0x52u8]
}

/// The built-from-scratch layout: signature, image header, one image-data
/// chunk holding the audio bytes, terminal chunk.
pub open spec fn bidirectional_bytes(png_len: int, wav: Seq<u8>) -> Seq<u8> {
    png_magic() + chunk_bytes(ihdr_tag(), bidirectional_header(png_len)) + chunk_bytes(
        idat_tag(),
        wav,
    ) + chunk_bytes(iend_tag(), Seq::empty())
}

impl TrueBidirectionalPngWavCreator {
    /// Pair a container and an audio file.
    pub fn new(png: PngFile, wav: WavFile) -> (r: Self)
        ensures
            r.png_part() == png,
            r.wav_part() == wav,
    {
        Self { png, wav }
    }

    /// The container part.
    pub closed spec fn png_part(&self) -> PngFile {
        self.png
    }

    /// The audio part.
    pub closed spec fn wav_part(&self) -> WavFile {
        self.wav
    }

    /// Build the polyglot: a minimal image whose single image-data chunk
    /// holds the audio file, with every length and checksum computed.
    pub fn create_bidirectional_data(&self) -> (r: PolyglotResult<Vec<u8>>)
        ensures
            self.wav_part().raw_data@.len() > u32::MAX ==> r matches Err(PolyglotError::SizeOverflow),
            self.wav_part().raw_data@.len() <= u32::MAX ==> (r matches Ok(v) && v@ == bidirectional_bytes(
                self.png_part().raw_data@.len() as int,
                self.wav_part().raw_data@,
            )),
    {
        let png_len = self.png.as_bytes().len();
        let wav_bytes = self.wav.as_bytes();
        if wav_bytes.len() > 0xFFFF_FFFF {
            return Err(PolyglotError::SizeOverflow);
        }
        let mut result: Vec<u8> = Vec::new();
        let magic: [u8; 8] = [0x89, 0x50, 0x4E, 0x47, 0x0D, 0x0A, 0x1A, 0x0A];
        append_bytes(&mut result, &magic);
        let w = (png_len as u64 % 0x1_0000_0000) as u32 / 1000;
        let mut ihdr_data: Vec<u8> = Vec::new();
        push_u32_le(&mut ihdr_data, w);
        push_u32_le(&mut ihdr_data, w);
        let rest: [u8; 5] = [8, 2, 0, 0, 0];
        append_bytes(&mut ihdr_data, &rest);
        let ihdr: [u8; 4] = [0x49, 0x48, 0x44, 0x52];
        write_chunk(&mut result, &ihdr, ihdr_data.as_slice());
        let idat: [u8; 4] = [0x49, 0x44, 0x41, 0x54];
        write_chunk(&mut result, &idat, wav_bytes);
        let iend: [u8; 4] = [0x49, 0x45, 0x4E, 0x44];
        let empty: [u8; 0] = [];
        write_chunk(&mut result, &iend, &empty);
        proof {
            assert(magic@ =~= png_magic());
            assert(rest@ =~= seq![8u8, 2u8, 0u8, 0u8, 0u8]);
            assert(ihdr_data@ =~= bidirectional_header(png_len as int));
            assert(ihdr@ =~= ihdr_tag());
            assert(idat@ =~= idat_tag());
            assert(iend@ =~= iend_tag());
            assert(empty@ =~= Seq::<u8>::empty());
            assert(result@ =~= bidirectional_bytes(png_len as int, wav_bytes@));
        }
        Ok(result)
    }

    /// Get PNG component
    pub fn png(&self) -> (r: &PngFile)
        ensures
            *r == self.png_part(),
    {
        &self.png
    }

    /// Get WAV component
    pub fn wav(&self) -> (r: &WavFile)
        ensures
            *r == self.wav_part(),
    {
        &self.wav
    }
}

} // verus!
