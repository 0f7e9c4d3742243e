//! Polyglot validation and extraction functionality

use vstd::prelude::*;

use crate::cli::ValidationResult;
use crate::png::parser::{layout, parse_png_chunks, png_parse, text_tag, ChunkModel};
use crate::png::{insert_before_last, text_chunk, PngFile};
use crate::polyglot::text_polyglot;
use crate::utils::{copy_range, find_pattern, first_match_from, has_at, le16, le32, png_magic, read_u32_le};
use crate::zip::offsets::{
    directory_consistent, eocd_at, eocd_position, has_zip_signature, LOCAL_HEADER_SIGNATURE,
};
use crate::zip::{archive_ok, ZipArchive};
use crate::{text, PolyglotError, PolyglotResult};

verus! {

/// Which format's signature opens the bytes.
#[derive(Debug, Clone, Copy, PartialEq, Eq, Structural)]
pub enum Dominance {
    ContainerFirst,
    ArchiveFirst,
}

/// Bytes that open with the archive signature are archive-first; all
/// others, those that open with the container signature first of all, are
/// read as container-first.
pub open spec fn dominance(data: Seq<u8>) -> Dominance {
    if has_zip_signature(data) && !has_at(data, 0, png_magic()) {
        Dominance::ArchiveFirst
    } else {
        Dominance::ContainerFirst
    }
}

/// Decide which format is outer by the leading signature bytes.
pub fn detect_dominant(data: &[u8]) -> (r: Dominance)
    ensures
        r == dominance(data@),
{
    if crate::zip::offsets::validate_zip_signature(data) && !crate::utils::is_png_signature(data) {
        Dominance::ArchiveFirst
    } else {
        Dominance::ContainerFirst
    }
}

/// A buffer that opens with the container signature is container-first
/// whatever follows; one that opens with the archive signature is
/// archive-first.
pub proof fn lemma_dominance_by_prefix(data: Seq<u8>)
    ensures
        has_at(data, 0, png_magic()) ==> dominance(data) == Dominance::ContainerFirst,
        has_zip_signature(data) ==> dominance(data) == Dominance::ArchiveFirst,
{
    if has_zip_signature(data) && has_at(data, 0, png_magic()) {
        assert(data.subrange(0, 8)[0] == data[0]);
        assert(png_magic()[0] == 0x89);
    }
}

/// The signature that opens a local file header.
pub open spec fn zip_sig() -> Seq<u8> {
    seq![0x50u8, 0x4Bu8, 0x03u8, 0x04u8]
}

/// The signature that opens a RIFF file.
pub open spec fn riff_sig() -> Seq<u8> {
    seq![0x52u8, 0x49u8, 0x46u8, 0x46u8]
}

/// The bytes form an archive whose directory is consistent.
pub open spec fn zip_valid(data: Seq<u8>) -> bool {
    archive_ok(data) && directory_consistent(data, eocd_at(data, eocd_position(data)->0))
}

/// The archive at the start of `s`, which lies inside `whole`, is one this
/// library handles, and its directory is consistent with its offsets
/// counted either from the archive's own start or from the start of
/// `whole` (an archive moved into a container carries offsets of the
/// second kind).
pub open spec fn embedded_zip_valid(s: Seq<u8>, whole: Seq<u8>) -> bool {
    &&& archive_ok(s)
    &&& (directory_consistent(s, eocd_at(s, eocd_position(s)->0)) || directory_consistent(
        whole,
        eocd_at(s, eocd_position(s)->0),
    ))
}

/// An archive signature occurs at or after `from`, and the bytes from the
/// first one on form a consistent archive.
pub open spec fn zip_inside(data: Seq<u8>, from: int) -> bool {
    first_match_from(data, zip_sig(), from) matches Some(p) && embedded_zip_valid(
        data.subrange(p, data.len() as int),
        data,
    )
}

/// A container signature occurs at or after `from`, and the bytes from the
/// first one on parse as a container.
pub open spec fn png_inside(data: Seq<u8>, from: int) -> bool {
    first_match_from(data, png_magic(), from) matches Some(p) && png_parse(
        data.subrange(p, data.len() as int),
    ) is Ok
}

/// Whether the container interpretation of the bytes holds.
pub open spec fn container_side_ok(data: Seq<u8>) -> bool {
    match dominance(data) {
        Dominance::ContainerFirst => png_parse(data) is Ok,
        Dominance::ArchiveFirst => png_inside(data, 4),
    }
}

/// Whether the archive interpretation of the bytes holds.
pub open spec fn archive_side_ok(data: Seq<u8>) -> bool {
    match dominance(data) {
        Dominance::ContainerFirst => zip_inside(data, 8),
        Dominance::ArchiveFirst => zip_valid(data),
    }
}

/// The errors the container-side checks give.
pub open spec fn png_side_error(e: PolyglotError) -> bool {
    ||| e is PngParse
    ||| e is CrcMismatch
    ||| (e matches PolyglotError::ValidationFailed(s) && s@ == "Invalid PNG signature"@)
    ||| (e matches PolyglotError::ValidationFailed(s) && s@
        == "No valid PNG found within ZIP structure"@)
}

/// The errors the archive-side checks give.
pub open spec fn zip_side_error(e: PolyglotError) -> bool {
    ||| e is ZipParse
    ||| (e matches PolyglotError::ValidationFailed(s) && s@ == "Invalid ZIP signature"@)
    ||| (e matches PolyglotError::ValidationFailed(s) && s@ == "No ZIP signature found"@)
}

/// A container-side error and an archive-side error never read the same.
pub proof fn lemma_side_errors_differ(a: PolyglotError, b: PolyglotError)
    requires
        png_side_error(a),
        zip_side_error(b),
    ensures
        crate::error_text(a) != crate::error_text(b),
{
    reveal_strlit("PNG parse error: ");
    reveal_strlit("CRC mismatch in chunk ");
    reveal_strlit("ZIP parse error: ");
    reveal_strlit("Validation failed: ");
    reveal_strlit("Invalid PNG signature");
    reveal_strlit("No valid PNG found within ZIP structure");
    reveal_strlit("Invalid ZIP signature");
    reveal_strlit("No ZIP signature found");
    let ta = crate::error_text(a);
    let tb = crate::error_text(b);
    if a is ValidationFailed && b is ValidationFailed {
        assert(ta[19] != tb[19] || ta[27] != tb[27] || ta[22] != tb[22]);
    } else {
        assert(ta[0] != tb[0]);
    }
}

fn to_vec(data: &[u8]) -> (r: Vec<u8>)
    ensures
        r@ == data@,
{
    let r = copy_range(data, 0, data.len());
    assert(r@ =~= data@);
    r
}

/// Validate a byte sequence as a PNG/ZIP polyglot: both interpretations are
/// checked, whichever fails, and the report says which failed.
pub fn validate_polyglot_data(data: &[u8]) -> (r: ValidationResult)
    ensures
        r is Valid <==> container_side_ok(data@) && archive_side_ok(data@),
        r is InvalidPng <==> !container_side_ok(data@) && archive_side_ok(data@),
        r is InvalidZip <==> container_side_ok(data@) && !archive_side_ok(data@),
        r is InvalidBoth <==> !container_side_ok(data@) && !archive_side_ok(data@),
        r matches ValidationResult::InvalidBoth(first, second) ==> first@ != second@,
{
    match detect_dominant(data) {
        Dominance::ContainerFirst => {
            let png_result = validate_as_png(data);
            let zip_result = validate_zip_within_png(data);
            match (png_result, zip_result) {
                (Ok(_), Ok(_)) => ValidationResult::Valid,
                (Err(png_err), Ok(_)) => ValidationResult::InvalidPng(png_err.message()),
                (Ok(_), Err(zip_err)) => ValidationResult::InvalidZip(zip_err.message()),
                (Err(png_err), Err(zip_err)) => {
                    proof {
                        lemma_side_errors_differ(png_err, zip_err);
                    }
                    ValidationResult::InvalidBoth(png_err.message(), zip_err.message())
                },
            }
        },
        Dominance::ArchiveFirst => {
            let zip_result = validate_as_zip(data);
            let png_result = validate_png_within_zip(data);
            match (zip_result, png_result) {
                (Ok(_), Ok(_)) => ValidationResult::Valid,
                (Err(zip_err), Ok(_)) => ValidationResult::InvalidZip(zip_err.message()),
                (Ok(_), Err(png_err)) => ValidationResult::InvalidPng(png_err.message()),
                (Err(zip_err), Err(png_err)) => {
                    proof {
                        lemma_side_errors_differ(png_err, zip_err);
                    }
                    ValidationResult::InvalidBoth(zip_err.message(), png_err.message())
                },
            }
        },
    }
}

/// Validate data as ZIP format
pub fn validate_as_zip(data: &[u8]) -> (r: PolyglotResult<()>)
    ensures
        r is Ok <==> zip_valid(data@),
        r matches Err(e) ==> zip_side_error(e),
{
    if data.len() < 4 || read_u32_le(data, 0) != LOCAL_HEADER_SIGNATURE {
        return Err(PolyglotError::ValidationFailed(text("Invalid ZIP signature")));
    }
    let archive = match ZipArchive::from_data(to_vec(data)) {
        Ok(a) => a,
        Err(e) => return Err(e),
    };
    crate::zip::offsets::check_directory(data, &archive.eocd)
}

/// Validate that PNG data exists within ZIP
pub fn validate_png_within_zip(data: &[u8]) -> (r: PolyglotResult<()>)
    ensures
        r is Ok <==> png_inside(data@, 4),
        r matches Err(e) ==> png_side_error(e),
{
    let sig: [u8; 8] = [0x89, 0x50, 0x4E, 0x47, 0x0D, 0x0A, 0x1A, 0x0A];
    assert(sig@ =~= png_magic());
    proof {
        crate::utils::lemma_first_match(data@, png_magic(), 4);
    }
    match find_pattern(data, &sig, 4) {
        Some(pos) => match parse_png_chunks(&data[pos..data.len()]) {
            Ok(_) => Ok(()),
            Err(e) => Err(e),
        },
        None => Err(PolyglotError::ValidationFailed(text("No valid PNG found within ZIP structure"))),
    }
}

/// Validate data as PNG format
pub fn validate_as_png(data: &[u8]) -> (r: PolyglotResult<()>)
    ensures
        r is Ok <==> png_parse(data@) is Ok,
        r matches Err(e) ==> png_side_error(e),
{
    if !crate::utils::is_png_signature(data) {
        return Err(PolyglotError::ValidationFailed(text("Invalid PNG signature")));
    }
    match parse_png_chunks(data) {
        Ok(_) => Ok(()),
        Err(e) => Err(e),
    }
}

/// Validate that ZIP data exists within PNG, independently of whether the
/// PNG itself is valid.
pub fn validate_zip_within_png(data: &[u8]) -> (r: PolyglotResult<()>)
    ensures
        r is Ok <==> zip_inside(data@, 8),
        r matches Err(e) ==> zip_side_error(e),
{
    proof {
        crate::utils::lemma_first_match(data@, zip_sig(), 8);
    }
    let zip_start = match find_zip_signature(data, 8) {
        Some(p) => p,
        None => return Err(PolyglotError::ValidationFailed(text("No ZIP signature found"))),
    };
    let zip_slice = &data[zip_start..data.len()];
    let archive = match ZipArchive::from_data(to_vec(zip_slice)) {
        Ok(a) => a,
        Err(e) => return Err(e),
    };
    match crate::zip::offsets::check_directory(zip_slice, &archive.eocd) {
        Ok(()) => Ok(()),
        Err(e) => match crate::zip::offsets::check_directory(data, &archive.eocd) {
            Ok(()) => Ok(()),
            Err(_) => Err(e),
        },
    }
}

/// Find ZIP signature (PK\x03\x04) in data from `from` on, returning offset
pub fn find_zip_signature(data: &[u8], from: usize) -> (r: Option<usize>)
    ensures
        r matches Some(p) ==> first_match_from(data@, zip_sig(), from as int) == Some(p as int),
        r is None ==> first_match_from(data@, zip_sig(), from as int) is None,
{
    let sig: [u8; 4] = [0x50, 0x4B, 0x03, 0x04];
    assert(sig@ =~= zip_sig());
    find_pattern(data, &sig, from)
}

/// Find RIFF signature ("RIFF") in data from `from` on, returning offset
pub fn find_riff_signature(data: &[u8], from: usize) -> (r: Option<usize>)
    ensures
        r matches Some(p) ==> first_match_from(data@, riff_sig(), from as int) == Some(p as int),
        r is None ==> first_match_from(data@, riff_sig(), from as int) is None,
{
    let sig: [u8; 4] = [0x52, 0x49, 0x46, 0x46];
    assert(sig@ =~= riff_sig());
    find_pattern(data, &sig, from)
}

/// The signature of the 64-bit directory trailer.
pub open spec fn zip64_eocd_sig() -> Seq<u8> {
    seq![0x50u8, 0x4Bu8, 0x06u8, 0x06u8]
}

/// Find ZIP64 EOCD signature in data, returning offset
pub fn find_zip64_eocd(data: &[u8]) -> (r: Option<usize>)
    ensures
        r matches Some(p) ==> first_match_from(data@, zip64_eocd_sig(), 0) == Some(p as int),
        r is None ==> first_match_from(data@, zip64_eocd_sig(), 0) is None,
{
    let sig: [u8; 4] = [0x50, 0x4B, 0x06, 0x06];
    assert(sig@ =~= zip64_eocd_sig());
    find_pattern(data, &sig, 0)
}

/// A text chunk that wraps an archive: its data opens with the local file
/// header signature.
pub open spec fn is_zip_text(c: ChunkModel) -> bool {
    &&& c.kind == text_tag()
    &&& c.data.len() >= 4
    &&& c.data.subrange(0, 4) == zip_sig()
}

/// Position of the last archive-wrapping text chunk among the first `i`.
pub open spec fn last_zip_text(cs: Seq<ChunkModel>, i: int) -> Option<int>
    decreases i,
{
    if i <= 0 || i > cs.len() {
        None
    } else if is_zip_text(cs[i - 1]) {
        Some(i - 1)
    } else {
        last_zip_text(cs, i - 1)
    }
}

/// How many bytes from the start of `s` the archive there spans: up to the
/// end of its trailer's comment, or all of `s` when no trailer is found.
pub open spec fn archive_extent(s: Seq<u8>) -> int {
    match eocd_position(s) {
        Some(q) => q + 22 + le16(s, q + 20),
        None => s.len() as int,
    }
}

/// The archive embedded in a container-first polyglot: the data of the
/// last archive-wrapping text chunk, or else the bytes
/// from the first archive signature after the container signature, bounded
/// by the archive's own trailer.
pub open spec fn archive_in_container(data: Seq<u8>) -> Option<Seq<u8>> {
    if png_parse(data) is Ok && last_zip_text(
        png_parse(data)->Ok_0,
        png_parse(data)->Ok_0.len() as int,
    ) is Some {
        let cs = png_parse(data)->Ok_0;
        let c = cs[last_zip_text(cs, cs.len() as int)->0];
        Some(c.data)
    } else {
        match first_match_from(data, zip_sig(), 8) {
            Some(p) => {
                let s = data.subrange(p, data.len() as int);
                Some(s.subrange(0, archive_extent(s)))
            },
            None => None,
        }
    }
}

/// The container embedded in an archive-first polyglot: the bytes from the
/// first container signature after the archive signature, up to the end of
/// its last chunk, or to the end when they do not parse.
pub open spec fn container_in_archive(data: Seq<u8>) -> Option<Seq<u8>> {
    match first_match_from(data, png_magic(), 4) {
        Some(p) => {
            let s = data.subrange(p, data.len() as int);
            Some(
                match png_parse(s) {
                    Ok(cs) => s.subrange(0, cs.last().data_offset + cs.last().data.len() + 4),
                    Err(_) => s,
                },
            )
        },
        None => None,
    }
}

/// What the extractor recovers: the archive from a container-first
/// polyglot, the container from an archive-first one.
pub open spec fn embedded_payload(data: Seq<u8>) -> Option<Seq<u8>> {
    match dominance(data) {
        Dominance::ContainerFirst => archive_in_container(data),
        Dominance::ArchiveFirst => container_in_archive(data),
    }
}

/// Whether `d` opens with the local file header signature.
fn starts_with_zip_signature(d: &[u8]) -> (r: bool)
    ensures
        r == (d@.len() >= 4 && d@.subrange(0, 4) == zip_sig()),
{
    if d.len() < 4 {
        return false;
    }
    let r = d[0] == 0x50 && d[1] == 0x4B && d[2] == 0x03 && d[3] == 0x04;
    assert(r == (d@.subrange(0, 4) =~= zip_sig()));
    r
}

/// Position of the last archive-wrapping text chunk.
fn last_zip_text_index(png: &crate::png::ParsedPng) -> (r: Option<usize>)
    ensures
        r matches Some(i) ==> last_zip_text(png@, png@.len() as int) == Some(i as int) && i
            < png@.len(),
        r is None ==> last_zip_text(png@, png@.len() as int) is None,
{
    let mut i: usize = png.chunks.len();
    while i > 0
        invariant
            i <= png@.len(),
            last_zip_text(png@, png@.len() as int) == last_zip_text(png@, i as int),
        decreases i,
    {
        let c = &png.chunks[i - 1];
        assert(png@[i - 1] == c@);
        if crate::png::parser::tag_is(&c.chunk_type, 0x74, 0x45, 0x58, 0x74) && starts_with_zip_signature(
            c.data.as_slice(),
        ) {
            return Some(i - 1);
        }
        i = i - 1;
    }
    None
}

/// Extract the archive embedded in a container-first polyglot.
pub fn extract_archive_from_container(data: &[u8]) -> (r: PolyglotResult<Vec<u8>>)
    ensures
        archive_in_container(data@) matches Some(a) ==> (r matches Ok(v) && v@ == a),
        archive_in_container(data@) is None ==> r matches Err(PolyglotError::ValidationFailed(_)),
{
    match parse_png_chunks(data) {
        Ok(png) => {
            match last_zip_text_index(&png) {
                Some(i) => {
                    let c = &png.chunks[i];
                    assert(png@[i as int] == c@);
                    proof {
                        lemma_last_zip_text_found(png@, png@.len() as int);
                    }
                    return Ok(to_vec(c.data.as_slice()));
                },
                None => {},
            }
        },
        Err(_) => {},
    }
    proof {
        crate::utils::lemma_first_match(data@, zip_sig(), 8);
    }
    let zip_start = match find_zip_signature(data, 8) {
        Some(p) => p,
        None => return Err(
            PolyglotError::ValidationFailed(text("No ZIP signature found in PNG polyglot")),
        ),
    };
    let zip_slice = &data[zip_start..data.len()];
    proof {
        crate::zip::offsets::lemma_eocd_scan_fits(zip_slice@, zip_slice@.len() - 22);
    }
    match crate::zip::offsets::locate_eocd(zip_slice) {
        Some(q) => {
            let comment = crate::utils::read_u16_le(zip_slice, q + 20) as usize;
            Ok(copy_range(zip_slice, 0, q + 22 + comment))
        },
        None => Ok(to_vec(zip_slice)),
    }
}

/// Extract the container embedded in an archive-first polyglot.
pub fn extract_container_from_archive(data: &[u8]) -> (r: PolyglotResult<Vec<u8>>)
    ensures
        container_in_archive(data@) matches Some(c) ==> (r matches Ok(v) && v@ == c),
        container_in_archive(data@) is None ==> r matches Err(PolyglotError::ValidationFailed(_)),
{
    let sig: [u8; 8] = [0x89, 0x50, 0x4E, 0x47, 0x0D, 0x0A, 0x1A, 0x0A];
    assert(sig@ =~= png_magic());
    proof {
        crate::utils::lemma_first_match(data@, png_magic(), 4);
    }
    let png_start = match find_pattern(data, &sig, 4) {
        Some(p) => p,
        None => return Err(
            PolyglotError::ValidationFailed(text("No PNG data found in ZIP polyglot")),
        ),
    };
    let png_slice = &data[png_start..data.len()];
    match parse_png_chunks(png_slice) {
        Ok(png) => {
            proof {
                crate::png::parser::lemma_parsed_storable(png_slice@, 8);
            }
            let n = png.chunks.len();
            let last = &png.chunks[n - 1];
            assert(png@[n - 1] == last@);
            assert(crate::png::parser::placed(png_slice@, 8, png@[n - 1]));
            Ok(copy_range(png_slice, 0, last.data_offset + last.data.len() + 4))
        },
        Err(_) => Ok(to_vec(png_slice)),
    }
}

/// Extract the embedded payload of a polyglot: the archive when the
/// container is outer, the container when the archive is.
pub fn extract_zip_from_png_data(data: &[u8]) -> (r: PolyglotResult<Vec<u8>>)
    ensures
        embedded_payload(data@) matches Some(p) ==> (r matches Ok(v) && v@ == p),
        embedded_payload(data@) is None ==> r matches Err(PolyglotError::ValidationFailed(_)),
{
    match detect_dominant(data) {
        Dominance::ContainerFirst => extract_archive_from_container(data),
        Dominance::ArchiveFirst => extract_container_from_archive(data),
    }
}

/// The audio file embedded in a container-first polyglot, bounded by its own
/// declared size; a RIFF-first file is itself the audio file.
pub open spec fn wav_in_polyglot(data: Seq<u8>) -> Option<Seq<u8>> {
    if has_at(data, 0, png_magic()) {
        match first_match_from(data, riff_sig(), 8) {
            Some(p) => if p + 8 > data.len() || p + le32(data, p + 4) + 8 > data.len() {
                None
            } else {
                Some(data.subrange(p, p + le32(data, p + 4) + 8))
            },
            None => None,
        }
    } else if has_at(data, 0, riff_sig()) {
        Some(data)
    } else {
        None
    }
}

/// Extract embedded WAV data from a PNG+WAV or WAV+PNG polyglot
pub fn extract_wav_data(data: &[u8]) -> (r: PolyglotResult<Vec<u8>>)
    ensures
        wav_in_polyglot(data@) matches Some(w) ==> (r matches Ok(v) && v@ == w),
        wav_in_polyglot(data@) is None ==> r matches Err(PolyglotError::ValidationFailed(_)),
{
    if crate::utils::is_png_signature(data) {
        proof {
            crate::utils::lemma_first_match(data@, riff_sig(), 8);
        }
        let riff_start = match find_riff_signature(data, 8) {
            Some(p) => p,
            None => return Err(
                PolyglotError::ValidationFailed(text("No WAV signature found in PNG polyglot")),
            ),
        };
        if data.len() - riff_start < 8 {
            return Err(PolyglotError::ValidationFailed(text("Invalid WAV data in polyglot")));
        }
        let riff_size = read_u32_le(data, riff_start + 4) as usize;
        if riff_size > data.len() - riff_start - 8 {
            return Err(
                PolyglotError::ValidationFailed(text("WAV data extends beyond polyglot file")),
            );
        }
        Ok(copy_range(data, riff_start, riff_start + riff_size + 8))
    } else if data.len() >= 4 && data[0] == 0x52 && data[1] == 0x49 && data[2] == 0x46 && data[3]
        == 0x46 {
        assert(data@.subrange(0, 4) =~= riff_sig());
        Ok(to_vec(data))
    } else {
        proof {
            if has_at(data@, 0, riff_sig()) {
                assert(data@.subrange(0, 4)[0] == data@[0]);
                assert(data@.subrange(0, 4)[3] == data@[3]);
                assert(data@.subrange(0, 4)[1] == data@[1]);
                assert(data@.subrange(0, 4)[2] == data@[2]);
            }
        }
        Err(PolyglotError::ValidationFailed(text("File is neither PNG nor WAV format")))
    }
}

proof fn lemma_last_zip_text_found(cs: Seq<ChunkModel>, k: int)
    ensures
        last_zip_text(cs, k) matches Some(i) ==> 0 <= i < cs.len() && is_zip_text(cs[i]),
    decreases k,
{
    if 0 < k <= cs.len() && !is_zip_text(cs[k - 1]) {
        lemma_last_zip_text_found(cs, k - 1);
    }
}

/// The text chunk that wraps the archive is the last such chunk of the
/// built container: only the terminal chunk follows it.
proof fn lemma_wrapping_chunk_last(png: PngFile, archive: Seq<u8>)
    requires
        png.wf(),
        crate::png::parser::ends_with_iend(png.parsed@),
        archive.len() <= u32::MAX,
        archive.len() >= 4 && archive.subrange(0, 4) == zip_sig(),
    ensures
        png_parse(text_polyglot(png, archive)) is Ok,
        ({
            let parsed = png_parse(text_polyglot(png, archive))->Ok_0;
            &&& last_zip_text(parsed, parsed.len() as int) == Some(png.parsed@.len() - 1)
            &&& parsed[png.parsed@.len() - 1].data == archive
        }),
{
    let cs = png.parsed@;
    let n = cs.len();
    let target = insert_before_last(cs, text_chunk(archive));
    crate::png::lemma_text_insertion_parses(png, archive);
    let parsed = layout(target, 8);
    crate::png::parser::lemma_layout_fields(target, 8);
    assert(parsed.len() == n + 1);
    assert(target[n as int] == cs.last());
    assert(parsed[n as int].kind == crate::png::parser::iend_tag());
    assert(crate::png::parser::iend_tag()[0] != text_tag()[0]);
    assert(!is_zip_text(parsed[n as int]));
    assert(parsed[n - 1].data == archive);
    assert(is_zip_text(parsed[n - 1]));
    assert(last_zip_text(parsed, n as int) == Some(n - 1));
}

/// Wrapping an archive (bytes that open with a local file header) in a text
/// chunk before the terminal chunk of any container gives bytes that parse
/// as a container and from which the extractor recovers exactly the archive
/// bytes.
pub proof fn lemma_text_polyglot_round_trip(png: PngFile, archive: Seq<u8>)
    requires
        png.wf(),
        crate::png::parser::ends_with_iend(png.parsed@),
        archive.len() <= u32::MAX,
        archive.len() >= 4 && archive.subrange(0, 4) == zip_sig(),
    ensures
        png_parse(text_polyglot(png, archive)) is Ok,
        dominance(text_polyglot(png, archive)) == Dominance::ContainerFirst,
        archive_in_container(text_polyglot(png, archive)) == Some(archive),
        embedded_payload(text_polyglot(png, archive)) == Some(archive),
{
    let out = text_polyglot(png, archive);
    lemma_wrapping_chunk_last(png, archive);
    assert(out.subrange(0, 8) =~= png_magic());
    lemma_dominance_by_prefix(out);
}

} // verus!
