//! Construction, validation and extraction of polyglot files: byte sequences
//! that are at once a well-formed PNG image (a chunked, checksummed container)
//! and a well-formed ZIP archive (a trailer-indexed archive whose directory
//! holds absolute offsets), plus the WAV, FLAC and GIF side formats.

use vstd::prelude::*;
use vstd::string::StringExecFns;

pub mod cli;
pub mod utils;
pub mod png;
pub mod zip;
pub mod polyglot;
pub mod extract;
pub mod wav;
pub mod flac;
pub mod gif;

pub use extract::{extract_zip_from_png_data, validate_polyglot_data};
pub use polyglot::PolyglotCreator;

verus! {

/// Result type of the polyglot operations.
pub type PolyglotResult<T> = Result<T, PolyglotError>;

/// Declares `std::io::Error`, which an input-file error carries; nothing is
/// assumed of its content.
#[verifier::external_type_specification]
#[verifier::external_body]
pub struct ExIoError(std::io::Error);

/// Error type of the polyglot operations.
#[derive(Debug)]
pub enum PolyglotError {
    PngParse(String),
    ZipParse(String),
    WavParse(String),
    CrcMismatch(String),
    NoIdatChunk,
    InvalidRiffHeader,
    ChunkNotFound(String),
    SizeOverflow,
    InputFile(std::io::Error),
    CreationFailed(String),
    ValidationFailed(String),
    InvalidInput(String),
    /// A patched offset or size would not fit in its 32-bit field.
    OffsetOverflow,
    /// The directory offsets of an archive were already shifted once.
    OffsetsAlreadyPatched,
}

/// What `String::from_utf8_lossy` makes of a byte sequence.
pub uninterp spec fn lossy_text_of(bytes: Seq<u8>) -> Seq<char>;

/// Relies on `String::from_utf8_lossy`: the bytes decoded as UTF-8, with each
/// invalid sequence replaced; the text depends on the bytes alone.
#[verifier::external_body]
pub(crate) fn lossy_text(bytes: &[u8]) -> (r: String)
    ensures
        r@ == lossy_text_of(bytes@),
{
    String::from_utf8_lossy(bytes).into_owned()
}

/// A message string with the given content.
pub(crate) fn text(s: &str) -> (r: String)
    ensures
        r@ == s@,
{
    s.to_owned()
}

/// The text that reports an error, for every kind but an input-file error,
/// whose text comes from the operating system.
pub open spec fn error_text(e: PolyglotError) -> Seq<char> {
    match e {
        PolyglotError::PngParse(s) => "PNG parse error: "@ + s@,
        PolyglotError::ZipParse(s) => "ZIP parse error: "@ + s@,
        PolyglotError::WavParse(s) => "WAV parse error: "@ + s@,
        PolyglotError::CrcMismatch(s) => "CRC mismatch in chunk "@ + s@,
        PolyglotError::NoIdatChunk => "No IDAT chunk found"@,
        PolyglotError::InvalidRiffHeader => "Invalid RIFF header"@,
        PolyglotError::ChunkNotFound(s) => "Chunk not found: "@ + s@,
        PolyglotError::SizeOverflow => "Size overflow in RIFF file"@,
        PolyglotError::InputFile(_) => Seq::empty(),
        PolyglotError::CreationFailed(s) => "Polyglot creation failed: "@ + s@,
        PolyglotError::ValidationFailed(s) => "Validation failed: "@ + s@,
        PolyglotError::InvalidInput(s) => "Invalid input: "@ + s@,
        PolyglotError::OffsetOverflow => "Offset or size does not fit its 32-bit field"@,
        PolyglotError::OffsetsAlreadyPatched => "Directory offsets were already shifted"@,
    }
}

/// `prefix` followed by `detail`.
fn joined(prefix: &str, detail: &String) -> (r: String)
    ensures
        r@ == prefix@ + detail@,
{
    text(prefix).concat(detail.as_str())
}

impl PolyglotError {
    /// The human-readable text of the error.
    pub fn message(&self) -> (r: String)
        ensures
            !(self is InputFile) ==> r@ == error_text(*self),
    {
        match self {
            PolyglotError::PngParse(s) => joined("PNG parse error: ", s),
            PolyglotError::ZipParse(s) => joined("ZIP parse error: ", s),
            PolyglotError::WavParse(s) => joined("WAV parse error: ", s),
            PolyglotError::CrcMismatch(s) => joined("CRC mismatch in chunk ", s),
            PolyglotError::NoIdatChunk => text("No IDAT chunk found"),
            PolyglotError::InvalidRiffHeader => text("Invalid RIFF header"),
            PolyglotError::ChunkNotFound(s) => joined("Chunk not found: ", s),
            PolyglotError::SizeOverflow => text("Size overflow in RIFF file"),
            PolyglotError::InputFile(e) => {
                let mut r = text("Input file error: ");
                r.append(e.to_string().as_str());
                r
            },
            PolyglotError::CreationFailed(s) => joined("Polyglot creation failed: ", s),
            PolyglotError::ValidationFailed(s) => joined("Validation failed: ", s),
            PolyglotError::InvalidInput(s) => joined("Invalid input: ", s),
            PolyglotError::OffsetOverflow => text("Offset or size does not fit its 32-bit field"),
            PolyglotError::OffsetsAlreadyPatched => text("Directory offsets were already shifted"),
        }
    }

    /// Validate that a PNG chunk's CRC matches expected value
    pub fn validate_png_chunk(chunk_type: &[u8; 4], expected_crc: u32, actual_crc: u32) -> (r:
        PolyglotResult<()>)
        ensures
            expected_crc == actual_crc ==> r is Ok,
            expected_crc != actual_crc ==> (r matches Err(PolyglotError::CrcMismatch(s)) && s@
                == lossy_text_of(chunk_type@)),
    {
        if expected_crc != actual_crc {
            Err(PolyglotError::CrcMismatch(lossy_text(chunk_type)))
        } else {
            Ok(())
        }
    }
}

} // verus!
