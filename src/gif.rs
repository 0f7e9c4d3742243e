//! GIF file format support for parasitic polyglots

use vstd::prelude::*;

use crate::utils::{append_bytes, copy_range};
use crate::{text, PolyglotError, PolyglotResult};

verus! {

/// GIF file representation
#[derive(Debug, Clone)]
pub struct GifFile {
    pub raw_data: Vec<u8>,
    pub parsed: GifStructure,
}

/// Parsed GIF structure
#[derive(Debug, Clone)]
pub struct GifStructure {
    pub header: GifHeader,
    pub global_color_table: Option<Vec<u8>>,
    pub blocks: Vec<GifBlock>,
}

/// GIF header (6 bytes)
#[derive(Debug, Clone)]
pub struct GifHeader {
    pub signature: [u8; 3],
    pub version: [u8; 3],
}

/// GIF blocks (simplified)
#[derive(Debug, Clone)]
pub enum GifBlock {
    ImageDescriptor(Vec<u8>),
    GraphicControlExtension(Vec<u8>),
    CommentExtension(Vec<u8>),
    PlainTextExtension(Vec<u8>),
    ApplicationExtension(Vec<u8>),
    Unknown(Vec<u8>),
}

/// The text that opens the comment holding an archive.
pub open spec fn zip_comment_prefix() -> Seq<u8> {
    seq![0x5Au8, 0x49u8, 0x50u8, 0x5Fu8, 0x41u8, 0x52u8, 0x43u8, 0x48u8, 0x49u8, 0x56u8, 0x45u8, 0x3Au8]
}

/// `c` cut into data sub-blocks of at most 255 bytes, each after its size
/// byte.
pub open spec fn sub_blocks(c: Seq<u8>) -> Seq<u8>
    decreases c.len(),
{
    if c.len() > 255 {
        seq![255u8] + c.subrange(0, 255) + sub_blocks(c.subrange(255, c.len() as int))
    } else if c.len() > 0 {
        seq![c.len() as u8] + c
    } else {
        Seq::empty()
    }
}

/// The comment extension that carries an archive: introducer, label, the
/// text and the archive in sub-blocks, and the block terminator.
pub open spec fn comment_extension(zip: Seq<u8>) -> Seq<u8> {
    seq![0x21u8, 0xFEu8] + sub_blocks(zip_comment_prefix() + zip) + seq![0u8]
}

/// The bytes end with the trailer byte.
pub open spec fn ends_with_trailer(raw: Seq<u8>) -> bool {
    raw.len() > 0 && raw.last() == 0x3Bu8
}

/// The trailer byte.
pub open spec fn gif_trailer() -> Seq<u8> {
    seq![0x3Bu8]
}

/// The signature that opens every GIF file.
pub open spec fn gif_tag() -> Seq<u8> {
    seq![0x47u8, 0x49u8, 0x46u8]
}

impl GifFile {
    /// Load GIF file from raw data: the signature, then the header.
    pub fn from_data(raw_data: Vec<u8>) -> (r: PolyglotResult<Self>)
        ensures
            raw_data@.len() < 6 || raw_data@.subrange(0, 3) != gif_tag() ==> r matches Err(
                PolyglotError::PngParse(_),
            ),
            !(raw_data@.len() < 6 || raw_data@.subrange(0, 3) != gif_tag()) ==> (r matches Ok(g)
                && g.raw_data@ == raw_data@ && g.parsed.header.signature@ == raw_data@.subrange(0, 3)
                && g.parsed.header.version@ == raw_data@.subrange(3, 6)
                && g.parsed.global_color_table is None && g.parsed.blocks@.len() == 0),
    {
        if raw_data.len() < 6 {
            return Err(PolyglotError::PngParse(text("File too short for GIF")));
        }
        let sig_ok = raw_data[0] == 0x47 && raw_data[1] == 0x49 && raw_data[2] == 0x46;
        assert(sig_ok == (raw_data@.subrange(0, 3) =~= gif_tag()));
        if !sig_ok {
            return Err(PolyglotError::PngParse(text("Invalid GIF signature")));
        }
        match GifStructure::parse(raw_data.as_slice()) {
            Ok(parsed) => Ok(Self { raw_data, parsed }),
            Err(e) => Err(e),
        }
    }

    /// Add ZIP data embedded in a comment extension (parasitic): the
    /// extension goes in right before the final trailer byte; a file that
    /// does not end with the trailer is left as it is.
    pub fn add_zip_comment_extension(&mut self, zip_data: &[u8]) -> (r: PolyglotResult<()>)
        ensures
            r is Ok,
            final(self).parsed == old(self).parsed,
            ends_with_trailer(old(self).raw_data@) ==> final(self).raw_data@ == old(self).raw_data@.subrange(
                0,
                old(self).raw_data@.len() - 1,
            ) + comment_extension(zip_data@) + gif_trailer(),
            !ends_with_trailer(old(self).raw_data@) ==> final(self).raw_data@ == old(self).raw_data@,
    {
        let mut comment_data: Vec<u8> = Vec::new();
        let prefix: [u8; 12] = [0x5A, 0x49, 0x50, 0x5F, 0x41, 0x52, 0x43, 0x48, 0x49, 0x56, 0x45, 0x3A];
        append_bytes(&mut comment_data, &prefix);
        append_bytes(&mut comment_data, zip_data);
        assert(prefix@ =~= zip_comment_prefix());
        let ghost c = comment_data@;
        let mut extension: Vec<u8> = Vec::new();
        extension.push(0x21);
        extension.push(0xFE);
        let n = comment_data.len();
        let mut pos: usize = 0;
        assert(c.subrange(0, n as int) =~= c);
        while n - pos > 255
            invariant
                pos <= n,
                n == c.len(),
                c == comment_data@,
                seq![0x21u8, 0xFEu8] + sub_blocks(c) == extension@ + sub_blocks(c.subrange(pos as int, n as int)),
            decreases n - pos,
        {
            let ghost rest = c.subrange(pos as int, n as int);
            assert(rest.subrange(0, 255) =~= c.subrange(pos as int, pos + 255));
            assert(rest.subrange(255, rest.len() as int) =~= c.subrange(pos + 255, n as int));
            extension.push(255);
            append_bytes(&mut extension, &comment_data.as_slice()[pos..pos + 255]);
            pos = pos + 255;
            assert(seq![0x21u8, 0xFEu8] + sub_blocks(c) =~= extension@ + sub_blocks(
                c.subrange(pos as int, n as int),
            ));
        }
        if pos < n {
            extension.push((n - pos) as u8);
            append_bytes(&mut extension, &comment_data.as_slice()[pos..n]);
        }
        assert(seq![0x21u8, 0xFEu8] + sub_blocks(c) =~= extension@);
        extension.push(0x00);
        let len = self.raw_data.len();
        if len > 0 && self.raw_data[len - 1] == 0x3B {
            let trailer_pos = len - 1;
            let mut new_data = copy_range(self.raw_data.as_slice(), 0, trailer_pos);
            append_bytes(&mut new_data, extension.as_slice());
            new_data.push(0x3B);
            assert(new_data@ =~= old(self).raw_data@.subrange(0, trailer_pos as int)
                + comment_extension(zip_data@) + gif_trailer());
            self.raw_data = new_data;
        }
        Ok(())
    }

    /// Get raw data
    pub fn as_bytes(&self) -> (r: &[u8])
        ensures
            r@ == self.raw_data@,
    {
        self.raw_data.as_slice()
    }
}

impl GifStructure {
    /// Read the header; the other parts are not parsed.
    pub fn parse(data: &[u8]) -> (r: PolyglotResult<Self>)
        ensures
            data@.len() < 6 ==> r matches Err(PolyglotError::PngParse(_)),
            data@.len() >= 6 ==> (r matches Ok(s) && s.header.signature@ == data@.subrange(0, 3)
                && s.header.version@ == data@.subrange(3, 6) && s.global_color_table is None
                && s.blocks@.len() == 0),
    {
        if data.len() < 6 {
            return Err(PolyglotError::PngParse(text("File too short for GIF")));
        }
        let header = GifHeader {
            signature: [data[0], data[1], data[2]],
            version: [data[3], data[4], data[5]],
        };
        assert(header.signature@ =~= data@.subrange(0, 3));
        assert(header.version@ =~= data@.subrange(3, 6));
        Ok(Self { header, global_color_table: None, blocks: Vec::new() })
    }
}

} // verus!
