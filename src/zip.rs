//! ZIP archive manipulation module

use vstd::prelude::*;

pub mod offsets;

use crate::utils::{le32_bytes, overwrite};
use crate::{text, PolyglotError, PolyglotResult};
use offsets::{
    directory_shifted, eocd_at, eocd_position, has_zip_signature, is_zip64, lemma_eocd_scan_fits,
    shift_possible, EocdRecord,
};

verus! {

/// ZIP archive representation with offset tracking
#[derive(Debug)]
pub struct ZipArchive {
    pub data: Vec<u8>,
    pub eocd_offset: usize,
    pub eocd: EocdRecord,
    /// Set once the directory offsets were moved; a second move is refused.
    pub shifted: bool,
}

/// The bytes form an archive this library handles: they open with a local
/// file header, hold a consistent trailer, and do not use the 64-bit
/// extension.
pub open spec fn archive_ok(data: Seq<u8>) -> bool {
    &&& has_zip_signature(data)
    &&& eocd_position(data) is Some
    &&& !is_zip64(eocd_at(data, eocd_position(data)->0))
}

/// The error that says why `data` is not an archive this library handles,
/// with its message.
pub open spec fn reports_zip_fault(e: PolyglotError, data: Seq<u8>) -> bool {
    if !has_zip_signature(data) {
        e matches PolyglotError::ZipParse(s) && s@ == "Invalid ZIP signature"@
    } else if eocd_position(data) is None {
        e matches PolyglotError::ZipParse(s) && s@ == "EOCD record not found"@
    } else {
        e matches PolyglotError::ZipParse(s) && s@ == "ZIP64 format not supported"@
    }
}

/// The bytes of an archive after its directory is moved by `adj`: the
/// entries' header offsets, then the trailer's directory offset.
pub open spec fn relocated(data: Seq<u8>, eocd_offset: int, cd_offset: int, adj: int) -> Seq<u8> {
    overwrite(
        directory_shifted(data, cd_offset, adj),
        eocd_offset + 16,
        le32_bytes((cd_offset + adj) as u32),
    )
}

impl ZipArchive {
    /// The cached trailer is the one stored at the trailer offset.
    pub open spec fn wf(&self) -> bool {
        &&& self.eocd_offset + 22 <= self.data@.len()
        &&& self.eocd == eocd_at(self.data@, self.eocd_offset as int)
    }

    /// Whether the directory offsets were already moved.
    pub open spec fn is_shifted(&self) -> bool {
        self.shifted
    }

    /// Create from raw data
    pub fn from_data(data: Vec<u8>) -> (r: PolyglotResult<Self>)
        ensures
            archive_ok(data@) ==> (r matches Ok(a) && a.wf() && a.data@ == data@ && a.eocd_offset
                == eocd_position(data@)->0 && !a.is_shifted()),
            !archive_ok(data@) ==> (r matches Err(e) && reports_zip_fault(e, data@)),
    {
        if !offsets::validate_zip_signature(data.as_slice()) {
            return Err(PolyglotError::ZipParse(text("Invalid ZIP signature")));
        }
        let eocd_offset = match offsets::locate_eocd(data.as_slice()) {
            Some(p) => p,
            None => return Err(PolyglotError::ZipParse(text("EOCD record not found"))),
        };
        proof {
            lemma_eocd_scan_fits(data@, data@.len() - 22);
        }
        let eocd = offsets::read_eocd_at(data.as_slice(), eocd_offset);
        if offsets::uses_zip64(data.as_slice(), &eocd) {
            return Err(PolyglotError::ZipParse(text("ZIP64 format not supported")));
        }
        Ok(Self { data, eocd_offset, eocd, shifted: false })
    }

    /// Calculate required offset adjustments for embedding at the given position
    pub fn calculate_offset_adjustment(&self, embed_position: u64) -> (r: Result<
        u64,
        PolyglotError,
    >)
        ensures
            r == Ok::<u64, PolyglotError>(embed_position),
    {
        Ok(embed_position)
    }

    /// Update central directory offsets for new embedding position.
    ///
    /// The shift is applied at most once: a second call is rejected and
    /// leaves the archive as it is, as does a shift that would take an
    /// offset out of its 32-bit field.
    pub fn update_central_directory_offsets(&mut self, offset_adjustment: u64) -> (r:
        PolyglotResult<()>)
        requires
            old(self).wf(),
        ensures
            final(self).wf(),
            shift_outcome(*old(self), *final(self), offset_adjustment as int, r),
    {
        if self.shifted {
            return Err(PolyglotError::OffsetsAlreadyPatched);
        }
        if offsets::uses_zip64(self.data.as_slice(), &self.eocd) {
            return Err(PolyglotError::ZipParse(text("ZIP64 format not supported")));
        }
        let cd_offset = self.eocd.cd_offset;
        if offset_adjustment > 0xFFFF_FFFF || cd_offset as u64 + offset_adjustment > 0xFFFF_FFFF {
            return Err(PolyglotError::OffsetOverflow);
        }
        let new_cd_offset = cd_offset + offset_adjustment as u32;
        match offsets::update_central_directory_offsets(&mut self.data, cd_offset, offset_adjustment) {
            Ok(()) => {},
            Err(e) => return Err(e),
        }
        proof {
            lemma_shift_keeps_length(old(self).data@, cd_offset as int, offset_adjustment as int);
        }
        match offsets::update_eocd_cd_offset(&mut self.data, self.eocd_offset, new_cd_offset) {
            Ok(()) => {},
            Err(e) => return Err(e),
        }
        self.eocd = offsets::read_eocd_at(self.data.as_slice(), self.eocd_offset);
        proof {
            crate::utils::lemma_le32_bytes(new_cd_offset);
            let p = self.eocd_offset + 16;
            assert(self.data@.subrange(p, p + 4) =~= le32_bytes(new_cd_offset));
            assert(crate::utils::le32(self.data@, p) == crate::utils::le32(le32_bytes(new_cd_offset), 0));
        }
        self.shifted = true;
        proof {
            lemma_relocation_exact(
                old(self).data@,
                old(self).eocd_offset as int,
                cd_offset as int,
                offset_adjustment as int,
            );
        }
        Ok(())
    }

    /// Get the ZIP data as bytes
    pub fn as_bytes(&self) -> (r: &[u8])
        ensures
            r@ == self.data@,
    {
        self.data.as_slice()
    }

    /// Get mutable reference to ZIP data
    pub fn as_bytes_mut(&mut self) -> (r: &mut [u8])
        ensures
            r@ == old(self).data@,
    {
        self.data.as_mut_slice()
    }

    /// Size of the ZIP archive
    pub fn size(&self) -> (r: usize)
        ensures
            r == self.data@.len(),
    {
        self.data.len()
    }
}

/// What moving the directory of `a` by `adj` gives: `b` and the result `r`.
pub open spec fn shift_outcome(a: ZipArchive, b: ZipArchive, adj: int, r: PolyglotResult<()>) -> bool {
    if a.is_shifted() {
        r matches Err(PolyglotError::OffsetsAlreadyPatched) && unchanged(a, b)
    } else if is_zip64(a.eocd) {
        r matches Err(PolyglotError::ZipParse(_)) && unchanged(a, b)
    } else if !shift_allowed(a, adj) {
        r matches Err(PolyglotError::OffsetOverflow) && unchanged(a, b)
    } else {
        &&& r is Ok
        &&& b.is_shifted()
        &&& b.eocd_offset == a.eocd_offset
        &&& b.data@ == relocated(a.data@, a.eocd_offset as int, a.eocd.cd_offset as int, adj)
        &&& b.eocd.cd_offset == a.eocd.cd_offset + adj
        &&& entries_moved(a, b, adj)
    }
}

/// Every directory entry of `a` that lies before its trailer has, in `b`,
/// its local header offset raised by `adj`.
pub open spec fn entries_moved(a: ZipArchive, b: ZipArchive, adj: int) -> bool {
    let es = offsets::directory_entries(a.data@, a.eocd.cd_offset as int);
    forall|k: int|
        0 <= k < es.len() && es[k] + 46 <= a.eocd_offset ==> offsets::header_offset(
            b.data@,
            #[trigger] es[k],
        ) == offsets::header_offset(a.data@, es[k]) + adj
}

/// A directory is moved at most once: after a move succeeded, a second one
/// fails with `OffsetsAlreadyPatched` and leaves the archive as it is.
pub proof fn lemma_shift_applies_once(
    a: ZipArchive,
    b: ZipArchive,
    c: ZipArchive,
    first: int,
    second: int,
    r1: PolyglotResult<()>,
    r2: PolyglotResult<()>,
)
    requires
        shift_outcome(a, b, first, r1),
        r1 is Ok,
        shift_outcome(b, c, second, r2),
    ensures
        r2 matches Err(PolyglotError::OffsetsAlreadyPatched),
        unchanged(b, c),
{
}

/// Relocating an archive by `adj` adds exactly `adj` to the local header
/// offset of every directory entry that lies before the trailer, sets the
/// trailer's directory offset to its old value plus `adj`, and leaves every
/// other byte as it was, so that the original bytes are recovered by
/// subtracting `adj` from those fields.
pub proof fn lemma_relocation_exact(data: Seq<u8>, eocd_offset: int, cd_offset: int, adj: int)
    requires
        0 <= adj,
        0 <= cd_offset,
        cd_offset + adj <= u32::MAX,
        0 <= eocd_offset,
        eocd_offset + 22 <= data.len(),
        shift_possible(data, cd_offset, adj),
    ensures
        ({
            let es = offsets::directory_entries(data, cd_offset);
            let moved = relocated(data, eocd_offset, cd_offset, adj);
            &&& moved.len() == data.len()
            &&& forall|k: int|
                0 <= k < es.len() && es[k] + 46 <= eocd_offset ==> offsets::header_offset(
                    moved,
                    #[trigger] es[k],
                ) == offsets::header_offset(data, es[k]) + adj
            &&& crate::utils::le32(moved, eocd_offset + 16) == cd_offset + adj
            &&& forall|i: int|
                0 <= i < data.len() && !offsets::in_offset_fields(es, i) && !(eocd_offset + 16 <= i
                    < eocd_offset + 20) ==> #[trigger] moved[i] == data[i]
        }),
{
    let es = offsets::directory_entries(data, cd_offset);
    offsets::lemma_walk_spaced(data, cd_offset, data.len());
    if adj != 0 {
        offsets::lemma_shift_entries_effect(data, es, adj);
    }
    let shifted = directory_shifted(data, cd_offset, adj);
    let moved = relocated(data, eocd_offset, cd_offset, adj);
    crate::utils::lemma_le32_bytes((cd_offset + adj) as u32);
    assert(moved.subrange(eocd_offset + 16, eocd_offset + 20) =~= le32_bytes((cd_offset + adj) as u32));
    assert forall|k: int| 0 <= k < es.len() && es[k] + 46 <= eocd_offset implies offsets::header_offset(
        moved,
        #[trigger] es[k],
    ) == offsets::header_offset(shifted, es[k]) by {}
}

/// Behind a stub of `adj` bytes, a relocated archive's offsets point at its
/// structures again: every entry's new local header offset at a local file
/// header, and the trailer's new directory offset at the first directory
/// entry. The archive is well formed: its entries lie before the trailer and
/// point at local headers that lie before the directory.
pub proof fn lemma_relocated_behind_stub(
    data: Seq<u8>,
    eocd_offset: int,
    cd_offset: int,
    adj: int,
    stub: Seq<u8>,
)
    requires
        0 <= adj,
        stub.len() == adj,
        0 <= cd_offset,
        cd_offset + adj <= u32::MAX,
        0 <= eocd_offset,
        eocd_offset + 22 <= data.len(),
        shift_possible(data, cd_offset, adj),
        forall|k: int|
            0 <= k < offsets::directory_entries(data, cd_offset).len() ==> {
                let e = #[trigger] offsets::directory_entries(data, cd_offset)[k];
                &&& e + 46 <= eocd_offset
                &&& 0 <= offsets::header_offset(data, e)
                &&& offsets::header_offset(data, e) + 4 <= cd_offset
                &&& crate::utils::le32(data, offsets::header_offset(data, e))
                    == offsets::LOCAL_HEADER_SIGNATURE
            },
    ensures
        ({
            let es = offsets::directory_entries(data, cd_offset);
            let moved = relocated(data, eocd_offset, cd_offset, adj);
            let whole = stub + moved;
            &&& forall|k: int|
                0 <= k < es.len() ==> crate::utils::le32(
                    whole,
                    offsets::header_offset(moved, #[trigger] es[k]),
                ) == offsets::LOCAL_HEADER_SIGNATURE
            &&& es.len() > 0 ==> crate::utils::le32(whole, crate::utils::le32(moved, eocd_offset + 16))
                == offsets::CD_ENTRY_SIGNATURE
        }),
{
    let es = offsets::directory_entries(data, cd_offset);
    let moved = relocated(data, eocd_offset, cd_offset, adj);
    let whole = stub + moved;
    lemma_relocation_exact(data, eocd_offset, cd_offset, adj);
    offsets::lemma_walk_spaced(data, cd_offset, data.len());
    // Bytes before the directory, or in the directory's first entry header
    // before its offset field, are neither offset fields nor the trailer's.
    assert forall|i: int| 0 <= i < cd_offset + 4 && i < data.len() && es.len() > 0 implies #[trigger] moved[i]
        == data[i] by {
        if offsets::in_offset_fields(es, i) {
            let k = choose|k: int| 0 <= k < es.len() && offsets::offset_field(#[trigger] es[k]) <= i
                < offsets::offset_field(es[k]) + 4;
            assert(cd_offset <= es[k]);
        }
        assert(es[0] + 46 <= eocd_offset);
        assert(cd_offset <= es[0]);
        assert(!offsets::in_offset_fields(es, i));
        assert(!(eocd_offset + 16 <= i < eocd_offset + 20));
    }
    assert forall|k: int| 0 <= k < es.len() implies crate::utils::le32(
        whole,
        offsets::header_offset(moved, #[trigger] es[k]),
    ) == offsets::LOCAL_HEADER_SIGNATURE by {
        let e = es[k];
        let h = offsets::header_offset(data, e);
        assert(e + 46 <= eocd_offset);
        assert(offsets::header_offset(moved, e) == h + adj);
        assert(whole[h + adj] == moved[h]);
        assert(whole[h + adj + 1] == moved[h + 1]);
        assert(whole[h + adj + 2] == moved[h + 2]);
        assert(whole[h + adj + 3] == moved[h + 3]);
        assert(moved[h] == data[h]);
        assert(moved[h + 1] == data[h + 1]);
        assert(moved[h + 2] == data[h + 2]);
        assert(moved[h + 3] == data[h + 3]);
    }
    if es.len() > 0 {
        assert(es[0] == cd_offset);
        assert(crate::utils::le32(data, cd_offset) == offsets::CD_ENTRY_SIGNATURE);
        let c = cd_offset;
        assert(whole[c + adj] == moved[c]);
        assert(whole[c + adj + 1] == moved[c + 1]);
        assert(whole[c + adj + 2] == moved[c + 2]);
        assert(whole[c + adj + 3] == moved[c + 3]);
        assert(moved[c] == data[c]);
        assert(moved[c + 1] == data[c + 1]);
        assert(moved[c + 2] == data[c + 2]);
        assert(moved[c + 3] == data[c + 3]);
    }
}

/// Both archives hold the same bytes and the same bookkeeping.
pub open spec fn unchanged(a: ZipArchive, b: ZipArchive) -> bool {
    &&& a.data@ == b.data@
    &&& a.eocd_offset == b.eocd_offset
    &&& a.eocd == b.eocd
    &&& a.shifted == b.shifted
}

/// Moving the directory by `adj` keeps every offset, the trailer's included,
/// within its 32-bit field.
pub open spec fn shift_allowed(a: ZipArchive, adj: int) -> bool {
    &&& adj <= u32::MAX
    &&& a.eocd.cd_offset + adj <= u32::MAX
    &&& shift_possible(a.data@, a.eocd.cd_offset as int, adj)
}

proof fn lemma_shift_entries_len(data: Seq<u8>, es: Seq<int>, adj: int)
    ensures
        offsets::shift_entries(data, es, adj).len() == data.len(),
    decreases es.len(),
{
    if es.len() > 0 {
        lemma_shift_entries_len(offsets::shift_entry(data, es[0], adj), es.drop_first(), adj);
    }
}

/// Moving the directory keeps the length of the bytes.
pub proof fn lemma_shift_keeps_length(data: Seq<u8>, cd_offset: int, adj: int)
    ensures
        directory_shifted(data, cd_offset, adj).len() == data.len(),
{
    if adj != 0 {
        lemma_shift_entries_len(data, offsets::directory_entries(data, cd_offset), adj);
    }
}

} // verus!
