//! ZIP central directory offset calculation and updating

use vstd::prelude::*;
use crate::utils::{le16, le32, le32_bytes, lemma_le32_bytes, overwrite, read_u16_le, read_u32_le, write_u32_le};
use crate::{text, PolyglotError, PolyglotResult};

verus! {

/// ZIP End of Central Directory record
#[derive(Debug, Clone, Copy)]
pub struct EocdRecord {
    pub signature: u32,
    pub disk_num: u16,
    pub cd_disk_num: u16,
    pub num_entries_disk: u16,
    pub num_entries_total: u16,
    pub cd_size: u32,
    pub cd_offset: u32,
    pub comment_length: u16,
}

/// ZIP64 End of Central Directory Locator
#[derive(Debug)]
pub struct Zip64EocdLocator {
    pub signature: u32,
    pub disk_num: u32,
    pub zip64_eocd_offset: u64,
    pub total_disks: u32,
}

/// ZIP64 End of Central Directory Record
#[derive(Debug)]
pub struct Zip64EocdRecord {
    pub signature: u32,
    pub eocd_size: u64,
    pub version_made: u16,
    pub version_needed: u16,
    pub disk_num: u32,
    pub cd_disk_num: u32,
    pub num_entries_disk: u64,
    pub num_entries_total: u64,
    pub cd_size: u64,
    pub cd_offset: u64,
}

pub const EOCD_SIGNATURE: u32 = 0x06054B50;

pub const CD_ENTRY_SIGNATURE: u32 = 0x02014B50;

pub const LOCAL_HEADER_SIGNATURE: u32 = 0x04034B50;

/// A trailer starts at `p`: its signature is there, its fixed part fits, and
/// its declared comment fits in the bytes that follow it.
pub open spec fn eocd_fits(data: Seq<u8>, p: int) -> bool {
    &&& 0 <= p
    &&& p + 22 <= data.len()
    &&& le32(data, p) == EOCD_SIGNATURE
    &&& le16(data, p + 20) <= data.len() - p - 22
}

/// The first trailer found scanning backward from `p` (position 0 excluded).
pub open spec fn eocd_scan(data: Seq<u8>, p: int) -> Option<int>
    decreases p,
{
    if p <= 0 {
        None
    } else if eocd_fits(data, p) {
        Some(p)
    } else {
        eocd_scan(data, p - 1)
    }
}

/// Where the trailer of an archive stands: the last position, no later than
/// 22 bytes before the end, that holds a consistent trailer.
pub open spec fn eocd_position(data: Seq<u8>) -> Option<int> {
    if data.len() < 22 {
        None
    } else {
        eocd_scan(data, data.len() - 22)
    }
}

/// The trailer record stored at `p`.
pub open spec fn eocd_at(data: Seq<u8>, p: int) -> EocdRecord {
    EocdRecord {
        signature: le32(data, p) as u32,
        disk_num: le16(data, p + 4) as u16,
        cd_disk_num: le16(data, p + 6) as u16,
        num_entries_disk: le16(data, p + 8) as u16,
        num_entries_total: le16(data, p + 10) as u16,
        cd_size: le32(data, p + 12) as u32,
        cd_offset: le32(data, p + 16) as u32,
        comment_length: le16(data, p + 20) as u16,
    }
}

/// A field of the trailer holds the reserved value that announces the
/// 64-bit extension.
pub open spec fn is_zip64(eocd: EocdRecord) -> bool {
    eocd.num_entries_disk == 0xFFFF || eocd.num_entries_total == 0xFFFF || eocd.cd_size
        == 0xFFFF_FFFF || eocd.cd_offset == 0xFFFF_FFFF
}

/// A position the scan returns holds a consistent trailer.
pub proof fn lemma_eocd_scan_fits(data: Seq<u8>, p: int)
    ensures
        eocd_scan(data, p) matches Some(q) ==> eocd_fits(data, q) && 0 < q <= p,
    decreases p,
{
    if p > 0 && !eocd_fits(data, p) {
        lemma_eocd_scan_fits(data, p - 1);
    }
}

/// Read the trailer record stored at `p`.
pub fn read_eocd_at(data: &[u8], p: usize) -> (r: EocdRecord)
    requires
        p + 22 <= data.len(),
    ensures
        r == eocd_at(data@, p as int),
{
    EocdRecord {
        signature: read_u32_le(data, p),
        disk_num: read_u16_le(data, p + 4),
        cd_disk_num: read_u16_le(data, p + 6),
        num_entries_disk: read_u16_le(data, p + 8),
        num_entries_total: read_u16_le(data, p + 10),
        cd_size: read_u32_le(data, p + 12),
        cd_offset: read_u32_le(data, p + 16),
        comment_length: read_u16_le(data, p + 20),
    }
}

/// The position of the trailer: a bounded backward scan from 22 bytes before
/// the end that accepts the first signature whose comment length is
/// consistent with the bytes that remain.
pub fn locate_eocd(data: &[u8]) -> (r: Option<usize>)
    ensures
        r matches Some(p) ==> eocd_position(data@) == Some(p as int),
        r is None ==> eocd_position(data@) is None,
{
    if data.len() < 22 {
        return None;
    }
    let mut offset = data.len() - 22;
    while offset > 0
        invariant
            offset + 22 <= data.len(),
            eocd_position(data@) == eocd_scan(data@, offset as int),
        decreases offset,
    {
        if read_u32_le(data, offset) == EOCD_SIGNATURE {
            let comment_length = read_u16_le(data, offset + 20);
            if comment_length as usize <= data.len() - offset - 22 {
                return Some(offset);
            }
        }
        offset = offset - 1;
    }
    None
}

/// Locate the End of Central Directory record in ZIP data
pub fn find_eocd(data: &[u8]) -> (r: PolyglotResult<EocdRecord>)
    ensures
        eocd_position(data@) matches Some(p) ==> r == Ok::<EocdRecord, PolyglotError>(
            eocd_at(data@, p),
        ),
        eocd_position(data@) is None ==> r matches Err(PolyglotError::ZipParse(_)),
{
    if data.len() < 22 {
        return Err(PolyglotError::ZipParse(text("ZIP data too short for EOCD")));
    }
    proof {
        lemma_eocd_scan_fits(data@, data@.len() - 22);
    }
    match locate_eocd(data) {
        Some(p) => Ok(read_eocd_at(data, p)),
        None => Err(PolyglotError::ZipParse(text("EOCD record not found"))),
    }
}

/// Check if ZIP uses ZIP64 format
pub fn uses_zip64(data: &[u8], eocd: &EocdRecord) -> (r: bool)
    ensures
        r == is_zip64(*eocd),
{
    eocd.num_entries_disk == 0xFFFF || eocd.num_entries_total == 0xFFFF || eocd.cd_size
        == 0xFFFF_FFFF || eocd.cd_offset == 0xFFFF_FFFF
}

/// Size of the directory entry at `pos`: its fixed part and its name, extra
/// field and comment.
pub open spec fn entry_size(data: Seq<u8>, pos: int) -> int {
    46 + le16(data, pos + 28) + le16(data, pos + 30) + le16(data, pos + 32)
}

/// Positions of the directory entries met walking from `pos`: at most
/// `fuel` of them, each whole and with its signature; the walk stops at the
/// first position that does not hold one.
pub open spec fn cd_walk(data: Seq<u8>, pos: int, fuel: nat) -> Seq<int>
    decreases fuel,
{
    if fuel == 0 || pos < 0 || pos + 46 > data.len() || le32(data, pos) != CD_ENTRY_SIGNATURE {
        Seq::empty()
    } else {
        seq![pos] + cd_walk(data, pos + entry_size(data, pos), (fuel - 1) as nat)
    }
}

/// The entries a walk from the directory start meets, with no count limit.
pub open spec fn directory_entries(data: Seq<u8>, cd_offset: int) -> Seq<int> {
    cd_walk(data, cd_offset, data.len())
}

/// Offset of an entry's local-header-offset field.
pub open spec fn offset_field(e: int) -> int {
    e + 42
}

/// The local header offset stored in the entry at `e`.
pub open spec fn header_offset(data: Seq<u8>, e: int) -> int {
    le32(data, offset_field(e))
}

/// `data` with the header offset of the entry at `e` raised by `adj`.
pub open spec fn shift_entry(data: Seq<u8>, e: int, adj: int) -> Seq<u8> {
    overwrite(data, offset_field(e), le32_bytes((header_offset(data, e) + adj) as u32))
}

/// The entries at `es` moved one after the other.
pub open spec fn shift_entries(data: Seq<u8>, es: Seq<int>, adj: int) -> Seq<u8>
    decreases es.len(),
{
    if es.len() == 0 {
        data
    } else {
        shift_entries(shift_entry(data, es[0], adj), es.drop_first(), adj)
    }
}

/// Every entry's new header offset fits its 32-bit field.
pub open spec fn shift_fits(data: Seq<u8>, es: Seq<int>, adj: int) -> bool {
    forall|k: int| 0 <= k < es.len() ==> header_offset(data, #[trigger] es[k]) + adj <= u32::MAX
}

/// The directory of `data` after its entries are moved by `adj`.
pub open spec fn directory_shifted(data: Seq<u8>, cd_offset: int, adj: int) -> Seq<u8> {
    if adj == 0 {
        data
    } else {
        shift_entries(data, directory_entries(data, cd_offset), adj)
    }
}

/// Whether moving the directory entries by `adj` keeps every offset in range.
pub open spec fn shift_possible(data: Seq<u8>, cd_offset: int, adj: int) -> bool {
    adj == 0 || (adj <= u32::MAX && shift_fits(data, directory_entries(data, cd_offset), adj))
}

/// The walk meets entries in increasing order, each whole, each at least a
/// fixed part after the one before.
pub proof fn lemma_walk_spaced(data: Seq<u8>, pos: int, fuel: nat)
    ensures
        forall|k: int|
            0 <= k < cd_walk(data, pos, fuel).len() ==> pos <= #[trigger] cd_walk(data, pos, fuel)[k]
                && cd_walk(data, pos, fuel)[k] + 46 <= data.len(),
        forall|j: int, k: int|
            0 <= j < k < cd_walk(data, pos, fuel).len() ==> #[trigger] cd_walk(data, pos, fuel)[j]
                + 46 <= #[trigger] cd_walk(data, pos, fuel)[k],
    decreases fuel,
{
    if fuel == 0 || pos < 0 || pos + 46 > data.len() || le32(data, pos) != CD_ENTRY_SIGNATURE {
    } else {
        let next = pos + entry_size(data, pos);
        lemma_walk_spaced(data, next, (fuel - 1) as nat);
        let rest = cd_walk(data, next, (fuel - 1) as nat);
        let all = cd_walk(data, pos, fuel);
        assert(all == seq![pos] + rest);
        assert forall|k: int| 0 < k < all.len() implies all[k] == rest[k - 1] by {}
    }
}

/// Byte `i` lies in the offset field of one of the entries at `es`.
pub open spec fn in_offset_fields(es: Seq<int>, i: int) -> bool {
    exists|k: int| 0 <= k < es.len() && offset_field(#[trigger] es[k]) <= i < offset_field(es[k]) + 4
}

/// Entries in increasing order, each whole and at least a fixed part apart.
pub open spec fn spaced(data: Seq<u8>, es: Seq<int>) -> bool {
    &&& forall|k: int| 0 <= k < es.len() ==> 0 <= #[trigger] es[k] && es[k] + 46 <= data.len()
    &&& forall|j: int, k: int| 0 <= j < k < es.len() ==> #[trigger] es[j] + 46 <= #[trigger] es[k]
}

/// Moving one entry raises its header offset and keeps every other byte.
proof fn lemma_shift_entry_effect(data: Seq<u8>, e: int, adj: int)
    requires
        0 <= e,
        e + 46 <= data.len(),
        0 <= adj,
        header_offset(data, e) + adj <= u32::MAX,
    ensures
        shift_entry(data, e, adj).len() == data.len(),
        header_offset(shift_entry(data, e, adj), e) == header_offset(data, e) + adj,
        forall|i: int|
            0 <= i < data.len() && !(offset_field(e) <= i < offset_field(e) + 4) ==> #[trigger] shift_entry(
                data,
                e,
                adj,
            )[i] == data[i],
{
    let v = (header_offset(data, e) + adj) as u32;
    lemma_le32_bytes(v);
    let d1 = shift_entry(data, e, adj);
    assert(d1.subrange(e + 42, e + 46) =~= le32_bytes(v));
}

/// Moving the entries at `es` adds `adj` to every entry's header offset and
/// leaves every byte outside the offset fields as it was.
#[verifier::rlimit(60)]
pub proof fn lemma_shift_entries_effect(data: Seq<u8>, es: Seq<int>, adj: int)
    requires
        spaced(data, es),
        shift_fits(data, es, adj),
        0 <= adj,
    ensures
        shift_entries(data, es, adj).len() == data.len(),
        forall|k: int|
            0 <= k < es.len() ==> header_offset(shift_entries(data, es, adj), #[trigger] es[k])
                == header_offset(data, es[k]) + adj,
        forall|i: int|
            0 <= i < data.len() && !in_offset_fields(es, i) ==> #[trigger] shift_entries(
                data,
                es,
                adj,
            )[i] == data[i],
    decreases es.len(),
{
    if es.len() > 0 {
        let e = es[0];
        let rest = es.drop_first();
        assert(header_offset(data, es[0]) + adj <= u32::MAX);
        lemma_shift_entry_effect(data, e, adj);
        let d1 = shift_entry(data, e, adj);
        let result = shift_entries(data, es, adj);
        assert(result == shift_entries(d1, rest, adj));
        assert forall|k: int| 0 <= k < rest.len() implies rest[k] == es[k + 1] && e + 46 <= rest[k] by {}
        assert forall|k: int| 0 <= k < rest.len() implies header_offset(d1, #[trigger] rest[k])
            == header_offset(data, rest[k]) by {
            assert(e + 46 <= rest[k]);
            assert(d1[rest[k] + 42] == data[rest[k] + 42]);
            assert(d1[rest[k] + 43] == data[rest[k] + 43]);
            assert(d1[rest[k] + 44] == data[rest[k] + 44]);
            assert(d1[rest[k] + 45] == data[rest[k] + 45]);
        }
        assert(spaced(d1, rest)) by {
            assert forall|j: int, k: int| 0 <= j < k < rest.len() implies #[trigger] rest[j] + 46
                <= #[trigger] rest[k] by {
                assert(es[j + 1] + 46 <= es[k + 1]);
            }
        }
        assert(shift_fits(d1, rest, adj)) by {
            assert forall|k: int| 0 <= k < rest.len() implies header_offset(d1, #[trigger] rest[k])
                + adj <= u32::MAX by {
                assert(rest[k] == es[k + 1]);
            }
        }
        lemma_shift_entries_effect(d1, rest, adj);
        assert forall|i: int| offset_field(e) <= i < offset_field(e) + 4 implies !in_offset_fields(rest, i) by {
            if in_offset_fields(rest, i) {
                let k = choose|k: int| 0 <= k < rest.len() && offset_field(#[trigger] rest[k]) <= i
                    < offset_field(rest[k]) + 4;
                assert(e + 46 <= rest[k]);
            }
        }
        assert forall|q: int| 0 <= q < 4 implies #[trigger] result[offset_field(e) + q] == d1[offset_field(e) + q] by {
            assert(!in_offset_fields(rest, offset_field(e) + q));
        }
        assert(header_offset(result, e) == header_offset(d1, e));
        assert forall|k: int| 0 <= k < es.len() implies header_offset(result, #[trigger] es[k])
            == header_offset(data, es[k]) + adj by {
            if k > 0 {
                assert(es[k] == rest[k - 1]);
            }
        }
        assert forall|i: int| 0 <= i < data.len() && !in_offset_fields(es, i) implies #[trigger] result[i]
            == data[i] by {
            if in_offset_fields(rest, i) {
                let k = choose|k: int| 0 <= k < rest.len() && offset_field(#[trigger] rest[k]) <= i
                    < offset_field(rest[k]) + 4;
                assert(es[k + 1] == rest[k]);
            }
            assert(!(offset_field(es[0]) <= i < offset_field(es[0]) + 4));
        }
    }
}

/// The walk over the directory, step by step.
pub fn walk_entries(data: &[u8], start: usize, fuel: usize) -> (r: Vec<usize>)
    ensures
        r@.map_values(|p: usize| p as int) == cd_walk(data@, start as int, fuel as nat),
{
    let mut r: Vec<usize> = Vec::new();
    let mut pos = start;
    let mut left = fuel;
    let ghost all = cd_walk(data@, start as int, fuel as nat);
    while left > 0 && pos <= data.len() && data.len() - pos >= 46 && read_u32_le(data, pos)
        == CD_ENTRY_SIGNATURE
        invariant
            all == cd_walk(data@, start as int, fuel as nat),
            all == r@.map_values(|p: usize| p as int) + cd_walk(data@, pos as int, left as nat),
        decreases left,
    {
        let ghost before = r@.map_values(|p: usize| p as int);
        let name_len = read_u16_le(data, pos + 28) as usize;
        let extra_len = read_u16_le(data, pos + 30) as usize;
        let comment_len = read_u16_le(data, pos + 32) as usize;
        r.push(pos);
        assert(r@.map_values(|p: usize| p as int) =~= before.push(pos as int));
        assert(cd_walk(data@, pos as int, left as nat) == seq![pos as int] + cd_walk(
            data@,
            pos + entry_size(data@, pos as int),
            (left - 1) as nat,
        ));
        let size = 46 + name_len + extra_len + comment_len;
        left = left - 1;
        if size > data.len() - pos {
            assert(cd_walk(data@, pos + size, left as nat) =~= Seq::<int>::empty());
            assert(all =~= r@.map_values(|p: usize| p as int));
            return r;
        }
        pos = pos + size;
        assert(all =~= r@.map_values(|p: usize| p as int) + cd_walk(data@, pos as int, left as nat));
    }
    assert(cd_walk(data@, pos as int, left as nat) =~= Seq::<int>::empty());
    assert(all =~= r@.map_values(|p: usize| p as int));
    r
}

/// Positions of the first `count` directory entries from `cd_offset`, or
/// fewer where the walk meets a position without an entry.
pub fn locate_directory_entries(data: &[u8], eocd: &EocdRecord) -> (r: Vec<usize>)
    ensures
        r@.map_values(|p: usize| p as int) == cd_walk(
            data@,
            eocd.cd_offset as int,
            eocd.num_entries_total as nat,
        ),
{
    walk_entries(data, eocd.cd_offset as usize, eocd.num_entries_total as usize)
}

/// Update all central directory entry offsets in ZIP data: every entry
/// found walking from the directory start has its local header offset raised
/// by the adjustment, or nothing changes when one would leave 32 bits.
pub fn update_central_directory_offsets(
    data: &mut Vec<u8>,
    original_cd_offset: u32,
    offset_adjustment: u64,
) -> (r: PolyglotResult<()>)
    ensures
        shift_possible(old(data)@, original_cd_offset as int, offset_adjustment as int) ==> (r is Ok
            && final(data)@ == directory_shifted(
            old(data)@,
            original_cd_offset as int,
            offset_adjustment as int,
        )),
        shift_possible(old(data)@, original_cd_offset as int, offset_adjustment as int) ==> ({
            let es = directory_entries(old(data)@, original_cd_offset as int);
            &&& final(data)@.len() == old(data)@.len()
            &&& forall|k: int|
                0 <= k < es.len() ==> header_offset(final(data)@, #[trigger] es[k]) == header_offset(
                    old(data)@,
                    es[k],
                ) + offset_adjustment
            &&& forall|i: int|
                0 <= i < old(data)@.len() && !in_offset_fields(es, i) ==> #[trigger] final(data)@[i]
                    == old(data)@[i]
        }),
        !shift_possible(old(data)@, original_cd_offset as int, offset_adjustment as int) ==> (r
            matches Err(PolyglotError::OffsetOverflow) && final(data)@ == old(data)@),
{
    let ghost orig = data@;
    let ghost es0 = directory_entries(orig, original_cd_offset as int);
    proof {
        lemma_walk_spaced(orig, original_cd_offset as int, orig.len());
    }
    if offset_adjustment == 0 {
        return Ok(());
    }
    if offset_adjustment > 0xFFFF_FFFF {
        return Err(PolyglotError::OffsetOverflow);
    }
    let adjustment = offset_adjustment as u32;
    let len = data.len();
    let entries = walk_entries(data.as_slice(), original_cd_offset as usize, len);
    let ghost es = entries@.map_values(|p: usize| p as int);
    let n = entries.len();
    let mut k: usize = 0;
    while k < n
        invariant
            n == es.len(),
            es == entries@.map_values(|p: usize| p as int),
            es == directory_entries(orig, original_cd_offset as int),
            orig == data@,
            orig == old(data)@,
            adjustment as int == offset_adjustment as int,
            offset_adjustment != 0,
            len == orig.len(),
            k <= n,
            forall|i: int| 0 <= i < n ==> (#[trigger] es[i]) + 46 <= orig.len(),
            forall|j: int| 0 <= j < k ==> header_offset(orig, #[trigger] es[j]) + adjustment <= u32::MAX,
        decreases n - k,
    {
        let e = entries[k];
        assert(es[k as int] == e);
        let current = read_u32_le(data.as_slice(), e + 42);
        if current as u64 + adjustment as u64 > 0xFFFF_FFFF {
            assert(!shift_fits(orig, es, adjustment as int));
            assert(!shift_possible(orig, original_cd_offset as int, offset_adjustment as int));
            return Err(PolyglotError::OffsetOverflow);
        }
        k = k + 1;
    }
    assert(es.subrange(0, n as int) =~= es);
    k = 0;
    while k < n
        invariant
            n == es.len(),
            len == orig.len(),
            es == entries@.map_values(|p: usize| p as int),
            es == directory_entries(orig, original_cd_offset as int),
            k <= n,
            data@.len() == orig.len(),
            forall|i: int| 0 <= i < n ==> (#[trigger] es[i]) + 46 <= orig.len(),
            forall|i: int, j: int| 0 <= i < j < n ==> #[trigger] es[i] + 46 <= #[trigger] es[j],
            shift_fits(orig, es, adjustment as int),
            k < n ==> forall|i: int| es[k as int] <= i < orig.len() ==> data@[i] == orig[i],
            shift_entries(orig, es, adjustment as int) == shift_entries(
                data@,
                es.subrange(k as int, n as int),
                adjustment as int,
            ),
        decreases n - k,
    {
        let e = entries[k];
        assert(es[k as int] == e);
        let ghost cur = data@;
        assert(es.subrange(k as int, n as int).drop_first() =~= es.subrange(k + 1, n as int));
        assert(es.subrange(k as int, n as int)[0] == e);
        let current = read_u32_le(data.as_slice(), e + 42);
        assert(header_offset(cur, e as int) == header_offset(orig, e as int));
        write_u32_le(data, e + 42, current + adjustment);
        assert(data@ == shift_entry(cur, e as int, adjustment as int));
        k = k + 1;
        if k < n {
            assert(es[k - 1] + 46 <= es[k as int]);
        }
    }
    assert(es.subrange(n as int, n as int) =~= Seq::<int>::empty());
    proof {
        lemma_shift_entries_effect(orig, es, adjustment as int);
    }
    Ok(())
}

/// Update the central directory offset in the EOCD record
pub fn update_eocd_cd_offset(data: &mut Vec<u8>, eocd_offset: usize, new_cd_offset: u32) -> (r:
    PolyglotResult<()>)
    ensures
        eocd_offset + 20 <= old(data)@.len() ==> (r is Ok && final(data)@ == overwrite(
            old(data)@,
            eocd_offset + 16,
            le32_bytes(new_cd_offset),
        )),
        eocd_offset + 20 > old(data)@.len() ==> (r matches Err(PolyglotError::ZipParse(_))
            && final(data)@ == old(data)@),
{
    if eocd_offset > data.len() || data.len() - eocd_offset < 20 {
        return Err(PolyglotError::ZipParse(text("Invalid EOCD offset")));
    }
    write_u32_le(data, eocd_offset + 16, new_cd_offset);
    Ok(())
}

/// Walking from the trailer's directory offset meets as many directory
/// entries as the trailer announces, and each points at a local file header.
pub open spec fn directory_consistent(data: Seq<u8>, eocd: EocdRecord) -> bool {
    let es = cd_walk(data, eocd.cd_offset as int, eocd.num_entries_total as nat);
    &&& es.len() == eocd.num_entries_total
    &&& forall|k: int|
        0 <= k < es.len() ==> header_offset(data, #[trigger] es[k]) + 4 <= data.len() && le32(
            data,
            header_offset(data, es[k]),
        ) == LOCAL_HEADER_SIGNATURE
}

/// Check that the directory holds the announced entries and that each
/// entry's header offset points at a local file header.
pub fn check_directory(data: &[u8], eocd: &EocdRecord) -> (r: PolyglotResult<()>)
    ensures
        directory_consistent(data@, *eocd) ==> r is Ok,
        !directory_consistent(data@, *eocd) ==> r matches Err(PolyglotError::ZipParse(_)),
{
    let entries = locate_directory_entries(data, eocd);
    let ghost es = entries@.map_values(|p: usize| p as int);
    proof {
        lemma_walk_spaced(data@, eocd.cd_offset as int, eocd.num_entries_total as nat);
    }
    if entries.len() != eocd.num_entries_total as usize {
        return Err(PolyglotError::ZipParse(text("Directory holds fewer entries than announced")));
    }
    let mut k: usize = 0;
    while k < entries.len()
        invariant
            es == entries@.map_values(|p: usize| p as int),
            es == cd_walk(data@, eocd.cd_offset as int, eocd.num_entries_total as nat),
            k <= es.len(),
            forall|i: int| 0 <= i < es.len() ==> (#[trigger] es[i]) + 46 <= data.len(),
            forall|j: int|
                0 <= j < k ==> header_offset(data@, #[trigger] es[j]) + 4 <= data@.len() && le32(
                    data@,
                    header_offset(data@, es[j]),
                ) == LOCAL_HEADER_SIGNATURE,
        decreases es.len() - k,
    {
        let e = entries[k];
        assert(es[k as int] == e);
        let target = read_u32_le(data, e + 42) as usize;
        if target > data.len() || data.len() - target < 4 || read_u32_le(data, target)
            != LOCAL_HEADER_SIGNATURE {
            return Err(PolyglotError::ZipParse(text("Directory entry does not point at a local header")));
        }
        k = k + 1;
    }
    Ok(())
}

/// The bytes open with a local file header signature.
pub open spec fn has_zip_signature(data: Seq<u8>) -> bool {
    data.len() >= 4 && le32(data, 0) == LOCAL_HEADER_SIGNATURE
}

/// Validate that the data looks like a valid ZIP file
pub fn validate_zip_signature(data: &[u8]) -> (r: bool)
    ensures
        r == has_zip_signature(data@),
{
    if data.len() < 4 {
        return false;
    }
    read_u32_le(data, 0) == LOCAL_HEADER_SIGNATURE
}

} // verus!
