//! Byte-level helpers: checksums and fixed-width integer fields.

use vstd::prelude::*;

verus! {

/// The CRC-32 (IEEE 802.3 polynomial) of a byte sequence.
pub uninterp spec fn crc32_of(data: Seq<u8>) -> u32;

/// Relies on `crc32fast::hash`: the CRC-32 checksum of the given bytes, which
/// depends on those bytes alone.
#[verifier::external_body]
pub fn calculate_crc32(data: &[u8]) -> (r: u32)
    ensures
        r == crc32_of(data@),
{
    crc32fast::hash(data)
}

/// Big-endian 32-bit value of the four bytes at `i`.
pub open spec fn be32(s: Seq<u8>, i: int) -> int {
    s[i] as int * 0x1000000 + s[i + 1] as int * 0x10000 + s[i + 2] as int * 0x100 + s[i + 3] as int
}

/// Little-endian 16-bit value of the two bytes at `i`.
pub open spec fn le16(s: Seq<u8>, i: int) -> int {
    s[i] as int + s[i + 1] as int * 0x100
}

/// Little-endian 32-bit value of the four bytes at `i`.
pub open spec fn le32(s: Seq<u8>, i: int) -> int {
    s[i] as int + s[i + 1] as int * 0x100 + s[i + 2] as int * 0x10000 + s[i + 3] as int * 0x1000000
}

/// Little-endian 64-bit value of the eight bytes at `i`.
pub open spec fn le64(s: Seq<u8>, i: int) -> int {
    le32(s, i) + le32(s, i + 4) * 0x1_0000_0000
}

/// The big-endian encoding of `v`.
pub open spec fn be32_bytes(v: u32) -> Seq<u8> {
    seq![
        (v / 0x1000000) as u8,
        ((v / 0x10000) % 0x100) as u8,
        ((v / 0x100) % 0x100) as u8,
        (v % 0x100) as u8,
    ]
}

/// The little-endian encoding of `v`.
pub open spec fn le16_bytes(v: u16) -> Seq<u8> {
    seq![(v % 0x100) as u8, (v / 0x100) as u8]
}

/// The little-endian encoding of `v`.
pub open spec fn le32_bytes(v: u32) -> Seq<u8> {
    seq![
        (v % 0x100) as u8,
        ((v / 0x100) % 0x100) as u8,
        ((v / 0x10000) % 0x100) as u8,
        (v / 0x1000000) as u8,
    ]
}

/// The little-endian encoding of `v`.
pub open spec fn le64_bytes(v: u64) -> Seq<u8> {
    le32_bytes((v % 0x1_0000_0000) as u32) + le32_bytes((v / 0x1_0000_0000) as u32)
}

/// `s` with the bytes from `at` on replaced by `piece`; the length is kept.
pub open spec fn overwrite(s: Seq<u8>, at: int, piece: Seq<u8>) -> Seq<u8> {
    Seq::new(s.len(), |i: int| if at <= i < at + piece.len() { piece[i - at] } else { s[i] })
}

pub proof fn lemma_be32_bytes(v: u32)
    ensures
        be32_bytes(v).len() == 4,
        be32(be32_bytes(v), 0) == v,
{
}

pub proof fn lemma_le32_bytes(v: u32)
    ensures
        le32_bytes(v).len() == 4,
        le32(le32_bytes(v), 0) == v,
{
}

/// Read a big-endian u32 from byte slice
pub fn read_u32_be(bytes: &[u8], offset: usize) -> (r: u32)
    requires
        offset + 4 <= bytes@.len(),
    ensures
        r == be32(bytes@, offset as int),
{
    let b0 = bytes[offset] as u32;
    let b1 = bytes[offset + 1] as u32;
    let b2 = bytes[offset + 2] as u32;
    let b3 = bytes[offset + 3] as u32;
    b0 * 0x1000000 + b1 * 0x10000 + b2 * 0x100 + b3
}


/// Write a big-endian u32 to byte slice
pub fn write_u32_be(bytes: &mut Vec<u8>, offset: usize, value: u32)
    requires
        offset + 4 <= old(bytes)@.len(),
    ensures
        final(bytes)@ == overwrite(old(bytes)@, offset as int, be32_bytes(value)),
{
    let len = bytes.len();
    assert(offset + 4 <= len);
    bytes.set(offset, (value / 0x1000000) as u8);
    bytes.set(offset + 1, ((value / 0x10000) % 0x100) as u8);
    bytes.set(offset + 2, ((value / 0x100) % 0x100) as u8);
    bytes.set(offset + 3, (value % 0x100) as u8);
    assert(bytes@ =~= overwrite(old(bytes)@, offset as int, be32_bytes(value)));
}

/// Read a little-endian u16 from byte slice
pub fn read_u16_le(bytes: &[u8], offset: usize) -> (r: u16)
    requires
        offset + 2 <= bytes@.len(),
    ensures
        r == le16(bytes@, offset as int),
{
    let b0 = bytes[offset] as u16;
    let b1 = bytes[offset + 1] as u16;
    b0 + b1 * 0x100
}

/// Read a little-endian u32 from byte slice
pub fn read_u32_le(bytes: &[u8], offset: usize) -> (r: u32)
    requires
        offset + 4 <= bytes@.len(),
    ensures
        r == le32(bytes@, offset as int),
{
    let b0 = bytes[offset] as u32;
    let b1 = bytes[offset + 1] as u32;
    let b2 = bytes[offset + 2] as u32;
    let b3 = bytes[offset + 3] as u32;
    b0 + b1 * 0x100 + b2 * 0x10000 + b3 * 0x1000000
}

/// Write a little-endian u32 to byte slice
pub fn write_u32_le(bytes: &mut Vec<u8>, offset: usize, value: u32)
    requires
        offset + 4 <= old(bytes)@.len(),
    ensures
        final(bytes)@ == overwrite(old(bytes)@, offset as int, le32_bytes(value)),
{
    let len = bytes.len();
    assert(offset + 4 <= len);
    bytes.set(offset, (value % 0x100) as u8);
    bytes.set(offset + 1, ((value / 0x100) % 0x100) as u8);
    bytes.set(offset + 2, ((value / 0x10000) % 0x100) as u8);
    bytes.set(offset + 3, (value / 0x1000000) as u8);
    assert(bytes@ =~= overwrite(old(bytes)@, offset as int, le32_bytes(value)));
}

/// Read a little-endian u64 from byte slice
pub fn read_u64_le(bytes: &[u8], offset: usize) -> (r: u64)
    requires
        offset + 8 <= bytes@.len(),
    ensures
        r == le64(bytes@, offset as int),
{
    let len = bytes.len();
    assert(offset + 8 <= len);
    let lo = read_u32_le(bytes, offset) as u64;
    let hi = read_u32_le(bytes, offset + 4) as u64;
    lo + hi * 0x1_0000_0000
}

/// Write a little-endian u64 to byte slice
pub fn write_u64_le(bytes: &mut Vec<u8>, offset: usize, value: u64)
    requires
        offset + 8 <= old(bytes)@.len(),
    ensures
        final(bytes)@ == overwrite(old(bytes)@, offset as int, le64_bytes(value)),
{
    let ghost start = bytes@;
    let len = bytes.len();
    assert(offset + 8 <= len);
    write_u32_le(bytes, offset, (value % 0x1_0000_0000) as u32);
    write_u32_le(bytes, offset + 4, (value / 0x1_0000_0000) as u32);
    assert(bytes@ =~= overwrite(start, offset as int, le64_bytes(value)));
}

/// Calculate offset adjustment for ZIP data embedded in PNG: the position
/// right after the first image-data chunk's original payload.
pub fn calculate_offset_adjustment(idat_start_offset: u64, original_idat_length: u64) -> (r: u64)
    requires
        idat_start_offset + original_idat_length <= u64::MAX,
    ensures
        r == idat_start_offset + original_idat_length,
{
    idat_start_offset + original_idat_length
}

/// The eight bytes that open every PNG file.
pub open spec fn png_magic() -> Seq<u8> {
    seq![0x89u8, 0x50u8, 0x4Eu8, 0x47u8, 0x0Du8, 0x0Au8, 0x1Au8, 0x0Au8]
}

/// Whether `s` holds `pat` at position `at`.
pub open spec fn has_at(s: Seq<u8>, at: int, pat: Seq<u8>) -> bool {
    0 <= at && at + pat.len() <= s.len() && s.subrange(at, at + pat.len()) == pat
}

/// Validate PNG signature
pub fn is_png_signature(data: &[u8]) -> (r: bool)
    ensures
        r == has_at(data@, 0, png_magic()),
{
    if data.len() < 8 {
        return false;
    }
    let r = data[0] == 0x89 && data[1] == 0x50 && data[2] == 0x4E && data[3] == 0x47
        && data[4] == 0x0D && data[5] == 0x0A && data[6] == 0x1A && data[7] == 0x0A;
    assert(r == (data@.subrange(0, 8) =~= png_magic()));
    r
}

/// Append `src` to `out`.
pub fn append_bytes(out: &mut Vec<u8>, src: &[u8])
    ensures
        final(out)@ == old(out)@ + src@,
{
    let ghost start = out@;
    let mut i: usize = 0;
    while i < src.len()
        invariant
            i <= src@.len(),
            out@ == start + src@.subrange(0, i as int),
        decreases src@.len() - i,
    {
        out.push(src[i]);
        i = i + 1;
        assert(out@ =~= start + src@.subrange(0, i as int));
    }
    assert(src@.subrange(0, src@.len() as int) =~= src@);
}

/// Append the big-endian encoding of `v` to `out`.
pub fn push_u32_be(out: &mut Vec<u8>, v: u32)
    ensures
        final(out)@ == old(out)@ + be32_bytes(v),
{
    out.push((v / 0x1000000) as u8);
    out.push(((v / 0x10000) % 0x100) as u8);
    out.push(((v / 0x100) % 0x100) as u8);
    out.push((v % 0x100) as u8);
    assert(out@ =~= old(out)@ + be32_bytes(v));
}

/// Append the little-endian encoding of `v` to `out`.
pub fn push_u32_le(out: &mut Vec<u8>, v: u32)
    ensures
        final(out)@ == old(out)@ + le32_bytes(v),
{
    out.push((v % 0x100) as u8);
    out.push(((v / 0x100) % 0x100) as u8);
    out.push(((v / 0x10000) % 0x100) as u8);
    out.push((v / 0x1000000) as u8);
    assert(out@ =~= old(out)@ + le32_bytes(v));
}

/// Append the little-endian encoding of `v` to `out`.
pub fn push_u16_le(out: &mut Vec<u8>, v: u16)
    ensures
        final(out)@ == old(out)@ + le16_bytes(v),
{
    out.push((v % 0x100) as u8);
    out.push((v / 0x100) as u8);
    assert(out@ =~= old(out)@ + le16_bytes(v));
}

/// A copy of `data[start..end]`.
pub fn copy_range(data: &[u8], start: usize, end: usize) -> (r: Vec<u8>)
    requires
        start <= end <= data@.len(),
    ensures
        r@ == data@.subrange(start as int, end as int),
{
    let mut r: Vec<u8> = Vec::new();
    append_bytes(&mut r, &data[start..end]);
    assert(r@ =~= data@.subrange(start as int, end as int));
    r
}

/// First position at or after `from` where `pat` occurs in `data`.
pub open spec fn first_match_from(data: Seq<u8>, pat: Seq<u8>, from: int) -> Option<int>
    decreases data.len() + 1 - from,
{
    if from < 0 || from + pat.len() > data.len() {
        None
    } else if has_at(data, from, pat) {
        Some(from)
    } else {
        first_match_from(data, pat, from + 1)
    }
}

/// What `first_match_from` finds is an occurrence, and none comes before it.
pub proof fn lemma_first_match(data: Seq<u8>, pat: Seq<u8>, from: int)
    ensures
        first_match_from(data, pat, from) matches Some(p) ==> {
            &&& from <= p
            &&& has_at(data, p, pat)
            &&& forall|q: int| from <= q < p ==> !has_at(data, q, pat)
        },
        first_match_from(data, pat, from) is None && from >= 0 ==> forall|q: int|
            from <= q ==> !has_at(data, q, pat),
    decreases data.len() + 1 - from,
{
    if from < 0 || from + pat.len() > data.len() {
    } else if !has_at(data, from, pat) {
        lemma_first_match(data, pat, from + 1);
    }
}

/// The position of the first occurrence of `pat` in `data` at or after `from`.
pub fn find_pattern(data: &[u8], pat: &[u8], from: usize) -> (r: Option<usize>)
    requires
        pat@.len() > 0,
    ensures
        r matches Some(p) ==> first_match_from(data@, pat@, from as int) == Some(p as int),
        r is None ==> first_match_from(data@, pat@, from as int) is None,
{
    if pat.len() > data.len() {
        return None;
    }
    let last = data.len() - pat.len();
    let mut i = from;
    while i <= last
        invariant
            from <= i,
            pat@.len() > 0,
            last + pat@.len() == data@.len(),
            data@.len() <= usize::MAX,
            first_match_from(data@, pat@, from as int) == first_match_from(data@, pat@, i as int),
        decreases last + 1 - i,
    {
        let mut j: usize = 0;
        let mut same = true;
        while j < pat.len()
            invariant
                j <= pat@.len(),
                i + pat@.len() <= data@.len(),
                data@.len() <= usize::MAX,
                same == (forall|k: int| 0 <= k < j ==> data@[i + k] == pat@[k]),
            decreases pat@.len() - j,
        {
            if data[i + j] != pat[j] {
                same = false;
            }
            j = j + 1;
        }
        if same {
            assert(data@.subrange(i as int, i + pat@.len()) =~= pat@);
            return Some(i);
        }
        assert(!has_at(data@, i as int, pat@)) by {
            let k = choose|k: int| 0 <= k < pat@.len() && data@[i + k] != pat@[k];
            if has_at(data@, i as int, pat@) {
                assert(data@.subrange(i as int, i + pat@.len())[k] == data@[i + k]);
            }
        }
        i = i + 1;
    }
    None
}

} // verus!
