//! Little-endian integers and byte slices.

use vstd::prelude::*;

verus! {

/// The little-endian 16-bit value at `off`.
#[verifier::opaque]
pub open spec fn le16(b: Seq<u8>, off: int) -> u16 {
    (b[off] + b[off + 1] * 0x100) as u16
}

/// The little-endian 32-bit value at `off`.
#[verifier::opaque]
pub open spec fn le32(b: Seq<u8>, off: int) -> u32 {
    (b[off] + b[off + 1] * 0x100 + b[off + 2] * 0x1_0000 + b[off + 3] * 0x100_0000) as u32
}

/// The two bytes of a 16-bit value, least significant first.
pub open spec fn le16_bytes(v: u16) -> Seq<u8> {
    seq![(v % 0x100) as u8, (v / 0x100) as u8]
}

/// The four bytes of a 32-bit value, least significant first.
pub open spec fn le32_bytes(v: u32) -> Seq<u8> {
    seq![
        (v % 0x100) as u8,
        (v / 0x100 % 0x100) as u8,
        (v / 0x1_0000 % 0x100) as u8,
        (v / 0x100_0000) as u8,
    ]
}

/// Reads the little-endian 32-bit value at `off`.
pub fn get_le32(b: &[u8], off: usize) -> (r: u32)
    requires
        off + 4 <= b@.len(),
    ensures
        r == le32(b@, off as int),
{
    reveal(le32);
    let n: usize = b.len();
    assert(off + 4 <= n);
    (b[off] as u32) + (b[off + 1] as u32) * 0x100 + (b[off + 2] as u32) * 0x1_0000 + (b[off
        + 3] as u32) * 0x100_0000
}

/// Reads the little-endian 16-bit value at `off`.
pub fn get_le16(b: &[u8], off: usize) -> (r: u16)
    requires
        off + 2 <= b@.len(),
    ensures
        r == le16(b@, off as int),
{
    reveal(le16);
    let n: usize = b.len();
    assert(off + 2 <= n);
    (b[off] as u16) + (b[off + 1] as u16) * 0x100
}

/// `zerocopy::byteorder::little_endian::U32`: `from_bytes` keeps the four
/// bytes, and `get` reads them with the first as the least significant.
#[verifier::external_body]
pub(crate) fn u32_from_le(b: [u8; 4]) -> (r: u32)
    ensures
        r == le32(b@, 0),
{
    zerocopy::byteorder::little_endian::U32::from_bytes(b).get()
}

/// `zerocopy::byteorder::little_endian::U32`: `new` stores the value with its
/// least significant byte first, and `to_bytes` hands the four bytes out.
#[verifier::external_body]
pub(crate) fn u32_to_le(v: u32) -> (r: [u8; 4])
    ensures
        r@ == le32_bytes(v),
{
    zerocopy::byteorder::little_endian::U32::new(v).to_bytes()
}

/// `zerocopy::byteorder::little_endian::U16`: as for 32 bits, with two bytes.
#[verifier::external_body]
pub(crate) fn u16_from_le(b: [u8; 2]) -> (r: u16)
    ensures
        r == le16(b@, 0),
{
    zerocopy::byteorder::little_endian::U16::from_bytes(b).get()
}

/// `zerocopy::byteorder::little_endian::U16`: as for 32 bits, with two bytes.
#[verifier::external_body]
pub(crate) fn u16_to_le(v: u16) -> (r: [u8; 2])
    ensures
        r@ == le16_bytes(v),
{
    zerocopy::byteorder::little_endian::U16::new(v).to_bytes()
}

/// The four bytes at `off`.
pub fn four_at(b: &[u8], off: usize) -> (r: [u8; 4])
    requires
        off + 4 <= b@.len(),
    ensures
        r@ == b@.subrange(off as int, off + 4),
{
    let n: usize = b.len();
    assert(off + 4 <= n);
    let r = [b[off], b[off + 1], b[off + 2], b[off + 3]];
    assert(r@ =~= b@.subrange(off as int, off + 4));
    r
}

/// The two bytes at `off`.
pub fn two_at(b: &[u8], off: usize) -> (r: [u8; 2])
    requires
        off + 2 <= b@.len(),
    ensures
        r@ == b@.subrange(off as int, off + 2),
{
    let n: usize = b.len();
    assert(off + 2 <= n);
    let r = [b[off], b[off + 1]];
    assert(r@ =~= b@.subrange(off as int, off + 2));
    r
}

/// A 32-bit value is determined by its four bytes.
pub proof fn lemma_le32_agree(a: Seq<u8>, i: int, b: Seq<u8>, j: int)
    requires
        forall|k: int| 0 <= k < 4 ==> #[trigger] a[i + k] == b[j + k],
    ensures
        le32(a, i) == le32(b, j),
{
    reveal(le32);
    assert(a[i + 0] == b[j + 0] && a[i + 1] == b[j + 1] && a[i + 2] == b[j + 2] && a[i + 3] == b[j + 3]);
}

/// Values inside a part of the bytes are the values of the whole.
pub proof fn lemma_le32_part(b: Seq<u8>, start: int, end: int)
    requires
        0 <= start <= end <= b.len(),
    ensures
        forall|i: int|
            0 <= i <= end - start - 4 ==> #[trigger] le32(b.subrange(start, end), i) == le32(b, start + i),
{
    reveal(le32);
}

/// Values inside a part of the bytes are the values of the whole.
pub proof fn lemma_le16_part(b: Seq<u8>, start: int, end: int)
    requires
        0 <= start <= end <= b.len(),
    ensures
        forall|i: int|
            0 <= i <= end - start - 2 ==> #[trigger] le16(b.subrange(start, end), i) == le16(b, start + i),
{
    reveal(le16);
}

/// Appends the little-endian bytes of `v`.
pub fn put_le32(out: &mut Vec<u8>, v: u32)
    ensures
        final(out)@ == old(out)@ + le32_bytes(v),
{
    out.push((v % 0x100) as u8);
    out.push((v / 0x100 % 0x100) as u8);
    out.push((v / 0x1_0000 % 0x100) as u8);
    out.push((v / 0x100_0000) as u8);
    assert(out@ =~= old(out)@ + le32_bytes(v));
}

/// Appends a slice of bytes.
pub fn put_bytes(out: &mut Vec<u8>, b: &[u8])
    ensures
        final(out)@ == old(out)@ + b@,
{
    out.extend_from_slice(b);
    assert(out@ =~= old(out)@ + b@);
}

/// Whether two slices hold the same bytes.
pub fn bytes_eq(a: &[u8], b: &[u8]) -> (r: bool)
    ensures
        r == (a@ == b@),
{
    if a.len() != b.len() {
        return false;
    }
    let mut i: usize = 0;
    while i < a.len()
        invariant
            i <= a@.len(),
            a@.len() == b@.len(),
            forall|k: int| 0 <= k < i ==> a@[k] == b@[k],
        decreases a@.len() - i,
    {
        if a[i] != b[i] {
            return false;
        }
        i = i + 1;
    }
    assert(a@ =~= b@);
    true
}

/// `pat` stands in `b` at `off`.
pub open spec fn has_bytes_at(b: Seq<u8>, off: int, pat: Seq<u8>) -> bool {
    &&& 0 <= off
    &&& off + pat.len() <= b.len()
    &&& b.subrange(off, off + pat.len()) == pat
}

/// Whether `pat` stands in `b` at `off`.
pub fn bytes_at(b: &[u8], off: usize, pat: &[u8]) -> (r: bool)
    ensures
        r == has_bytes_at(b@, off as int, pat@),
{
    if off > b.len() || b.len() - off < pat.len() {
        return false;
    }
    bytes_eq(vstd::slice::slice_subrange(b, off, off + pat.len()), pat)
}

/// Every byte from `from` on is zero.
pub open spec fn zero_from(b: Seq<u8>, from: int) -> bool {
    forall|k: int| from <= k < b.len() ==> b[k] == 0
}

/// Whether every byte from `from` on is zero.
pub fn all_zero_from(b: &[u8], from: usize) -> (r: bool)
    ensures
        r == zero_from(b@, from as int),
{
    let mut i: usize = from;
    while i < b.len()
        invariant
            from <= i,
            forall|k: int| from <= k < i && k < b@.len() ==> b@[k] == 0,
        decreases b@.len() - i,
    {
        if b[i] != 0 {
            return false;
        }
        i = i + 1;
    }
    true
}

/// The bytes from `start` (inclusive) to `start + len`, if they are all there.
pub open spec fn slice_of(b: Seq<u8>, start: int, len: int) -> Option<Seq<u8>> {
    if 0 <= start && 0 <= len && start + len <= b.len() {
        Some(b.subrange(start, start + len))
    } else {
        None
    }
}

/// The bytes from `start` to `start + len`, if they are all there.
pub fn get_slice<'a>(b: &'a [u8], start: u64, len: u32) -> (r: Option<&'a [u8]>)
    ensures
        match r {
            Some(s) => slice_of(b@, start as int, len as int) == Some(s@),
            None => slice_of(b@, start as int, len as int) is None,
        },
{
    let n: usize = b.len();
    if start > n as u64 {
        return None;
    }
    let at: usize = start as usize;
    if n - at < len as usize {
        return None;
    }
    Some(vstd::slice::slice_subrange(b, at, at + len as usize))
}

/// A 32-bit value reads back from its bytes.
pub proof fn law_le32_round_trip(v: u32, b: Seq<u8>, off: int)
    requires
        0 <= off,
        off + 4 <= b.len(),
        b.subrange(off, off + 4) == le32_bytes(v),
    ensures
        le32(b, off) == v,
{
    reveal(le32);
    let s = b.subrange(off, off + 4);
    assert(s[0] == b[off] && s[1] == b[off + 1] && s[2] == b[off + 2] && s[3] == b[off + 3]);
    let a = v % 0x100;
    let q = v / 0x100;
    assert(v / 0x1_0000 == q / 0x100);
    assert(v / 0x100_0000 == q / 0x100 / 0x100);
}

/// A 16-bit value reads back from its bytes.
pub proof fn law_le16_round_trip(v: u16, b: Seq<u8>, off: int)
    requires
        0 <= off,
        off + 2 <= b.len(),
        b.subrange(off, off + 2) == le16_bytes(v),
    ensures
        le16(b, off) == v,
{
    reveal(le16);
    let s = b.subrange(off, off + 2);
    assert(s[0] == b[off] && s[1] == b[off + 1]);
}

} // verus!
