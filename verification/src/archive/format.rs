//! Constants and alignment of the `newc` format.

use vstd::prelude::*;

verus! {

/// `070701`, the "new ASCII" cpio magic.
pub const NEWC_MAGIC: [u8; 6] = [0x30, 0x37, 0x30, 0x37, 0x30, 0x31];

pub const NEWC_HEADER_SIZE: usize = 110;

pub const TRAILER_NAME: &'static str = "TRAILER!!!";

/// Everything in a newc archive is padded to a 4-byte boundary.
pub const ALIGNMENT: usize = 4;

pub const MODE_FILE: u32 = 0o100_000;

pub const MODE_DIR: u32 = 0o040_000;

/// The characters `070701`.
pub open spec fn newc_magic() -> Seq<u8> {
    seq![0x30u8, 0x37u8, 0x30u8, 0x37u8, 0x30u8, 0x31u8]
}

/// `n` rounded up to a multiple of four.
pub open spec fn aligned(n: int) -> int {
    (n + 3) / 4 * 4
}

/// How many bytes bring `n` to a multiple of four.
pub open spec fn gap(n: int) -> nat {
    (aligned(n) - n) as nat
}

/// Rounds up to a multiple of four.
pub fn align_up(v: usize) -> (r: usize)
    requires
        v + 3 <= usize::MAX,
    ensures
        r == aligned(v as int),
        v <= r < v + 4,
        r % 4 == 0,
{
    (v + 3) / 4 * 4
}

/// Whether the magic stands at `off`.
pub fn magic_at(buf: &[u8], off: usize) -> (r: bool)
    ensures
        r == crate::bytes::has_bytes_at(buf@, off as int, newc_magic()),
{
    let pat: [u8; 6] = NEWC_MAGIC;
    assert(pat@ =~= newc_magic());
    crate::bytes::bytes_at(buf, off, pat.as_slice())
}

} // verus!
