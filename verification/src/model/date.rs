//! Release dates in packed BCD.

use vstd::prelude::*;
use crate::number::{dec_pad, dec_pad_text};

verus! {

/// Release date of a microcode patch.
///
/// Both Intel and AMD store this as a packed BCD `u32` laid out as
/// `0xMMDDYYYY`, i.e. month in bits 31..24, day in 23..16 and year in 15..0.
#[derive(Debug, Clone, Copy, PartialEq, Eq, PartialOrd, Ord, Hash, Structural)]
pub struct UcodeDate {
    pub year: u16,
    pub month: u8,
    pub day: u8,
    /// Raw packed value, preserved verbatim so we can round-trip nonsense.
    pub raw: u32,
}

/// The hexadecimal digit of `v` at position `k`, counted from the right.
pub open spec fn nibble(v: u32, k: u32) -> u32 {
    (v >> (4 * k) as u32) & 0xf
}

/// Two decimal digits starting at position `k`, if both are decimal.
pub open spec fn bcd_pair(v: u32, k: u32) -> Option<int> {
    if nibble(v, k) <= 9 && nibble(v, (k + 1) as u32) <= 9 {
        Some(nibble(v, (k + 1) as u32) * 10 + nibble(v, k))
    } else {
        None
    }
}

impl UcodeDate {
    /// The date that a packed value stands for, if every digit is decimal.
    pub open spec fn decode(raw: u32) -> Option<UcodeDate> {
        match (bcd_pair(raw, 0), bcd_pair(raw, 2), bcd_pair(raw, 4), bcd_pair(raw, 6)) {
            (Some(low), Some(high), Some(day), Some(month)) => Some(
                UcodeDate {
                    year: (high * 100 + low) as u16,
                    month: month as u8,
                    day: day as u8,
                    raw,
                },
            ),
            _ => None,
        }
    }

    pub open spec fn plausible(self) -> bool {
        1990 <= self.year <= 2100 && 1 <= self.month <= 12 && 1 <= self.day <= 31
    }

    /// `YYYYMMDD` as an integer.
    pub open spec fn key(self) -> int {
        self.year * 10_000 + self.month * 100 + self.day
    }

    pub open spec fn date_text(self) -> Seq<char> {
        dec_pad(self.year as nat, 4) + "-"@ + dec_pad(self.month as nat, 2) + "-"@ + dec_pad(
            self.day as nat,
            2,
        )
    }
}

fn bcd_to_u16(v: u32) -> (r: Option<u16>)
    ensures
        match r {
            Some(y) => bcd_pair(v, 0) is Some && bcd_pair(v, 2) is Some && y == bcd_pair(v, 2)->0
                * 100 + bcd_pair(v, 0)->0,
            None => bcd_pair(v, 0) is None || bcd_pair(v, 2) is None,
        },
{
    assert(v >> 0u32 == v) by (bit_vector);
    let n0: u32 = v & 0xf;
    let n1: u32 = (v >> 4) & 0xf;
    let n2: u32 = (v >> 8) & 0xf;
    let n3: u32 = (v >> 12) & 0xf;
    if n0 > 9 || n1 > 9 || n2 > 9 || n3 > 9 {
        None
    } else {
        Some((n0 + n1 * 10 + n2 * 100 + n3 * 1000) as u16)
    }
}

fn bcd_to_u8(v: u32) -> (r: Option<u8>)
    ensures
        match r {
            Some(d) => bcd_pair(v, 0) == Some(d as int),
            None => bcd_pair(v, 0) is None,
        },
{
    assert(v >> 0u32 == v) by (bit_vector);
    let lo: u32 = v & 0xf;
    let hi: u32 = (v >> 4) & 0xf;
    if lo > 9 || hi > 9 {
        None
    } else {
        Some((hi * 10 + lo) as u8)
    }
}

impl UcodeDate {
    /// Decode a packed BCD date. Returns `None` when the nibbles are not
    /// valid BCD; the caller should surface this as a validation finding
    /// rather than silently "fixing" it.
    pub fn from_packed_bcd(raw: u32) -> (r: Option<Self>)
        ensures
            r == UcodeDate::decode(raw),
    {
        let low: u32 = raw & 0xffff;
        let mid: u32 = (raw >> 16) & 0xff;
        let top: u32 = (raw >> 24) & 0xff;
        assert((low >> 0u32) & 0xf == (raw >> 0u32) & 0xf && (low >> 4u32) & 0xf == (raw >> 4u32)
            & 0xf && (low >> 8u32) & 0xf == (raw >> 8u32) & 0xf && (low >> 12u32) & 0xf == (raw
            >> 12u32) & 0xf && (mid >> 0u32) & 0xf == (raw >> 16u32) & 0xf && (mid >> 4u32) & 0xf
            == (raw >> 20u32) & 0xf && (top >> 0u32) & 0xf == (raw >> 24u32) & 0xf && (top >> 4u32)
            & 0xf == (raw >> 28u32) & 0xf) by (bit_vector)
            requires
                low == raw & 0xffff,
                mid == (raw >> 16) & 0xff,
                top == (raw >> 24) & 0xff,
        ;
        let year = match bcd_to_u16(low) {
            Some(y) => y,
            None => {
                return None;
            },
        };
        let day = match bcd_to_u8(mid) {
            Some(d) => d,
            None => {
                return None;
            },
        };
        let month = match bcd_to_u8(top) {
            Some(m) => m,
            None => {
                return None;
            },
        };
        Some(UcodeDate { year, month, day, raw })
    }

    /// Loose plausibility check used for validation findings.
    pub fn is_plausible(&self) -> (r: bool)
        ensures
            r == self.plausible(),
    {
        1990 <= self.year && self.year <= 2100 && 1 <= self.month && self.month <= 12 && 1
            <= self.day && self.day <= 31
    }

    /// Sortable `YYYYMMDD` integer.
    pub fn sort_key(&self) -> (r: u32)
        ensures
            r == self.key(),
    {
        (self.year as u32) * 10_000 + (self.month as u32) * 100 + self.day as u32
    }

    pub fn to_string(&self) -> (r: String)
        ensures
            r@ == self.date_text(),
    {
        let mut out = dec_pad_text(self.year as u64, 4);
        out.append("-");
        out.append(dec_pad_text(self.month as u64, 2).as_str());
        out.append("-");
        out.append(dec_pad_text(self.day as u64, 2).as_str());
        out
    }
}

/// The sort key orders plausible dates by year, then month, then day.
pub proof fn law_sort_key_is_chronological(a: UcodeDate, b: UcodeDate)
    requires
        a.plausible(),
        b.plausible(),
    ensures
        a.key() < b.key() <==> (a.year < b.year || (a.year == b.year && (a.month < b.month || (
        a.month == b.month && a.day < b.day)))),
{
}

/// The eight hexadecimal digits of a packed date are two of the month, two of
/// the day and four of the year, and a date is read exactly if all of them are
/// decimal. The packed value is kept.
pub proof fn law_dates_are_packed_digits(raw: u32)
    ensures
        UcodeDate::decode(raw) is Some <==> raw & 0xf <= 9 && (raw >> 4) & 0xf <= 9 && (raw >> 8) & 0xf <= 9
            && (raw >> 12) & 0xf <= 9 && (raw >> 16) & 0xf <= 9 && (raw >> 20) & 0xf <= 9 && (raw >> 24) & 0xf
            <= 9 && (raw >> 28) & 0xf <= 9,
        UcodeDate::decode(raw) matches Some(d) ==> {
            &&& d.month == 10 * ((raw >> 28) & 0xf) + ((raw >> 24) & 0xf)
            &&& d.day == 10 * ((raw >> 20) & 0xf) + ((raw >> 16) & 0xf)
            &&& d.year == 1000 * ((raw >> 12) & 0xf) + 100 * ((raw >> 8) & 0xf) + 10 * ((raw >> 4) & 0xf) + (raw
                & 0xf)
            &&& d.raw == raw
        },
{
    assert(raw >> 0u32 == raw) by (bit_vector);
}

} // verus!
