//! Integers written as digits, and digits read back as integers.

use vstd::prelude::*;
use crate::text::string_of;

verus! {

/// Why a text is not a 32-bit unsigned integer.
#[derive(Debug, Clone, Copy, PartialEq, Eq, Structural)]
pub enum NumberError {
    Empty,
    InvalidDigit,
    Overflow,
}

impl NumberError {
    pub open spec fn message(self) -> Seq<char> {
        match self {
            NumberError::Empty => "cannot parse integer from empty string"@,
            NumberError::InvalidDigit => "invalid digit found in string"@,
            NumberError::Overflow => "number too large to fit in target type"@,
        }
    }

    pub fn to_string(self) -> (r: String)
        ensures
            r@ == self.message(),
    {
        match self {
            NumberError::Empty => "cannot parse integer from empty string".to_owned(),
            NumberError::InvalidDigit => "invalid digit found in string".to_owned(),
            NumberError::Overflow => "number too large to fit in target type".to_owned(),
        }
    }
}

// --- writing ----------------------------------------------------------------

/// The digit character of a value below 16, in lower case.
pub open spec fn digit_char(d: nat) -> char {
    if d < 10 {
        (('0' as nat) + d) as char
    } else {
        (('a' as nat) + d - 10) as char
    }
}

/// The digits of `v` in the given base, without leading zeros.
pub open spec fn digits(v: nat, base: nat) -> Seq<char>
    decreases v,
{
    if base < 2 || v < base {
        seq![digit_char(v)]
    } else {
        proof {
            assert(v / base < v) by (nonlinear_arith)
                requires
                    v >= base,
                    base >= 2,
            ;
        }
        digits(v / base, base).push(digit_char(v % base))
    }
}

pub open spec fn zeros(n: nat) -> Seq<char> {
    Seq::new(n, |i: int| '0')
}

/// `s` with zeros in front, up to `width` characters.
pub open spec fn pad_zero(s: Seq<char>, width: nat) -> Seq<char> {
    if s.len() >= width {
        s
    } else {
        zeros((width - s.len()) as nat) + s
    }
}

/// Lower-case hexadecimal, zero-padded to `width`.
pub open spec fn hex(v: nat, width: nat) -> Seq<char> {
    pad_zero(digits(v, 16), width)
}

/// Decimal without padding.
pub open spec fn dec(v: nat) -> Seq<char> {
    digits(v, 10)
}

/// Decimal, zero-padded to `width`.
pub open spec fn dec_pad(v: nat, width: nat) -> Seq<char> {
    pad_zero(digits(v, 10), width)
}

fn digit(d: u64) -> (r: char)
    requires
        d < 16,
    ensures
        r == digit_char(d as nat),
{
    if d < 10 {
        (0x30 + (d as u8)) as char
    } else {
        (0x61 + ((d - 10) as u8)) as char
    }
}

fn digit_chars(v: u64, base: u64) -> (r: Vec<char>)
    requires
        2 <= base <= 16,
    ensures
        r@ == digits(v as nat, base as nat),
{
    let mut out: Vec<char> = Vec::new();
    let mut n: u64 = v;
    while n >= base
        invariant
            2 <= base <= 16,
            digits(v as nat, base as nat) =~= digits(n as nat, base as nat) + out@,
        decreases n,
    {
        assert(n / base < n && 0 <= n % base < base) by (nonlinear_arith)
            requires
                n >= base,
                base >= 2,
        ;
        let ghost before = out@;
        out.insert(0, digit(n % base));
        assert(out@ =~= seq![digit_char((n % base) as nat)] + before);
        n = n / base;
    }
    out.insert(0, digit(n));
    out
}

fn padded(v: u64, base: u64, width: usize) -> (r: String)
    requires
        2 <= base <= 16,
    ensures
        r@ == pad_zero(digits(v as nat, base as nat), width as nat),
{
    let mut out = digit_chars(v, base);
    let ghost plain = out@;
    let ghost mut k: nat = 0;
    assert(zeros(0) + plain =~= plain);
    while out.len() < width
        invariant
            plain == digits(v as nat, base as nat),
            out@ =~= zeros(k) + plain,
            k > 0 ==> out@.len() <= width,
        decreases width - out@.len(),
    {
        out.insert(0, '0');
        proof {
            assert(out@ =~= zeros(k + 1) + plain);
            k = k + 1;
        }
    }
    assert(out@ =~= pad_zero(plain, width as nat));
    string_of(out.as_slice())
}

/// Hexadecimal text of `v`, at least `width` digits.
pub fn hex_text(v: u64, width: usize) -> (r: String)
    ensures
        r@ == hex(v as nat, width as nat),
{
    padded(v, 16, width)
}

/// Decimal text of `v`.
pub fn dec_text(v: u64) -> (r: String)
    ensures
        r@ == dec(v as nat),
{
    padded(v, 10, 0)
}

/// Decimal text of `v`, at least `width` digits.
pub fn dec_pad_text(v: u64, width: usize) -> (r: String)
    ensures
        r@ == dec_pad(v as nat, width as nat),
{
    padded(v, 10, width)
}

/// `before`, a number in decimal, `after`.
pub fn around_dec(before: &str, v: u64, after: &str) -> (r: String)
    ensures
        r@ == before@ + dec(v as nat) + after@,
{
    let mut m = before.to_owned();
    m.append(dec_text(v).as_str());
    m.append(after);
    m
}

/// `before`, a number in eight hexadecimal digits, `after`.
pub fn around_hex8(before: &str, v: u32, after: &str) -> (r: String)
    ensures
        r@ == before@ + hex(v as nat, 8) + after@,
{
    let mut m = before.to_owned();
    m.append(hex_text(v as u64, 8).as_str());
    m.append(after);
    m
}

/// Two hexadecimal digits for each byte.
pub open spec fn hex_bytes(b: Seq<u8>) -> Seq<char>
    decreases b.len(),
{
    if b.len() == 0 {
        Seq::empty()
    } else {
        hex_bytes(b.drop_last()) + hex(b.last() as nat, 2)
    }
}

pub fn hex_bytes_text(b: &[u8]) -> (r: String)
    ensures
        r@ == hex_bytes(b@),
{
    let mut out = String::new();
    let mut i: usize = 0;
    while i < b.len()
        invariant
            i <= b@.len(),
            out@ =~= hex_bytes(b@.take(i as int)),
        decreases b@.len() - i,
    {
        let h = hex_text(b[i] as u64, 2);
        out.append(h.as_str());
        assert(b@.take(i + 1).drop_last() =~= b@.take(i as int));
        i = i + 1;
    }
    assert(b@.take(b@.len() as int) =~= b@);
    out
}

// --- reading ----------------------------------------------------------------

/// The value of a digit character in the given base, either case.
pub open spec fn digit_value(c: char, base: nat) -> Option<nat> {
    let v = if '0' <= c <= '9' {
        (c as nat - '0' as nat) as nat
    } else if 'a' <= c <= 'z' {
        (c as nat - 'a' as nat + 10) as nat
    } else if 'A' <= c <= 'Z' {
        (c as nat - 'A' as nat + 10) as nat
    } else {
        base
    };
    if v < base {
        Some(v)
    } else {
        None
    }
}

/// Reads the digits of `s` after a prefix worth `acc`. The leftmost digit
/// that is not one, or that takes the value past 32 bits, decides the error.
pub open spec fn read_digits(s: Seq<char>, base: nat, acc: nat) -> Result<nat, NumberError>
    decreases s.len(),
{
    if s.len() == 0 {
        Ok(acc)
    } else {
        match digit_value(s[0], base) {
            None => Err(NumberError::InvalidDigit),
            Some(d) => if acc * base + d > u32::MAX {
                Err(NumberError::Overflow)
            } else {
                read_digits(s.drop_first(), base, acc * base + d)
            },
        }
    }
}

/// A 32-bit unsigned integer in the given base, with an optional plus sign.
pub open spec fn read_u32(s: Seq<char>, base: nat) -> Result<nat, NumberError> {
    if s.len() == 0 {
        Err(NumberError::Empty)
    } else if s[0] == '+' {
        if s.len() == 1 {
            Err(NumberError::InvalidDigit)
        } else {
            read_digits(s.drop_first(), base, 0)
        }
    } else {
        read_digits(s, base, 0)
    }
}

fn value_of(c: char, base: u32) -> (r: Option<u32>)
    requires
        base <= 36,
    ensures
        match r {
            Some(v) => digit_value(c, base as nat) == Some(v as nat) && v < base,
            None => digit_value(c, base as nat) is None,
        },
{
    let v: u32 = if '0' <= c && c <= '9' {
        (c as u32) - ('0' as u32)
    } else if 'a' <= c && c <= 'z' {
        (c as u32) - ('a' as u32) + 10
    } else if 'A' <= c && c <= 'Z' {
        (c as u32) - ('A' as u32) + 10
    } else {
        base
    };
    if v < base {
        Some(v)
    } else {
        None
    }
}

/// Reads the digits of an unsigned integer, and nothing else.
pub fn parse_digits(s: &[char], base: u32) -> (r: Result<u32, NumberError>)
    requires
        2 <= base <= 36,
    ensures
        match r {
            Ok(v) => read_digits(s@, base as nat, 0) == Ok::<nat, NumberError>(v as nat),
            Err(e) => read_digits(s@, base as nat, 0) == Err::<nat, NumberError>(e),
        },
{
    let mut i: usize = 0;
    assert(s@.skip(0) =~= s@);
    let mut acc: u32 = 0;
    while i < s.len()
        invariant
            i <= s@.len(),
            2 <= base <= 36,
            read_digits(s@, base as nat, 0) == read_digits(s@.skip(i as int), base as nat, acc as nat),
        decreases s@.len() - i,
    {
        assert(s@.skip(i as int).drop_first() =~= s@.skip(i + 1));
        match value_of(s[i], base) {
            None => {
                return Err(NumberError::InvalidDigit);
            },
            Some(d) => {
                assert(0 <= acc * base <= 0xffff_ffff * 36) by (nonlinear_arith)
                    requires
                        acc <= 0xffff_ffff,
                        base <= 36,
                ;
                let next: u64 = (acc as u64) * (base as u64) + (d as u64);
                if next > 0xffff_ffff {
                    return Err(NumberError::Overflow);
                }
                acc = next as u32;
            },
        }
        i = i + 1;
    }
    Ok(acc)
}

/// Reads an unsigned integer, as `u32::from_str_radix` does.
pub fn parse_u32(s: &[char], base: u32) -> (r: Result<u32, NumberError>)
    requires
        2 <= base <= 36,
    ensures
        match r {
            Ok(v) => read_u32(s@, base as nat) == Ok::<nat, NumberError>(v as nat),
            Err(e) => read_u32(s@, base as nat) == Err::<nat, NumberError>(e),
        },
{
    let n: usize = s.len();
    if n == 0 {
        return Err(NumberError::Empty);
    }
    if s[0] == '+' {
        if n == 1 {
            return Err(NumberError::InvalidDigit);
        }
        let digits = vstd::slice::slice_subrange(s, 1, n);
        assert(digits@ =~= s@.drop_first());
        return parse_digits(digits, base);
    }
    parse_digits(s, base)
}

// --- laws -------------------------------------------------------------------

pub open spec fn power(base: nat, n: nat) -> nat
    decreases n,
{
    if n == 0 {
        1
    } else {
        base * power(base, (n - 1) as nat)
    }
}

/// A value below `base^n` has at most `n` digits.
pub proof fn lemma_digits_len(v: nat, base: nat, n: nat)
    requires
        2 <= base,
        n >= 1,
        v < power(base, n),
    ensures
        1 <= digits(v, base).len() <= n,
    decreases n,
{
    if v >= base {
        if n == 1 {
            assert(power(base, 0) == 1);
            assert(power(base, 1) == base) by (nonlinear_arith)
                requires
                    power(base, 1) == base * power(base, 0),
                    power(base, 0) == 1,
            ;
        } else {
            let p = power(base, (n - 1) as nat);
            assert(v / base < p) by (nonlinear_arith)
                requires
                    v < base * p,
                    base >= 2,
            ;
            lemma_digits_len(v / base, base, (n - 1) as nat);
        }
    }
}

pub proof fn lemma_hex8_len(v: nat)
    requires
        v <= u32::MAX,
    ensures
        hex(v, 8).len() == 8,
{
    reveal_with_fuel(power, 9);
    assert(power(16, 8) == 0x1_0000_0000);
    lemma_digits_len(v, 16, 8);
}

/// Reading a concatenation reads the first part, then goes on with the second.
pub proof fn lemma_read_concat(s: Seq<char>, t: Seq<char>, base: nat, acc: nat)
    ensures
        read_digits(s + t, base, acc) == match read_digits(s, base, acc) {
            Ok(a) => read_digits(t, base, a),
            Err(e) => Err(e),
        },
    decreases s.len(),
{
    if s.len() == 0 {
        assert(s + t =~= t);
    } else {
        assert((s + t).drop_first() =~= s.drop_first() + t);
        if let Some(d) = digit_value(s[0], base) {
            lemma_read_concat(s.drop_first(), t, base, acc * base + d);
        }
    }
}

/// A digit character reads back as its value.
pub proof fn lemma_digit_value(d: nat, base: nat)
    requires
        d < base <= 16,
    ensures
        digit_value(digit_char(d), base) == Some(d),
        !crate::text::is_space(digit_char(d)),
        digit_char(d) != '+',
        (digit_char(d) as nat) < 128,
{
}

/// The digits of a number read back as the number.
pub proof fn lemma_read_digits(v: nat, base: nat)
    requires
        2 <= base <= 16,
        v <= u32::MAX,
    ensures
        read_digits(digits(v, base), base, 0) == Ok::<nat, NumberError>(v),
    decreases v,
{
    reveal_with_fuel(read_digits, 2);
    if v < base {
        lemma_digit_value(v, base);
        assert(0 * base == 0);
        assert(digits(v, base).drop_first() =~= Seq::empty());
    } else {
        let q = v / base;
        let d = v % base;
        assert(q < v && q * base + d == v && d < base) by (nonlinear_arith)
            requires
                q == v / base,
                d == v % base,
                v >= base,
                base >= 2,
        ;
        lemma_read_digits(q, base);
        lemma_digit_value(d, base);
        assert(digits(v, base) =~= digits(q, base) + seq![digit_char(d)]);
        lemma_read_concat(digits(q, base), seq![digit_char(d)], base, 0);
        assert(seq![digit_char(d)].drop_first() =~= Seq::empty());
    }
}

proof fn lemma_read_zeros(n: nat, base: nat)
    requires
        2 <= base <= 16,
    ensures
        read_digits(zeros(n), base, 0) == Ok::<nat, NumberError>(0),
    decreases n,
{
    if n > 0 {
        lemma_digit_value(0, base);
        assert(0 * base == 0);
        assert(zeros(n).drop_first() =~= zeros((n - 1) as nat));
        lemma_read_zeros((n - 1) as nat, base);
    }
}

/// Every character of a padded number is a digit.
pub proof fn lemma_padded_chars(v: nat, base: nat, width: nat)
    requires
        2 <= base <= 16,
    ensures
        forall|i: int|
            0 <= i < pad_zero(digits(v, base), width).len() ==> {
                let c = #[trigger] pad_zero(digits(v, base), width)[i];
                digit_value(c, base) is Some && c != '+' && (c as nat) < 128
                    && !crate::text::is_space(c)
            },
    decreases v,
{
    lemma_digit_value(0, base);
    assert(digit_char(0) == '0');
    assert forall|i: int| 0 <= i < digits(v, base).len() implies {
        let c = #[trigger] digits(v, base)[i];
        digit_value(c, base) is Some && c != '+' && (c as nat) < 128 && !crate::text::is_space(c)
    } by {
        lemma_digits_chars(v, base, i);
    }
}

proof fn lemma_digits_chars(v: nat, base: nat, i: int)
    requires
        2 <= base <= 16,
        0 <= i < digits(v, base).len(),
    ensures
        digit_value(digits(v, base)[i], base) is Some,
        digits(v, base)[i] != '+',
        (digits(v, base)[i] as nat) < 128,
        !crate::text::is_space(digits(v, base)[i]),
    decreases v,
{
    if v < base {
        lemma_digit_value(v, base);
    } else {
        assert(v / base < v && v % base < base) by (nonlinear_arith)
            requires
                v >= base,
                base >= 2,
        ;
        lemma_digit_value(v % base, base);
        if i < digits(v / base, base).len() {
            lemma_digits_chars(v / base, base, i);
        }
    }
}

/// A 32-bit number written in hexadecimal or decimal, padded or not, reads
/// back as itself.
pub proof fn law_number_round_trip(v: nat, base: nat, width: nat)
    requires
        v <= u32::MAX,
        2 <= base <= 16,
    ensures
        read_u32(pad_zero(digits(v, base), width), base) == Ok::<nat, NumberError>(v),
{
    let s = digits(v, base);
    let p = pad_zero(s, width);
    lemma_read_digits(v, base);
    lemma_padded_chars(v, base, width);
    if s.len() < width {
        lemma_read_zeros((width - s.len()) as nat, base);
        lemma_read_concat(zeros((width - s.len()) as nat), s, base, 0);
    }
    assert(s.len() > 0);
    assert(p[0] != '+');
}

} // verus!
