//! Laws of the texts, numbers and bytes that everything else is made of.

use vstd::prelude::*;
use crate::bytes::{le16, le16_bytes, le32, le32_bytes, slice_of, zero_from};
use crate::number::{digit_char, digit_value, digits, hex, hex_bytes, lemma_read_concat, read_digits, read_u32, NumberError};
use crate::text::{
    find_text, first_word, is_space, last_name, lemma_find_from, lines_text, lower_text, occurs_at, slash_joined, split_text,
    text_less, trim_end_text, trim_start_text, trim_text, word_text,
};

verus! {

// --- white space --------------------------------------------------------------------

/// The characters that Unicode calls white space.
pub open spec fn is_white_space(c: char) -> bool {
    ||| c == '\u{9}' || c == '\u{a}' || c == '\u{b}' || c == '\u{c}' || c == '\u{d}' || c == '\u{20}'
    ||| c == '\u{85}' || c == '\u{a0}' || c == '\u{1680}'
    ||| '\u{2000}' <= c <= '\u{200a}'
    ||| c == '\u{2028}' || c == '\u{2029}' || c == '\u{202f}' || c == '\u{205f}' || c == '\u{3000}'
}

/// Nothing but white space stands from one position to another.
pub open spec fn is_blank(s: Seq<char>, from: int, to: int) -> bool {
    forall|i: int| from <= i < to ==> is_white_space(#[trigger] s[i])
}

proof fn lemma_trim_end(s: Seq<char>)
    ensures
        ({
            let t = trim_end_text(s);
            &&& t.len() <= s.len()
            &&& t == s.take(t.len() as int)
            &&& is_blank(s, t.len() as int, s.len() as int)
            &&& t.len() > 0 ==> !is_white_space(t.last())
        }),
    decreases s.len(),
{
    if s.len() > 0 && is_space(s.last()) {
        let front = s.drop_last();
        lemma_trim_end(front);
        let t = trim_end_text(s);
        assert(s.take(t.len() as int) =~= front.take(t.len() as int));
        assert forall|i: int| t.len() <= i < s.len() implies is_white_space(#[trigger] s[i]) by {
            if i < front.len() {
                assert(front[i] == s[i]);
            }
        }
    } else {
        assert(s.take(s.len() as int) =~= s);
    }
}

proof fn lemma_trim_start(s: Seq<char>)
    ensures
        ({
            let t = trim_start_text(s);
            let k = s.len() - t.len();
            &&& 0 <= k
            &&& t == s.skip(k)
            &&& is_blank(s, 0, k)
            &&& t.len() > 0 ==> !is_white_space(t[0])
        }),
    decreases s.len(),
{
    if s.len() > 0 && is_space(s[0]) {
        let rest = s.drop_first();
        lemma_trim_start(rest);
        let t = trim_start_text(s);
        let k = s.len() - t.len();
        assert(s.skip(k) =~= rest.skip(k - 1));
        assert forall|i: int| 0 <= i < k implies is_white_space(#[trigger] s[i]) by {
            if i > 0 {
                assert(rest[i - 1] == s[i]);
            }
        }
    } else {
        assert(s.skip(0) =~= s);
    }
}

/// Trimming takes the white space at the ends of a text, all of it and nothing
/// else.
pub proof fn law_trimming_takes_the_white_space(s: Seq<char>)
    ensures
        ({
            let t = trim_text(s);
            &&& t.len() > 0 ==> !is_white_space(t[0]) && !is_white_space(t.last())
            &&& exists|k: int|
                0 <= k && k + t.len() <= s.len() && t == #[trigger] s.subrange(k, k + t.len()) && is_blank(s, 0, k)
                    && is_blank(s, k + t.len(), s.len() as int)
        }),
{
    let a = trim_start_text(s);
    let t = trim_text(s);
    let k = s.len() - a.len();
    lemma_trim_start(s);
    lemma_trim_end(a);
    assert(t =~= s.subrange(k, k + t.len()));
    assert forall|i: int| k + t.len() <= i < s.len() implies is_white_space(#[trigger] s[i]) by {
        assert(a[i - k] == s[i]);
    }
    if t.len() > 0 {
        assert(t[0] == a[0]);
    }
}

proof fn lemma_word(s: Seq<char>)
    ensures
        word_text(s).len() <= s.len(),
        word_text(s) == s.take(word_text(s).len() as int),
        forall|i: int| 0 <= i < word_text(s).len() ==> !is_white_space(#[trigger] word_text(s)[i]),
        word_text(s).len() < s.len() ==> is_white_space(s[word_text(s).len() as int]),
    decreases s.len(),
{
    if s.len() > 0 && !is_space(s[0]) {
        let rest = s.drop_first();
        lemma_word(rest);
        let w = word_text(rest);
        let all = word_text(s);
        assert(all == seq![s[0]] + w);
        assert(all =~= s.take(all.len() as int)) by {
            assert forall|i: int| 0 <= i < all.len() implies #[trigger] all[i] == s[i] by {
                if i > 0 {
                    assert(w[i - 1] == rest.take(w.len() as int)[i - 1]);
                }
            }
        }
        assert forall|i: int| 0 <= i < all.len() implies !is_white_space(#[trigger] all[i]) by {
            if i > 0 {
                assert(all[i] == w[i - 1]);
            }
        }
        if all.len() < s.len() {
            assert(rest[w.len() as int] == s[all.len() as int]);
        }
    }
}

/// The first word of a text is the longest run of other characters behind the
/// white space at its start, and a blank text has none.
pub proof fn law_the_first_word_is_a_run(s: Seq<char>)
    ensures
        first_word(s) is None <==> is_blank(s, 0, s.len() as int),
        first_word(s) matches Some(w) ==> {
            &&& w.len() > 0
            &&& forall|i: int| 0 <= i < w.len() ==> !is_white_space(#[trigger] w[i])
            &&& exists|k: int|
                0 <= k && k + w.len() <= s.len() && w == #[trigger] s.subrange(k, k + w.len()) && is_blank(s, 0, k)
                    && (k + w.len() < s.len() ==> is_white_space(s[k + w.len()]))
        },
{
    let a = trim_start_text(s);
    let k = s.len() - a.len();
    lemma_trim_start(s);
    lemma_word(a);
    if a.len() > 0 {
        let w = word_text(a);
        assert(a[0] == s[k]);
        assert(w =~= s.subrange(k, k + w.len()));
        if w.len() == 0 {
            assert(is_white_space(a[0]));
        }
    }
}

// --- parts of a text ----------------------------------------------------------------

proof fn lemma_first_mark(a: Seq<char>, c: char, b: Seq<char>)
    requires
        !a.contains(c),
    ensures
        find_text(a + seq![c] + b, seq![c]) == Some(a.len() as int),
        find_text(a, seq![c]) is None,
{
    let s = a + seq![c] + b;
    let m = seq![c];
    lemma_find_from(s, m, 0);
    lemma_find_from(a, m, 0);
    assert(s.subrange(a.len() as int, a.len() as int + 1) =~= m);
    assert(occurs_at(s, m, a.len() as int));
    if let Some(i) = find_text(s, m) {
        if i < a.len() {
            assert(s.subrange(i, i + 1)[0] == a[i]);
            assert(m[0] == c);
            assert(a.contains(a[i]));
        }
    }
    if let Some(i) = find_text(a, m) {
        assert(a.subrange(i, i + 1)[0] == a[i]);
        assert(m[0] == c);
        assert(a.contains(a[i]));
    }
}

/// Splitting cuts at every separator: what stands before the first one is the
/// first part, and the others are those of what stands behind it. A text
/// without a separator is one part.
pub proof fn law_splitting_cuts_at_every_separator(a: Seq<char>, c: char, b: Seq<char>)
    requires
        !a.contains(c),
    ensures
        split_text(a, c) == seq![a],
        split_text(a + seq![c] + b, c) == seq![a] + split_text(b, c),
{
    let s = a + seq![c] + b;
    lemma_first_mark(a, c, b);
    assert(s.take(a.len() as int) =~= a);
    assert(s.skip(a.len() as int + 1) =~= b);
}

/// A text is read line by line: a line ends before a line feed, or before a
/// carriage return in front of one, and the last line may end with the text.
pub proof fn law_texts_are_read_line_by_line(a: Seq<char>, b: Seq<char>)
    requires
        !a.contains('\n'),
    ensures
        lines_text(Seq::empty()) == Seq::<Seq<char>>::empty(),
        a.len() > 0 ==> lines_text(a) == seq![a],
        lines_text(a + seq!['\n'] + b) == seq![
            if a.len() > 0 && a.last() == '\r' {
                a.drop_last()
            } else {
                a
            },
        ] + lines_text(b),
{
    let s = a + seq!['\n'] + b;
    lemma_first_mark(a, '\n', b);
    assert(s.take(a.len() as int) =~= a);
    assert(s.skip(a.len() as int + 1) =~= b);
}

/// Lowering changes the 26 letters of ASCII only.
pub proof fn law_only_letters_are_lowered(s: Seq<char>, i: int)
    requires
        0 <= i < s.len(),
    ensures
        lower_text(s).len() == s.len(),
        'A' <= s[i] <= 'Z' ==> lower_text(s)[i] as int == s[i] as int + 32,
        !('A' <= s[i] <= 'Z') ==> lower_text(s)[i] == s[i],
{
}

proof fn lemma_text_less(a: Seq<char>, b: Seq<char>)
    ensures
        text_less(a, b) <==> exists|k: int| #[trigger] differs_at(a, b, k),
    decreases a.len(),
{
    assert(a.take(0) =~= b.take(0));
    if b.len() == 0 {
    } else if a.len() == 0 {
        assert(differs_at(a, b, 0));
    } else if a[0] != b[0] {
        if a[0] < b[0] {
            assert(differs_at(a, b, 0));
        }
        if exists|k: int| #[trigger] differs_at(a, b, k) {
            let k = choose|k: int| #[trigger] differs_at(a, b, k);
            if k > 0 {
                assert(a.take(k)[0] == b.take(k)[0]);
            }
        }
    } else {
        let x = a.drop_first();
        let y = b.drop_first();
        lemma_text_less(x, y);
        if text_less(x, y) {
            let k = choose|k: int| #[trigger] differs_at(x, y, k);
            assert(differs_at(a, b, k + 1)) by {
                let (p, q) = (a.take(k + 1), b.take(k + 1));
                assert forall|i: int| 0 <= i < k + 1 implies #[trigger] p[i] == q[i] by {
                    if i > 0 {
                        assert(x.take(k)[i - 1] == y.take(k)[i - 1]);
                    }
                }
                assert(p =~= q);
                if k < x.len() {
                    assert(x[k] == a[k + 1]);
                }
                assert(y[k] == b[k + 1]);
            }
        }
        if exists|k: int| #[trigger] differs_at(a, b, k) {
            let k = choose|k: int| #[trigger] differs_at(a, b, k);
            assert(k > 0);
            assert(differs_at(x, y, k - 1)) by {
                let (p, q) = (x.take(k - 1), y.take(k - 1));
                assert forall|i: int| 0 <= i < k - 1 implies #[trigger] p[i] == q[i] by {
                    assert(a.take(k)[i + 1] == b.take(k)[i + 1]);
                }
                assert(p =~= q);
            }
        }
    }
}

/// The texts agree up to the position, and there the first one ends or has the
/// lower character.
pub open spec fn differs_at(a: Seq<char>, b: Seq<char>, k: int) -> bool {
    &&& 0 <= k <= a.len()
    &&& k < b.len()
    &&& a.take(k) == b.take(k)
    &&& k == a.len() || a[k] < b[k]
}

/// Texts are ordered by their first difference, and a text comes before its
/// continuations.
pub proof fn law_texts_are_ordered_by_their_first_difference(a: Seq<char>, b: Seq<char>)
    ensures
        text_less(a, b) <==> exists|k: int| #[trigger] differs_at(a, b, k),
{
    lemma_text_less(a, b);
}

/// Joining puts one slash between a path and a relative name, and an absolute
/// name replaces the path.
pub proof fn law_names_are_joined_by_one_slash(base: Seq<char>, name: Seq<char>)
    ensures
        name.len() > 0 && name[0] == '/' ==> slash_joined(base, name) == name,
        !(name.len() > 0 && name[0] == '/') && base.len() > 0 && base.last() != '/' ==> slash_joined(base, name)
            == base + "/"@ + name,
        !(name.len() > 0 && name[0] == '/') && (base.len() == 0 || base.last() == '/') ==> slash_joined(base, name)
            == base + name,
{
}

/// The final name of a path is its last part that is neither empty nor a dot,
/// unless that leads upwards.
pub proof fn law_the_last_part_is_the_name(parts: Seq<Seq<char>>)
    ensures
        match last_name(parts) {
            Some(n) => exists|i: int|
                0 <= i < parts.len() && #[trigger] parts[i] == n && n.len() > 0 && n != "."@ && n != ".."@ && (forall|
                    j: int,
                |
                    i < j < parts.len() ==> (#[trigger] parts[j]).len() == 0 || parts[j] == "."@),
            None => {
                ||| forall|j: int| 0 <= j < parts.len() ==> (#[trigger] parts[j]).len() == 0 || parts[j] == "."@
                ||| exists|i: int|
                    0 <= i < parts.len() && #[trigger] parts[i] == ".."@ && (forall|j: int|
                        i < j < parts.len() ==> (#[trigger] parts[j]).len() == 0 || parts[j] == "."@)
            },
        },
    decreases parts.len(),
{
    if parts.len() > 0 {
        let n = parts.len() - 1;
        let front = parts.drop_last();
        assert(parts[n] == parts.last());
        if parts.last().len() == 0 || parts.last() == "."@ {
            law_the_last_part_is_the_name(front);
            assert forall|j: int| 0 <= j < front.len() implies #[trigger] parts[j] == front[j] by {}
            match last_name(front) {
                Some(x) => {
                    let i = choose|i: int|
                        0 <= i < front.len() && #[trigger] front[i] == x && x.len() > 0 && x != "."@ && x != ".."@ && (
                        forall|j: int| i < j < front.len() ==> (#[trigger] front[j]).len() == 0 || front[j] == "."@);
                    assert(parts[i] == x);
                    assert forall|j: int| i < j < parts.len() implies (#[trigger] parts[j]).len() == 0 || parts[j]
                        == "."@ by {
                        if j < n {
                            assert(parts[j] == front[j]);
                        }
                    }
                },
                None => {
                    if exists|i: int|
                        0 <= i < front.len() && #[trigger] front[i] == ".."@ && (forall|j: int|
                            i < j < front.len() ==> (#[trigger] front[j]).len() == 0 || front[j] == "."@) {
                        let i = choose|i: int|
                            0 <= i < front.len() && #[trigger] front[i] == ".."@ && (forall|j: int|
                                i < j < front.len() ==> (#[trigger] front[j]).len() == 0 || front[j] == "."@);
                        assert(parts[i] == ".."@);
                        assert forall|j: int| i < j < parts.len() implies (#[trigger] parts[j]).len() == 0
                            || parts[j] == "."@ by {
                            if j < n {
                                assert(parts[j] == front[j]);
                            }
                        }
                    } else {
                        assert forall|j: int| 0 <= j < parts.len() implies (#[trigger] parts[j]).len() == 0
                            || parts[j] == "."@ by {
                            if j < n {
                                assert(parts[j] == front[j]);
                            }
                        }
                    }
                },
            }
        } else if parts.last() == ".."@ {
            assert(parts[n] == ".."@);
        }
    }
}

// --- numbers ------------------------------------------------------------------------

/// The value of a digit: 0 to 9, then the letters, in either case.
pub open spec fn is_digit(c: char, d: nat) -> bool {
    ||| '0' <= c <= '9' && d == c as int - '0' as int
    ||| 'a' <= c <= 'z' && d == c as int - 'a' as int + 10
    ||| 'A' <= c <= 'Z' && d == c as int - 'A' as int + 10
}

/// A number is read digit by digit from the left: one more digit makes it the
/// base times as large and adds its value, and what is no digit of the base or
/// does not fit into 32 bits is refused. A plus sign in front means nothing, and
/// without a digit there is no number.
pub proof fn law_numbers_are_read_digit_by_digit(s: Seq<char>, c: char, base: nat, d: nat)
    requires
        2 <= base <= 36,
        read_digits(s, base, 0) is Ok,
    ensures
        read_digits(Seq::empty(), base, 0) == Ok::<nat, NumberError>(0),
        ({
            let v = read_digits(s, base, 0)->Ok_0;
            &&& is_digit(c, d) && d < base && v * base + d <= u32::MAX ==> read_digits(s.push(c), base, 0) == Ok::<
                nat,
                NumberError,
            >(v * base + d)
            &&& is_digit(c, d) && d < base && v * base + d > u32::MAX ==> read_digits(s.push(c), base, 0) == Err::<
                nat,
                NumberError,
            >(NumberError::Overflow)
            &&& is_digit(c, d) && d >= base ==> read_digits(s.push(c), base, 0) == Err::<nat, NumberError>(
                NumberError::InvalidDigit,
            )
            &&& !('0' <= c <= '9') && !('a' <= c <= 'z') && !('A' <= c <= 'Z') ==> read_digits(s.push(c), base, 0)
                == Err::<nat, NumberError>(NumberError::InvalidDigit)
        }),
        read_u32(Seq::empty(), base) == Err::<nat, NumberError>(NumberError::Empty),
        s.len() > 0 ==> read_u32(seq!['+'] + s, base) == read_digits(s, base, 0),
        s.len() > 0 && s[0] != '+' ==> read_u32(s, base) == read_digits(s, base, 0),
{
    let t = seq![c];
    lemma_read_concat(s, t, base, 0);
    assert(s.push(c) =~= s + t);
    let v = read_digits(s, base, 0)->Ok_0;
    assert(t.drop_first() =~= Seq::empty());
    assert(t[0] == c);
    if let Some(x) = digit_value(c, base) {
        assert(read_digits(Seq::empty(), base, v * base + x) == Ok::<nat, NumberError>(v * base + x));
    }
    assert((seq!['+'] + s).drop_first() =~= s);
    assert((seq!['+'] + s)[0] == '+');
}

proof fn lemma_two_digits(x: u8)
    ensures
        hex(x as nat, 2) == seq![digit_char((x / 16) as nat), digit_char((x % 16) as nat)],
{
    let n = x as nat;
    let all = digits(n, 16);
    assert(digit_char(0) == '0');
    if n < 16 {
        assert(all == seq![digit_char(n)]);
        assert(hex(n, 2) =~= seq!['0', digit_char(n)]);
    } else {
        assert(digits(n / 16, 16) == seq![digit_char(n / 16)]);
        assert(all == digits(n / 16, 16).push(digit_char(n % 16)));
        assert(hex(n, 2) =~= seq![digit_char(n / 16), digit_char(n % 16)]);
    }
}

proof fn lemma_two_each(b: Seq<u8>)
    ensures
        hex_bytes(b).len() == 2 * b.len(),
    decreases b.len(),
{
    if b.len() > 0 {
        lemma_two_each(b.drop_last());
        lemma_two_digits(b.last());
    }
}

/// The digits of a text of bytes are two for each byte, the higher one first.
pub proof fn law_bytes_are_written_as_two_digits(b: Seq<u8>, i: int)
    requires
        0 <= i < b.len(),
    ensures
        hex_bytes(b).len() == 2 * b.len(),
        hex_bytes(b)[2 * i] == digit_char((b[i] / 16) as nat),
        hex_bytes(b)[2 * i + 1] == digit_char((b[i] % 16) as nat),
    decreases b.len(),
{
    let front = b.drop_last();
    lemma_two_each(b);
    lemma_two_each(front);
    lemma_two_digits(b.last());
    assert(hex_bytes(b) == hex_bytes(front) + hex(b.last() as nat, 2));
    if i < front.len() {
        law_bytes_are_written_as_two_digits(front, i);
    }
}

// --- bytes --------------------------------------------------------------------------

/// Numbers stand in the bytes with the least significant one first.
pub proof fn law_the_least_byte_comes_first(b: Seq<u8>, off: int, v: u32, w: u16)
    ensures
        le32(b, off) == b[off] + 256 * b[off + 1] + 65536 * b[off + 2] + 16777216 * b[off + 3],
        le16(b, off) == b[off] + 256 * b[off + 1],
        le32_bytes(v).len() == 4,
        v == le32_bytes(v)[0] + 256 * le32_bytes(v)[1] + 65536 * le32_bytes(v)[2] + 16777216 * le32_bytes(v)[3],
        le16_bytes(w).len() == 2,
        w == le16_bytes(w)[0] + 256 * le16_bytes(w)[1],
{
    reveal(le32);
    reveal(le16);
}

/// A part of the bytes is there exactly if all of it is, and a rest is zero
/// exactly if all its bytes are.
pub proof fn law_parts_are_there_as_a_whole(b: Seq<u8>, start: int, len: int)
    requires
        0 <= start,
        0 <= len,
    ensures
        slice_of(b, start, len) is Some <==> start + len <= b.len(),
        slice_of(b, start, len) matches Some(s) ==> s.len() == len && forall|i: int|
            0 <= i < len ==> #[trigger] s[i] == b[start + i],
        zero_from(b, start) <==> forall|i: int| start <= i < b.len() ==> #[trigger] b[i] == 0,
{
}

} // verus!
