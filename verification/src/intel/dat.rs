//! Parser for the legacy Intel `.dat` text distribution format.
//!
//! The format is a sequence of comma-separated 32-bit hexadecimal literals,
//! four per line by convention, with `/* ... */` block comments. It carries
//! exactly the same bytes as the binary form, so we simply reassemble the
//! little-endian byte stream and hand it to the binary parser.

use vstd::prelude::*;
use vstd::utf8::{decode_utf8, encode_utf8, valid_utf8};
use crate::bytes::{le32_bytes, put_le32};
use crate::intel::error::{IntelError, IntelFault};
use crate::number::{parse_digits, read_digits};
use crate::text::{
    chars_of, contains_text, debug_string, debug_text, find, find_text, has_prefix, lines,
    lines_text, split, split_text, starts_with, str_contains, string_of, texts, trim, trim_text, utf8_text,
};

verus! {

/// A line without its block comments, and whether a comment is still open.
pub open spec fn uncommented(line: Seq<char>, open: bool) -> (Seq<char>, bool)
    decreases line.len(),
{
    if open {
        match find_text(line, "*/"@) {
            Some(end) => if 0 <= end && end + 2 <= line.len() {
                uncommented(line.skip(end + 2), false)
            } else {
                (Seq::empty(), open)
            },
            None => (Seq::empty(), true),
        }
    } else {
        match find_text(line, "/*"@) {
            Some(start) => if 0 <= start && start + 2 <= line.len() {
                let (rest, state) = uncommented(line.skip(start + 2), true);
                (line.take(start) + rest, state)
            } else {
                (line, open)
            },
            None => (line, false),
        }
    }
}

/// The text before the first occurrence of `pat`, or all of it.
pub open spec fn before(s: Seq<char>, pat: Seq<char>) -> Seq<char> {
    match find_text(s, pat) {
        Some(i) => s.take(i),
        None => s,
    }
}

/// The word that a token stands for; nothing for a blank token. Behind the
/// prefix stand hexadecimal digits and nothing else.
pub open spec fn word_of(token: Seq<char>) -> Result<Option<u32>, Seq<char>> {
    let t = trim_text(token);
    let digits = t.skip(2);
    if t.len() == 0 {
        Ok(None)
    } else if !starts_with(t, "0x"@) && !starts_with(t, "0X"@) {
        Err("token "@ + debug_text(t) + " is not a 0x-prefixed hex literal"@)
    } else if digits.len() == 0 || encode_utf8(digits).len() > 8 {
        Err("token "@ + debug_text(t) + " is not a 32-bit value"@)
    } else {
        match read_digits(digits, 16, 0) {
            Ok(v) => Ok(Some(v as u32)),
            Err(e) => Err("token "@ + debug_text(t) + ": "@ + e.message()),
        }
    }
}

/// The bytes of the words of a list of tokens.
pub open spec fn words_of(tokens: Seq<Seq<char>>) -> Result<Seq<u8>, Seq<char>>
    decreases tokens.len(),
{
    if tokens.len() == 0 {
        Ok(Seq::empty())
    } else {
        match words_of(tokens.drop_last()) {
            Err(e) => Err(e),
            Ok(bytes) => match word_of(tokens.last()) {
                Err(e) => Err(e),
                Ok(None) => Ok(bytes),
                Ok(Some(v)) => Ok(bytes + le32_bytes(v)),
            },
        }
    }
}

/// The tokens of a line whose block comments are gone: line comments start
/// with `//` or `;`, and commas separate tokens.
pub open spec fn tokens_of(cleaned: Seq<char>) -> Seq<Seq<char>> {
    split_text(before(before(cleaned, "//"@), ";"@), ',')
}

/// The bytes of a list of lines, and whether a comment is open at their end.
pub open spec fn dat_lines(all: Seq<Seq<char>>) -> Result<(Seq<u8>, bool), IntelFault>
    decreases all.len(),
{
    if all.len() == 0 {
        Ok((Seq::empty(), false))
    } else {
        match dat_lines(all.drop_last()) {
            Err(e) => Err(e),
            Ok((bytes, open)) => {
                let (cleaned, state) = uncommented(all.last(), open);
                match words_of(tokens_of(cleaned)) {
                    Err(reason) => Err(IntelFault::Dat { line: all.len() as int, reason }),
                    Ok(more) => Ok((bytes + more, state)),
                }
            },
        }
    }
}

/// The binary form of a `.dat` text.
pub open spec fn dat_bytes(text: Seq<char>) -> Result<Seq<u8>, IntelFault> {
    let all = lines_text(text);
    match dat_lines(all) {
        Err(e) => Err(e),
        Ok((bytes, open)) => if open {
            Err(IntelFault::Dat { line: all.len() as int, reason: "unterminated block comment"@ })
        } else if bytes.len() == 0 {
            Err(IntelFault::Dat { line: 0, reason: "no data words found"@ })
        } else {
            Ok(bytes)
        },
    }
}

fn strip_comments(line: &[char], open: bool) -> (r: (Vec<char>, bool))
    ensures
        (r.0@, r.1) == uncommented(line@, open),
{
    let opener = chars_of("/*");
    let closer = chars_of("*/");
    proof {
        reveal_strlit("/*");
        reveal_strlit("*/");
    }
    let n: usize = line.len();
    let mut cleaned: Vec<char> = Vec::new();
    let mut state = open;
    let mut at: usize = 0;
    assert(line@.skip(0) =~= line@);
    while at < n
        invariant
            at <= n == line@.len(),
            opener@ == "/*"@,
            closer@ == "*/"@,
            opener@.len() == 2,
            closer@.len() == 2,
            uncommented(line@, open).0 =~= cleaned@ + uncommented(line@.skip(at as int), state).0,
            uncommented(line@, open).1 == uncommented(line@.skip(at as int), state).1,
        decreases n - at,
    {
        let rest = vstd::slice::slice_subrange(line, at, n);
        assert(rest@ =~= line@.skip(at as int));
        if state {
            match find(rest, closer.as_slice()) {
                Some(end) => {
                    state = false;
                    at = at + end + 2;
                    assert(rest@.skip(end + 2) =~= line@.skip(at as int));
                },
                None => {
                    at = n;
                    assert(uncommented(line@.skip(at as int), true) == (Seq::<char>::empty(), true)) by {
                        lemma_find_none(line@.skip(at as int));
                    }
                },
            }
        } else {
            match find(rest, opener.as_slice()) {
                Some(start) => {
                    let ghost kept = cleaned@;
                    cleaned.extend_from_slice(vstd::slice::slice_subrange(rest, 0, start));
                    assert(cleaned@ =~= kept + rest@.take(start as int));
                    state = true;
                    at = at + start + 2;
                    assert(rest@.skip(start + 2) =~= line@.skip(at as int));
                },
                None => {
                    let ghost kept = cleaned@;
                    cleaned.extend_from_slice(rest);
                    assert(cleaned@ =~= kept + rest@);
                    at = n;
                    assert(uncommented(line@.skip(at as int), false) == (Seq::<char>::empty(), false)) by {
                        lemma_find_none(line@.skip(at as int));
                    }
                },
            }
        }
    }
    assert(uncommented(line@.skip(at as int), state) == (Seq::<char>::empty(), state)) by {
        lemma_find_none(line@.skip(at as int));
    }
    (cleaned, state)
}

/// An empty line keeps the state.
proof fn lemma_find_none(s: Seq<char>)
    requires
        s.len() == 0,
    ensures
        uncommented(s, true) == (Seq::<char>::empty(), true),
        uncommented(s, false) == (Seq::<char>::empty(), false),
{
    reveal_strlit("/*");
    reveal_strlit("*/");
    assert(s =~= Seq::<char>::empty());
}

fn cut(s: Vec<char>, pat: &str) -> (r: Vec<char>)
    ensures
        r@ == before(s@, pat@),
{
    let p = chars_of(pat);
    match find(s.as_slice(), p.as_slice()) {
        Some(i) => vstd::slice::slice_to_vec(vstd::slice::slice_subrange(s.as_slice(), 0, i)),
        None => s,
    }
}

fn token_message(token: &[char], before: &str, after: &str) -> (r: String)
    ensures
        r@ == before@ + debug_text(token@) + after@,
{
    let mut m = before.to_owned();
    m.append(debug_string(string_of(token).as_str()).as_str());
    m.append(after);
    m
}

fn parse_word(token: &[char]) -> (r: Result<Option<u32>, String>)
    ensures
        match r {
            Ok(w) => word_of(token@) == Ok::<_, Seq<char>>(w),
            Err(e) => word_of(token@) == Err::<Option<u32>, _>(e@),
        },
{
    let t = trim(token);
    if t.len() == 0 {
        return Ok(None);
    }
    let lower = chars_of("0x");
    let upper = chars_of("0X");
    proof {
        reveal_strlit("0x");
        reveal_strlit("0X");
    }
    if !has_prefix(t, lower.as_slice()) && !has_prefix(t, upper.as_slice()) {
        return Err(token_message(t, "token ", " is not a 0x-prefixed hex literal"));
    }
    let digits = vstd::slice::slice_subrange(t, 2, t.len());
    assert(digits@ =~= t@.skip(2));
    if digits.len() == 0 || string_of(digits).as_str().as_bytes().len() > 8 {
        return Err(token_message(t, "token ", " is not a 32-bit value"));
    }
    match parse_digits(digits, 16) {
        Ok(v) => Ok(Some(v)),
        Err(e) => {
            let mut m = token_message(t, "token ", ": ");
            m.append(e.to_string().as_str());
            Err(m)
        },
    }
}

fn parse_words(tokens: &Vec<Vec<char>>) -> (r: Result<Vec<u8>, String>)
    ensures
        match r {
            Ok(b) => words_of(texts(tokens@)) == Ok::<_, Seq<char>>(b@),
            Err(e) => words_of(texts(tokens@)) == Err::<Seq<u8>, _>(e@),
        },
{
    let mut out: Vec<u8> = Vec::new();
    let ghost all = texts(tokens@);
    let mut i: usize = 0;
    while i < tokens.len()
        invariant
            i <= tokens@.len(),
            all == texts(tokens@),
            words_of(all.take(i as int)) == Ok::<_, Seq<char>>(out@),
        decreases tokens@.len() - i,
    {
        assert(all.take(i + 1).drop_last() =~= all.take(i as int));
        assert(all.take(i + 1).last() == tokens@[i as int]@);
        match parse_word(tokens[i].as_slice()) {
            Ok(None) => {},
            Ok(Some(v)) => {
                put_le32(&mut out, v);
            },
            Err(e) => {
                proof {
                    lemma_words_error(all, i + 1);
                }
                return Err(e);
            },
        }
        i = i + 1;
    }
    assert(all.take(i as int) =~= all);
    Ok(out)
}

proof fn lemma_words_error(tokens: Seq<Seq<char>>, n: int)
    requires
        0 <= n <= tokens.len(),
        words_of(tokens.take(n)) is Err,
    ensures
        words_of(tokens) == words_of(tokens.take(n)),
    decreases tokens.len() - n,
{
    if n < tokens.len() {
        assert(tokens.take(n + 1).drop_last() =~= tokens.take(n));
        lemma_words_error(tokens, n + 1);
    } else {
        assert(tokens.take(n) =~= tokens);
    }
}

proof fn lemma_lines_error(all: Seq<Seq<char>>, n: int)
    requires
        0 <= n <= all.len(),
        dat_lines(all.take(n)) is Err,
    ensures
        dat_lines(all) == dat_lines(all.take(n)),
    decreases all.len() - n,
{
    if n < all.len() {
        assert(all.take(n + 1).drop_last() =~= all.take(n));
        lemma_lines_error(all, n + 1);
    } else {
        assert(all.take(n) =~= all);
    }
}

/// Convert `.dat` text into the equivalent binary bundle.
pub fn dat_to_binary(text: &str) -> (r: Result<Vec<u8>, IntelError>)
    ensures
        match r {
            Ok(b) => dat_bytes(text@) == Ok::<_, IntelFault>(b@),
            Err(e) => dat_bytes(text@) == Err::<Seq<u8>, _>(e@),
        },
{
    let chars = chars_of(text);
    let all = lines(chars.as_slice());
    let ghost models = texts(all@);
    let mut out: Vec<u8> = Vec::new();
    let mut open = false;
    let n: usize = all.len();
    let mut i: usize = 0;
    while i < n
        invariant
            i <= n == all@.len(),
            models == texts(all@),
            models == lines_text(text@),
            dat_lines(models.take(i as int)) == Ok::<_, IntelFault>((out@, open)),
        decreases n - i,
    {
        assert(models.take(i + 1).drop_last() =~= models.take(i as int));
        assert(models.take(i + 1).last() == all@[i as int]@);
        // Strip block comments, possibly spanning lines.
        let (cleaned, state) = strip_comments(all[i].as_slice(), open);
        let tokens = split(cut(cut(cleaned, "//"), ";").as_slice(), ',');
        match parse_words(&tokens) {
            Ok(more) => {
                out.extend_from_slice(more.as_slice());
                assert(out@ =~= (dat_lines(models.take(i as int))->Ok_0).0 + more@);
                open = state;
            },
            Err(reason) => {
                proof {
                    lemma_lines_error(models, i + 1);
                }
                return Err(IntelError::Dat { line: i + 1, reason });
            },
        }
        i = i + 1;
    }
    assert(models.take(i as int) =~= models);
    if open {
        return Err(IntelError::Dat { line: n, reason: "unterminated block comment".to_owned() });
    }
    if out.len() == 0 {
        return Err(IntelError::Dat { line: 0, reason: "no data words found".to_owned() });
    }
    Ok(out)
}

/// The start of the bytes, at most four kilobytes, is text with a
/// hexadecimal prefix and a comma.
pub open spec fn dat_like(b: Seq<u8>) -> bool {
    let head = if b.len() >= 4096 {
        b.take(4096)
    } else {
        b
    };
    &&& valid_utf8(head)
    &&& contains_text(decode_utf8(head), "0x"@)
    &&& contains_text(decode_utf8(head), ","@)
}

/// Heuristic sniff for `.dat` content.
pub fn looks_like_dat(bytes: &[u8]) -> (r: bool)
    ensures
        r == dat_like(bytes@),
{
    let head = if bytes.len() >= 4096 {
        vstd::slice::slice_subrange(bytes, 0, 4096)
    } else {
        bytes
    };
    match utf8_text(head) {
        None => false,
        Some(text) => {
            proof {
                vstd::utf8::encode_utf8_decode_utf8(text@);
            }
            str_contains(text.as_str(), "0x") && str_contains(text.as_str(), ",")
        },
    }
}

proof fn lemma_words_whole(tokens: Seq<Seq<char>>)
    ensures
        words_of(tokens) matches Ok(b) ==> b.len() % 4 == 0,
    decreases tokens.len(),
{
    if tokens.len() > 0 {
        lemma_words_whole(tokens.drop_last());
    }
}

proof fn lemma_lines_whole(all: Seq<Seq<char>>)
    ensures
        dat_lines(all) matches Ok((b, _)) ==> b.len() % 4 == 0,
    decreases all.len(),
{
    if all.len() > 0 {
        lemma_lines_whole(all.drop_last());
        if let Ok((bytes, open)) = dat_lines(all.drop_last()) {
            lemma_words_whole(tokens_of(uncommented(all.last(), open).0));
        }
    }
}

/// The binary form of a `.dat` text is a positive number of whole dwords.
pub proof fn law_dat_is_whole_dwords(text: Seq<char>)
    ensures
        dat_bytes(text) matches Ok(b) ==> b.len() > 0 && b.len() % 4 == 0,
{
    lemma_lines_whole(lines_text(text));
}

} // verus!
