//! Out-of-band metadata that vendors publish outside the container.
//!
//! The only case that matters today is AMD's "Minimum base ucode version for
//! loading", which appears in `linux-firmware/amd-ucode/README` as free text
//! and is *not* encoded anywhere in the `DMA\0` container. Rather than invent
//! a header field, we parse the README and attach the value to the matching
//! patch id.

use std::collections::BTreeMap;

use vstd::prelude::*;
use crate::catalog::error::{CatalogError, CatalogFault};
use crate::number::{parse_u32, read_u32};
use crate::text::{
    chars_of, debug_string, debug_text, find, find_text, first_word, has_prefix, lines, lines_text,
    split_first_word, starts_with, string_of, texts, trim, trim_text,
};

verus! {

broadcast use vstd::std_specs::btree::group_btree_axioms;

#[derive(Debug)]
pub struct AmdSidecar {
    /// patch id -> minimum currently-loaded revision required.
    minimums: BTreeMap<u32, u32>,
    /// Free-form notes keyed by patch id, preserved for display.
    notes: BTreeMap<u32, String>,
}

/// The contents of an [`AmdSidecar`].
#[verifier::ext_equal]
pub struct SidecarModel {
    pub minimums: Map<u32, u32>,
    pub notes: Map<u32, Seq<char>>,
}

/// The texts of a map of strings.
pub open spec fn note_texts(m: Map<u32, String>) -> Map<u32, Seq<char>> {
    m.map_values(|s: String| s@)
}

impl View for AmdSidecar {
    type V = SidecarModel;

    closed spec fn view(&self) -> SidecarModel {
        SidecarModel { minimums: self.minimums@, notes: note_texts(self.notes@) }
    }
}

impl Clone for AmdSidecar {
    fn clone(&self) -> (r: Self)
        ensures
            r@ == self@,
    {
        AmdSidecar { minimums: self.minimums.clone(), notes: self.notes.clone() }
    }
}

impl Default for AmdSidecar {
    fn default() -> (r: Self)
        ensures
            r@ == (SidecarModel { minimums: Map::empty(), notes: Map::empty() }),
    {
        let r = AmdSidecar { minimums: BTreeMap::new(), notes: BTreeMap::new() };
        assert(r@.notes =~= Map::empty());
        r
    }
}

// --- the format -----------------------------------------------------------------

/// A character that a hexadecimal literal can end with.
pub open spec fn literal_char(c: char) -> bool {
    '0' <= c <= '9' || 'a' <= c <= 'f' || 'A' <= c <= 'F' || c == 'x' || c == 'X'
}

/// The text without trailing characters that no literal ends with.
pub open spec fn trim_literal(s: Seq<char>) -> Seq<char>
    decreases s.len(),
{
    if s.len() > 0 && !literal_char(s.last()) {
        trim_literal(s.drop_last())
    } else {
        s
    }
}

/// The value of a `0x` literal, with anything behind it that is no part of it.
pub open spec fn hex_literal(s: Seq<char>) -> Option<u32> {
    let t = trim_literal(trim_text(s));
    if starts_with(t, "0x"@) || starts_with(t, "0X"@) {
        match read_u32(t.skip(2), 16) {
            Ok(v) => Some(v as u32),
            Err(_) => None,
        }
    } else {
        None
    }
}

/// The literal behind the first occurrence of `key`.
pub open spec fn literal_after(line: Seq<char>, key: Seq<char>) -> Option<u32> {
    match find_text(line, key) {
        None => None,
        Some(i) => match first_word(line.skip((i + key.len()) as int)) {
            None => None,
            Some(word) => hex_literal(word),
        },
    }
}

/// What has been read so far, and the patch that the next lines are about.
#[verifier::ext_equal]
pub struct ReadmeState {
    pub data: SidecarModel,
    pub current: Option<u32>,
}

/// What a line of the README adds.
pub open spec fn after_line(st: ReadmeState, raw: Seq<char>) -> Result<ReadmeState, CatalogFault> {
    let line = trim_text(raw);
    let prefix = "Minimum base ucode version for loading:"@;
    if line.len() == 0 {
        Ok(st)
    } else if literal_after(line, "Patch="@) is Some {
        Ok(ReadmeState { current: literal_after(line, "Patch="@), ..st })
    } else if starts_with(line, prefix) {
        match (hex_literal(trim_text(line.skip(prefix.len() as int))), st.current) {
            (None, _) => Err(
                CatalogFault::Sidecar("unparseable minimum revision in "@ + debug_text(line)),
            ),
            (Some(_), None) => Err(
                CatalogFault::Sidecar("found a minimum-base line before any patch line"@),
            ),
            (Some(v), Some(id)) => Ok(
                ReadmeState {
                    data: SidecarModel { minimums: st.data.minimums.insert(id, v), ..st.data },
                    ..st
                },
            ),
        }
    } else if st.current is Some && starts_with(line, "Note"@) {
        Ok(
            ReadmeState {
                data: SidecarModel { notes: st.data.notes.insert(st.current->0, line), ..st.data },
                ..st
            },
        )
    } else {
        Ok(st)
    }
}

/// What a list of lines holds.
pub open spec fn after_lines(all: Seq<Seq<char>>) -> Result<ReadmeState, CatalogFault>
    decreases all.len(),
{
    if all.len() == 0 {
        Ok(
            ReadmeState {
                data: SidecarModel { minimums: Map::empty(), notes: Map::empty() },
                current: None,
            },
        )
    } else {
        match after_lines(all.drop_last()) {
            Err(e) => Err(e),
            Ok(st) => after_line(st, all.last()),
        }
    }
}

/// What a README holds.
pub open spec fn readme(text: Seq<char>) -> Result<SidecarModel, CatalogFault> {
    match after_lines(lines_text(text)) {
        Err(e) => Err(e),
        Ok(st) => Ok(st.data),
    }
}

fn is_literal_char(c: char) -> (r: bool)
    ensures
        r == literal_char(c),
{
    ('0' <= c && c <= '9') || ('a' <= c && c <= 'f') || ('A' <= c && c <= 'F') || c == 'x' || c == 'X'
}

fn parse_hex(s: &[char]) -> (r: Option<u32>)
    ensures
        r == hex_literal(s@),
{
    let t = trim(s);
    let mut n: usize = t.len();
    assert(t@.take(n as int) =~= t@);
    while n > 0 && !is_literal_char(t[n - 1])
        invariant
            n <= t@.len(),
            trim_literal(t@) == trim_literal(t@.take(n as int)),
        decreases n,
    {
        assert(t@.take(n as int).drop_last() =~= t@.take(n - 1));
        n = n - 1;
    }
    let lit = vstd::slice::slice_subrange(t, 0, n);
    assert(lit@ == trim_literal(t@));
    let lower = chars_of("0x");
    let upper = chars_of("0X");
    proof {
        reveal_strlit("0x");
        reveal_strlit("0X");
    }
    if !has_prefix(lit, lower.as_slice()) && !has_prefix(lit, upper.as_slice()) {
        return None;
    }
    let digits = vstd::slice::slice_subrange(lit, 2, lit.len());
    assert(digits@ =~= lit@.skip(2));
    match parse_u32(digits, 16) {
        Ok(v) => Some(v),
        Err(_) => None,
    }
}

fn extract_hex_after(line: &[char], key: &str) -> (r: Option<u32>)
    ensures
        r == literal_after(line@, key@),
{
    let pat = chars_of(key);
    match find(line, pat.as_slice()) {
        None => None,
        Some(i) => {
            let n: usize = line.len();
            let rest = vstd::slice::slice_subrange(line, i + pat.len(), n);
            assert(rest@ =~= line@.skip(i + pat@.len()));
            match split_first_word(rest) {
                None => None,
                Some(word) => parse_hex(word),
            }
        },
    }
}

proof fn lemma_lines_error(all: Seq<Seq<char>>, n: int)
    requires
        0 <= n <= all.len(),
        after_lines(all.take(n)) is Err,
    ensures
        after_lines(all) == after_lines(all.take(n)),
    decreases all.len() - n,
{
    if n < all.len() {
        assert(all.take(n + 1).drop_last() =~= all.take(n));
        lemma_lines_error(all, n + 1);
    } else {
        assert(all.take(n) =~= all);
    }
}

impl AmdSidecar {
    pub fn min_base_revision(&self, patch_id: u32) -> (r: Option<u32>)
        ensures
            r == if self@.minimums.contains_key(patch_id) {
                Some(self@.minimums[patch_id])
            } else {
                None::<u32>
            },
    {
        match self.minimums.get(&patch_id) {
            Some(v) => Some(*v),
            None => None,
        }
    }

    pub fn note(&self, patch_id: u32) -> (r: Option<&str>)
        ensures
            match r {
                Some(s) => self@.notes.contains_key(patch_id) && self@.notes[patch_id] == s@,
                None => !self@.notes.contains_key(patch_id),
            },
    {
        match self.notes.get(&patch_id) {
            Some(s) => Some(s.as_str()),
            None => None,
        }
    }

    pub fn len(&self) -> (r: usize)
        ensures
            r == self@.minimums.len(),
    {
        self.minimums.len()
    }

    pub fn is_empty(&self) -> (r: bool)
        ensures
            r == self@.minimums.is_empty(),
    {
        self.minimums.is_empty()
    }

    /// Takes in one line; `current` is the patch that it is about.
    fn read_line(&mut self, raw: &[char], current: Option<u32>) -> (r: Result<Option<u32>, CatalogError>)
        ensures
            match r {
                Ok(next) => after_line(
                    ReadmeState { data: old(self)@, current },
                    raw@,
                ) == Ok::<_, CatalogFault>(ReadmeState { data: final(self)@, current: next }),
                Err(e) => after_line(ReadmeState { data: old(self)@, current }, raw@) == Err::<
                    ReadmeState,
                    _,
                >(e@),
            },
    {
        let line = trim(raw);
        if line.len() == 0 {
            return Ok(current);
        }
        if let Some(patch_id) = extract_hex_after(line, "Patch=") {
            return Ok(Some(patch_id));
        }
        let prefix = chars_of("Minimum base ucode version for loading:");
        if has_prefix(line, prefix.as_slice()) {
            let rest = vstd::slice::slice_subrange(line, prefix.len(), line.len());
            assert(rest@ =~= line@.skip(prefix@.len() as int));
            let value = match parse_hex(trim(rest)) {
                Some(v) => v,
                None => {
                    let mut m = "unparseable minimum revision in ".to_owned();
                    m.append(debug_string(string_of(line).as_str()).as_str());
                    return Err(CatalogError::Sidecar(m));
                },
            };
            match current {
                Some(id) => {
                    self.minimums.insert(id, value);
                },
                None => {
                    return Err(
                        CatalogError::Sidecar(
                            "found a minimum-base line before any patch line".to_owned(),
                        ),
                    );
                },
            }
            return Ok(current);
        }
        if let Some(id) = current {
            let note = chars_of("Note");
            if has_prefix(line, note.as_slice()) {
                let text = string_of(line);
                let ghost before = self.notes@;
                self.notes.insert(id, text);
                assert(note_texts(self.notes@) =~= note_texts(before).insert(id, text@));
            }
        }
        Ok(current)
    }

    /// Parse `linux-firmware/amd-ucode/README`.
    ///
    /// The relevant shape is:
    ///
    /// ```text
    ///   Family=0x19 Model=0x01 Stepping=0x01: Patch=0x0a0011d5 Length=5568 bytes
    ///     Minimum base ucode version for loading: 0x0a0011d9
    /// ```
    ///
    /// The minimum line follows the patch line it applies to, so we track the
    /// most recently seen patch id.
    pub fn parse_linux_firmware_readme(text: &str) -> (r: Result<Self, CatalogError>)
        ensures
            match r {
                Ok(s) => readme(text@) == Ok::<_, CatalogFault>(s@),
                Err(e) => readme(text@) == Err::<SidecarModel, _>(e@),
            },
    {
        let mut out = AmdSidecar::default();
        let mut current: Option<u32> = None;
        let chars = chars_of(text);
        let all = lines(chars.as_slice());
        let ghost models = texts(all@);
        let mut i: usize = 0;
        while i < all.len()
            invariant
                i <= all@.len(),
                models == texts(all@),
                models == lines_text(text@),
                after_lines(models.take(i as int)) == Ok::<_, CatalogFault>(
                    ReadmeState { data: out@, current },
                ),
            decreases all@.len() - i,
        {
            assert(models.take(i + 1).drop_last() =~= models.take(i as int));
            assert(models.take(i + 1).last() == all@[i as int]@);
            match out.read_line(all[i].as_slice(), current) {
                Ok(next) => {
                    current = next;
                },
                Err(e) => {
                    proof {
                        lemma_lines_error(models, i + 1);
                    }
                    return Err(e);
                },
            }
            i = i + 1;
        }
        assert(models.take(i as int) =~= models);
        Ok(out)
    }
}

} // verus!
