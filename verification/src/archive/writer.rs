//! Writing `newc` archives, reproducibly.

use vstd::prelude::*;
use vstd::utf8::encode_utf8;
use crate::archive::error::{ArchiveError, ArchiveFault};
use crate::archive::format::{gap, newc_magic, MODE_DIR, MODE_FILE, NEWC_MAGIC, TRAILER_NAME};
use crate::bytes::put_bytes;
use crate::number::{hex, hex_text};
use crate::order::{dedup_by, equal, lemma_sort_map, order_of, sort, sort_by, Order, Ranking};
use crate::text::{
    chars_eq, chars_of, contains, contains_text, lemma_text_less_irreflexive, lemma_text_less_total,
    lemma_text_less_transitive, split, split_text, str_eq, str_less, string_of, strings, text_less,
    texts,
};

verus! {

/// A file to place into the archive.
#[derive(Debug)]
pub struct CpioFile {
    pub name: String,
    pub data: Vec<u8>,
    pub mode: u32,
}

/// The contents of a [`CpioFile`].
#[verifier::ext_equal]
pub struct FileModel {
    pub name: Seq<char>,
    pub data: Seq<u8>,
    pub mode: u32,
}

impl View for CpioFile {
    type V = FileModel;

    open spec fn view(&self) -> FileModel {
        FileModel { name: self.name@, data: self.data@, mode: self.mode }
    }
}

impl Clone for CpioFile {
    fn clone(&self) -> (r: Self)
        ensures
            r@ == self@,
    {
        CpioFile {
            name: self.name.clone(),
            data: vstd::slice::slice_to_vec(self.data.as_slice()),
            mode: self.mode,
        }
    }
}

pub open spec fn files_view(v: Seq<CpioFile>) -> Seq<FileModel> {
    v.map_values(|f: CpioFile| f@)
}

/// Deterministic newc archive builder.
///
/// Fixed choices, all of them load-bearing for reproducibility:
///   * `mtime` is always 0;
///   * `uid`/`gid` are always 0;
///   * inode numbers are assigned sequentially from 1 in emission order;
///   * `nlink` is 1 for files and 2 for directories;
///   * device and rdev numbers are 0;
///   * the check field is 0 (newc has no checksum; that is `070702`);
///   * hexadecimal fields are lowercase, matching `gen_init_cpio`.
#[derive(Debug)]
pub struct CpioBuilder {
    dirs: Vec<String>,
    files: Vec<CpioFile>,
    emit_parent_dirs: bool,
}

/// The contents of a [`CpioBuilder`].
#[verifier::ext_equal]
pub struct ArchiveModel {
    pub dirs: Seq<Seq<char>>,
    pub files: Seq<FileModel>,
    pub emit_parent_dirs: bool,
}

impl View for CpioBuilder {
    type V = ArchiveModel;

    closed spec fn view(&self) -> ArchiveModel {
        ArchiveModel {
            dirs: strings(self.dirs@),
            files: files_view(self.files@),
            emit_parent_dirs: self.emit_parent_dirs,
        }
    }
}

// --- names ----------------------------------------------------------------------

/// The first component that is `..` or `.`, as a reason.
pub open spec fn dot_problem(components: Seq<Seq<char>>) -> Option<Seq<char>>
    decreases components.len(),
{
    if components.len() == 0 {
        None
    } else if components[0] == ".."@ {
        Some("contains a `..` component"@)
    } else if components[0] == "."@ {
        Some("contains a `.` component"@)
    } else {
        dot_problem(components.drop_first())
    }
}

/// Why a member name is refused.
pub open spec fn name_problem(name: Seq<char>) -> Option<Seq<char>> {
    if name.len() == 0 {
        Some("empty"@)
    } else if encode_utf8(name).len() > 4096 {
        Some("longer than 4096 bytes"@)
    } else if name[0] == '/' {
        Some("absolute path"@)
    } else if contains_text(name, seq!['\0']) {
        Some("contains a NUL byte"@)
    } else if contains_text(name, "//"@) {
        Some("contains an empty path component"@)
    } else {
        dot_problem(split_text(name, '/'))
    }
}

fn find_dots(parts: &Vec<Vec<char>>) -> (r: Option<&'static str>)
    ensures
        match r {
            Some(reason) => dot_problem(texts(parts@)) == Some(reason@),
            None => dot_problem(texts(parts@)) is None,
        },
{
    let two = chars_of("..");
    let one = chars_of(".");
    let ghost all = texts(parts@);
    let mut i: usize = 0;
    assert(all.skip(0) =~= all);
    while i < parts.len()
        invariant
            i <= parts@.len(),
            all == texts(parts@),
            two@ == ".."@,
            one@ == "."@,
            dot_problem(all) == dot_problem(all.skip(i as int)),
        decreases parts@.len() - i,
    {
        assert(all.skip(i as int)[0] == parts@[i as int]@);
        assert(all.skip(i as int).drop_first() =~= all.skip(i + 1));
        if chars_eq(parts[i].as_slice(), two.as_slice()) {
            return Some("contains a `..` component");
        }
        if chars_eq(parts[i].as_slice(), one.as_slice()) {
            return Some("contains a `.` component");
        }
        i = i + 1;
    }
    None
}

fn find_problem(name: &str) -> (r: Option<&'static str>)
    ensures
        match r {
            Some(reason) => name_problem(name@) == Some(reason@),
            None => name_problem(name@) is None,
        },
{
    let chars = chars_of(name);
    if chars.len() == 0 {
        return Some("empty");
    }
    if name.as_bytes().len() > 4096 {
        return Some("longer than 4096 bytes");
    }
    if chars[0] == '/' {
        return Some("absolute path");
    }
    let nul = ['\0'];
    assert(nul@ =~= seq!['\0']);
    if contains(chars.as_slice(), nul.as_slice()) {
        return Some("contains a NUL byte");
    }
    let slashes = chars_of("//");
    if contains(chars.as_slice(), slashes.as_slice()) {
        return Some("contains an empty path component");
    }
    let parts = split(chars.as_slice(), '/');
    find_dots(&parts)
}

/// Reject anything that could escape the archive root or confuse the kernel's
/// simple path comparison.
pub fn validate_member_name(name: &str) -> (r: Result<(), ArchiveError>)
    ensures
        match r {
            Ok(_) => name_problem(name@) is None,
            Err(e) => name_problem(name@) is Some && e@ == (ArchiveFault::UnsafeName {
                name: name@,
                reason: name_problem(name@)->0,
            }),
        },
{
    match find_problem(name) {
        Some(reason) => Err(ArchiveError::UnsafeName { name: name.to_owned(), reason }),
        None => Ok(()),
    }
}

// --- the format -----------------------------------------------------------------

pub open spec fn zero_bytes(n: nat) -> Seq<u8> {
    Seq::new(n, |i: int| 0u8)
}

/// A header field: eight lower-case hexadecimal digits.
pub open spec fn field_bytes(v: u32) -> Seq<u8> {
    encode_utf8(hex(v as nat, 8))
}

/// Header fields, one behind the other.
pub open spec fn fields_bytes(fields: Seq<u32>) -> Seq<u8>
    decreases fields.len(),
{
    if fields.len() == 0 {
        Seq::empty()
    } else {
        fields_bytes(fields.drop_last()) + field_bytes(fields.last())
    }
}

/// The fields of a header: inode, mode, uid, gid, nlink, mtime, file size, four
/// device numbers, name size, check.
pub open spec fn header_fields(ino: u32, mode: u32, nlink: u32, filesize: u32, namesize: u32) -> Seq<u32> {
    seq![ino, mode, 0, 0, nlink, 0, filesize, 0, 0, 0, 0, namesize, 0]
}

/// The header of a record.
pub open spec fn header_bytes(ino: u32, mode: u32, nlink: u32, filesize: u32, namesize: u32) -> Seq<u8> {
    newc_magic() + fields_bytes(header_fields(ino, mode, nlink, filesize, namesize))
}

/// `b` with zeros up to a multiple of four.
pub open spec fn padded(b: Seq<u8>) -> Seq<u8> {
    b + zero_bytes(gap(b.len() as int))
}

/// The low 32 bits of a length.
pub open spec fn low32(n: nat) -> u32 {
    (n % 0x1_0000_0000) as u32
}

/// One record: header, name and data, the latter two padded.
#[verifier::opaque]
pub open spec fn record_bytes(ino: u32, mode: u32, nlink: u32, name: Seq<char>, data: Seq<u8>) -> Seq<u8> {
    padded(
        header_bytes(
            ino,
            mode,
            nlink,
            low32(data.len()),
            low32(encode_utf8(name).len() + 1),
        ) + encode_utf8(name) + seq![0u8],
    ) + padded(data)
}

/// One thing to be written: name, data, mode and link count.
#[verifier::ext_equal]
pub struct Member {
    pub name: Seq<char>,
    pub data: Seq<u8>,
    pub mode: u32,
    pub nlink: u32,
}

/// The inode number of the member at position `i`.
pub open spec fn inode(i: int) -> u32 {
    ((i + 1) % 0x1_0000_0000) as u32
}

/// The records of members, the first of which has position `i`.
pub open spec fn members_bytes(members: Seq<Member>, i: int) -> Seq<u8>
    decreases members.len(),
{
    if members.len() == 0 {
        Seq::empty()
    } else {
        let m = members[0];
        record_bytes(inode(i), m.mode, m.nlink, m.name, m.data) + members_bytes(
            members.drop_first(),
            i + 1,
        )
    }
}

/// The record that ends an archive.
pub open spec fn trailer_bytes() -> Seq<u8> {
    record_bytes(0, 0, 1, TRAILER_NAME@, Seq::empty())
}

pub open spec fn text_order() -> spec_fn(Seq<char>, Seq<char>) -> bool {
    |a: Seq<char>, b: Seq<char>| text_less(a, b)
}

pub open spec fn file_order() -> spec_fn(FileModel, FileModel) -> bool {
    |a: FileModel, b: FileModel| text_less(a.name, b.name)
}

/// The directories in path order, each once.
pub open spec fn sorted_dirs(dirs: Seq<Seq<char>>) -> Seq<Seq<char>> {
    dedup_by(sort_by(dirs, text_order()), equal::<Seq<char>>())
}

pub open spec fn dir_member(name: Seq<char>) -> Member {
    Member { name, data: Seq::empty(), mode: MODE_DIR | 0o755, nlink: 2 }
}

pub open spec fn file_member(f: FileModel) -> Member {
    Member { name: f.name, data: f.data, mode: f.mode, nlink: 1 }
}

/// Directories in path order, then files in path order.
pub open spec fn members_of(m: ArchiveModel) -> Seq<Member> {
    sorted_dirs(m.dirs).map_values(|d: Seq<char>| dir_member(d)) + sort_by(
        m.files,
        file_order(),
    ).map_values(|f: FileModel| file_member(f))
}

/// The archive that is built.
pub open spec fn archive_bytes(m: ArchiveModel) -> Seq<u8> {
    members_bytes(members_of(m), 0) + trailer_bytes()
}

// --- parent directories -----------------------------------------------------------

/// The path up to each of the first `n` characters that is a slash.
pub open spec fn parents(name: Seq<char>, n: nat) -> Seq<Seq<char>>
    decreases n,
{
    if n == 0 {
        Seq::empty()
    } else {
        let front = parents(name, (n - 1) as nat);
        if name[n - 1] == '/' {
            front.push(name.take(n - 1))
        } else {
            front
        }
    }
}

/// `dirs` with those of `more` that are new.
pub open spec fn with_dirs(dirs: Seq<Seq<char>>, more: Seq<Seq<char>>) -> Seq<Seq<char>>
    decreases more.len(),
{
    if more.len() == 0 {
        dirs
    } else {
        let front = with_dirs(dirs, more.drop_last());
        if front.contains(more.last()) {
            front
        } else {
            front.push(more.last())
        }
    }
}

/// The builder with one more file.
pub open spec fn with_file(m: ArchiveModel, name: Seq<char>, data: Seq<u8>) -> ArchiveModel {
    ArchiveModel {
        dirs: if m.emit_parent_dirs {
            with_dirs(m.dirs, parents(name, name.len()))
        } else {
            m.dirs
        },
        files: m.files.push(FileModel { name, data, mode: MODE_FILE | 0o644 }),
        ..m
    }
}

fn contains_name(dirs: &Vec<String>, name: &str) -> (r: bool)
    ensures
        r == strings(dirs@).contains(name@),
{
    let ghost all = strings(dirs@);
    let mut i: usize = 0;
    while i < dirs.len()
        invariant
            i <= dirs@.len(),
            all == strings(dirs@),
            forall|k: int| 0 <= k < i ==> all[k] != name@,
        decreases dirs@.len() - i,
    {
        assert(all[i as int] == dirs@[i as int]@);
        if str_eq(dirs[i].as_str(), name) {
            return true;
        }
        i = i + 1;
    }
    false
}

fn add_parents(dirs: Vec<String>, name: &[char]) -> (r: Vec<String>)
    ensures
        strings(r@) == with_dirs(strings(dirs@), parents(name@, name@.len())),
{
    let mut out = dirs;
    let ghost start = strings(dirs@);
    let mut i: usize = 0;
    while i < name.len()
        invariant
            i <= name@.len(),
            strings(out@) == with_dirs(start, parents(name@, i as nat)),
        decreases name@.len() - i,
    {
        if name[i] == '/' {
            let ghost more = parents(name@, (i + 1) as nat);
            let d = string_of(vstd::slice::slice_subrange(name, 0, i));
            assert(d@ =~= name@.take(i as int));
            assert(more.drop_last() =~= parents(name@, i as nat));
            assert(more.last() == d@);
            let ghost before = out@;
            if !contains_name(&out, d.as_str()) {
                out.push(d);
                assert(strings(out@) =~= strings(before).push(d@));
            }
        }
        i = i + 1;
    }
    out
}

/// Path order.
pub struct ByPath;

impl Ranking<String> for ByPath {
    open spec fn less(a: String, b: String) -> bool {
        text_less(a@, b@)
    }

    proof fn irreflexive(a: String) {
        lemma_text_less_irreflexive(a@);
    }

    proof fn transitive(a: String, b: String, c: String) {
        lemma_text_less_transitive(a@, b@, c@);
    }

    proof fn weak(a: String, b: String, c: String) {
        lemma_text_weak(a@, b@, c@);
    }
}

impl Order<String> for ByPath {
    fn is_less(a: &String, b: &String) -> (r: bool) {
        str_less(a.as_str(), b.as_str())
    }
}

impl Ranking<CpioFile> for ByPath {
    open spec fn less(a: CpioFile, b: CpioFile) -> bool {
        text_less(a@.name, b@.name)
    }

    proof fn irreflexive(a: CpioFile) {
        lemma_text_less_irreflexive(a@.name);
    }

    proof fn transitive(a: CpioFile, b: CpioFile, c: CpioFile) {
        lemma_text_less_transitive(a@.name, b@.name, c@.name);
    }

    proof fn weak(a: CpioFile, b: CpioFile, c: CpioFile) {
        lemma_text_weak(a@.name, b@.name, c@.name);
    }
}

impl Order<CpioFile> for ByPath {
    fn is_less(a: &CpioFile, b: &CpioFile) -> (r: bool) {
        str_less(a.name.as_str(), b.name.as_str())
    }
}

/// Not sorting before is transitive.
pub proof fn lemma_text_weak(a: Seq<char>, b: Seq<char>, c: Seq<char>)
    requires
        !text_less(a, b),
        !text_less(b, c),
    ensures
        !text_less(a, c),
{
    lemma_text_less_total(a, b);
    lemma_text_less_total(b, c);
    if text_less(a, c) {
        if a != b && b != c {
            lemma_text_less_transitive(c, b, a);
            lemma_text_less_transitive(a, c, a);
            lemma_text_less_irreflexive(a);
        } else if a == b && b == c {
            lemma_text_less_irreflexive(a);
        } else if a == b {
            lemma_text_less_transitive(c, b, c);
            lemma_text_less_irreflexive(c);
        } else {
            lemma_text_less_transitive(a, c, a);
            lemma_text_less_irreflexive(a);
        }
    }
}

fn dedup_names(v: Vec<String>) -> (r: Vec<String>)
    ensures
        strings(r@) == dedup_by(strings(v@), equal::<Seq<char>>()),
{
    let ghost all = strings(v@);
    let ghost same = equal::<Seq<char>>();
    let mut out: Vec<String> = Vec::new();
    assert(strings(out@) =~= dedup_by(all.take(0), same));
    for name in it: v
        invariant
            it.seq() == v@,
            all == strings(v@),
            same == equal::<Seq<char>>(),
            strings(out@) == dedup_by(all.take(it.index() as int), same),
    {
        let ghost k = it.index() as int;
        assert(all.take(k + 1).drop_last() =~= all.take(k));
        assert(all.take(k + 1).last() == name@);
        let n: usize = out.len();
        let ghost before = out@;
        assert(n > 0 ==> strings(before).last() == before.last()@);
        if n > 0 && str_eq(name.as_str(), out[n - 1].as_str()) {
        } else {
            out.push(name);
            assert(strings(out@) =~= strings(before).push(name@));
        }
    }
    assert(all.take(all.len() as int) =~= all);
    out
}

// --- writing --------------------------------------------------------------------

fn put_field(out: &mut Vec<u8>, v: u32)
    ensures
        final(out)@ == old(out)@ + field_bytes(v),
{
    let s = hex_text(v as u64, 8);
    put_bytes(out, s.as_str().as_bytes());
}

fn pad_to(out: &mut Vec<u8>)
    ensures
        final(out)@ == padded(old(out)@),
        final(out)@.len() % 4 == 0,
{
    let ghost start = out@;
    let rem: usize = out.len() % 4;
    if rem != 0 {
        let mut k: usize = rem;
        while k < 4
            invariant
                1 <= rem <= k <= 4,
                rem == start.len() % 4,
                out@ =~= start + zero_bytes((k - rem) as nat),
            decreases 4 - k,
        {
            out.push(0);
            k = k + 1;
        }
    }
    assert(out@ =~= padded(start));
}

fn low_dword(n: usize) -> (r: u32)
    ensures
        r == low32(n as nat),
{
    (n as u64 % 0x1_0000_0000) as u32
}

/// The low 32 bits of the successor.
fn next_dword(n: u32) -> (r: u32)
    ensures
        r == (n + 1) % 0x1_0000_0000,
{
    n.wrapping_add(1)
}

fn put_header(out: &mut Vec<u8>, ino: u32, mode: u32, nlink: u32, filesize: u32, namesize: u32)
    ensures
        final(out)@ == old(out)@ + header_bytes(ino, mode, nlink, filesize, namesize),
{
    let ghost start = out@;
    let magic: [u8; 6] = NEWC_MAGIC;
    assert(magic@ =~= newc_magic());
    put_bytes(out, magic.as_slice());
    // uid, gid, mtime and the device numbers are always zero, for
    // reproducibility.
    let values: [u32; 13] = [ino, mode, 0, 0, nlink, 0, filesize, 0, 0, 0, 0, namesize, 0];
    let ghost fields = header_fields(ino, mode, nlink, filesize, namesize);
    assert(values@ =~= fields);
    let mut i: usize = 0;
    while i < 13
        invariant
            i <= 13,
            values@ == fields,
            fields.len() == 13,
            out@ =~= start + newc_magic() + fields_bytes(fields.take(i as int)),
        decreases 13 - i,
    {
        assert(fields.take(i + 1).drop_last() =~= fields.take(i as int));
        assert(fields.take(i + 1).last() == values@[i as int]);
        put_field(out, values[i]);
        i = i + 1;
    }
    assert(fields.take(13) =~= fields);
    assert(out@ =~= start + header_bytes(ino, mode, nlink, filesize, namesize));
}

fn write_record(out: &mut Vec<u8>, ino: u32, mode: u32, nlink: u32, name: &str, data: &[u8])
    requires
        old(out)@.len() % 4 == 0,
    ensures
        final(out)@ == old(out)@ + record_bytes(ino, mode, nlink, name@, data@),
        final(out)@.len() % 4 == 0,
{
    reveal(record_bytes);
    let ghost start = out@;
    let raw = name.as_bytes();
    put_header(out, ino, mode, nlink, low_dword(data.len()), next_dword(low_dword(raw.len())));
    let ghost header = header_bytes(
        ino,
        mode,
        nlink,
        low32(data@.len()),
        low32(encode_utf8(name@).len() + 1),
    );
    put_bytes(out, raw);
    out.push(0);
    let ghost named = header + encode_utf8(name@) + seq![0u8];
    assert(out@ =~= start + named);
    pad_to(out);
    proof {
        lemma_padded_behind(start, named);
    }
    let ghost middle = out@;
    put_bytes(out, data);
    pad_to(out);
    proof {
        lemma_padded_behind(middle, data@);
    }
    assert((start + padded(named)) + padded(data@) =~= start + (padded(named) + padded(data@)));
}

/// Padding behind something aligned is padding of the new part.
proof fn lemma_padded_behind(a: Seq<u8>, b: Seq<u8>)
    requires
        a.len() % 4 == 0,
    ensures
        padded(a + b) == a + padded(b),
{
    assert(gap((a + b).len() as int) == gap(b.len() as int));
    assert(padded(a + b) =~= a + padded(b));
}

/// The sum of the sizes of files.
pub open spec fn payload_total(files: Seq<FileModel>) -> nat
    decreases files.len(),
{
    if files.len() == 0 {
        0
    } else {
        payload_total(files.drop_last()) + files.last().data.len()
    }
}

proof fn lemma_payload_prefix(files: Seq<FileModel>, n: int)
    requires
        0 <= n <= files.len(),
    ensures
        payload_total(files.take(n)) <= payload_total(files),
    decreases files.len() - n,
{
    if n < files.len() {
        assert(files.take(n + 1).drop_last() =~= files.take(n));
        lemma_payload_prefix(files, n + 1);
    } else {
        assert(files.take(n) =~= files);
    }
}

impl Default for CpioBuilder {
    fn default() -> (r: Self)
        ensures
            r@ == (ArchiveModel { dirs: Seq::empty(), files: Seq::empty(), emit_parent_dirs: false }),
    {
        let r = CpioBuilder { dirs: Vec::new(), files: Vec::new(), emit_parent_dirs: false };
        assert(r@.dirs =~= Seq::empty());
        assert(r@.files =~= Seq::empty());
        r
    }
}

impl ArchiveModel {
    /// Every name is short enough to have a size.
    pub open spec fn wf(self) -> bool {
        &&& forall|i: int|
            0 <= i < self.dirs.len() ==> encode_utf8(#[trigger] self.dirs[i]).len() <= 4096
        &&& forall|i: int|
            0 <= i < self.files.len() ==> name_problem((#[trigger] self.files[i]).name) is None
    }
}

impl CpioBuilder {
    pub fn new() -> (r: Self)
        ensures
            r@ == (ArchiveModel { dirs: Seq::empty(), files: Seq::empty(), emit_parent_dirs: true }),
            r@.wf(),
    {
        let r = CpioBuilder { dirs: Vec::new(), files: Vec::new(), emit_parent_dirs: true };
        assert(r@.dirs =~= Seq::empty());
        assert(r@.files =~= Seq::empty());
        r
    }

    /// The Linux early loader looks up the full path directly and does not
    /// need directory records. Some initramfs tooling does expect them, so
    /// they are emitted by default but can be turned off for a minimal image.
    pub fn emit_parent_dirs(self, yes: bool) -> (r: Self)
        ensures
            r@ == (ArchiveModel { emit_parent_dirs: yes, ..self@ }),
            self@.wf() ==> r@.wf(),
    {
        CpioBuilder { emit_parent_dirs: yes, ..self }
    }

    pub fn add_file(&mut self, name: &str, data: Vec<u8>) -> (r: Result<&mut Self, ArchiveError>)
        ensures
            match r {
                Ok(b) => {
                    &&& name_problem(name@) is None
                    &&& b@ == with_file(old(self)@, name@, data@)
                    &&& old(self)@.wf() ==> b@.wf()
                    &&& *final(self) == *final(b)
                },
                Err(e) => {
                    &&& name_problem(name@) is Some
                    &&& e@ == (ArchiveFault::UnsafeName { name: name@, reason: name_problem(name@)->0 })
                    &&& final(self)@ == old(self)@
                },
            },
    {
        match validate_member_name(name) {
            Ok(_) => {},
            Err(e) => {
                return Err(e);
            },
        }
        let ghost before = self@;
        if self.emit_parent_dirs {
            let chars = chars_of(name);
            let mut dirs: Vec<String> = Vec::new();
            std::mem::swap(&mut dirs, &mut self.dirs);
            self.dirs = add_parents(dirs, chars.as_slice());
        }
        let ghost files = self.files@;
        let file = CpioFile { name: name.to_owned(), data, mode: MODE_FILE | 0o644 };
        self.files.push(file);
        assert(files_view(self.files@) =~= files_view(files).push(file@));
        proof {
            if before.wf() {
                lemma_with_file_wf(before, name@, data@);
            }
        }
        Ok(self)
    }

    /// Serialise the archive. Directories come first in path order, then files
    /// in path order, then the trailer.
    pub fn build(self) -> (r: Result<Vec<u8>, ArchiveError>)
        ensures
            r matches Ok(b) && b@ == archive_bytes(self@),
    {
        let ghost model = self@;
        let ghost given_dirs = self.dirs@;
        let ghost given_files = self.files@;
        let ordered = sort::<String, ByPath>(self.dirs);
        let dirs = dedup_names(ordered);
        let files = sort::<CpioFile, ByPath>(self.files);
        let ghost members = members_of(model);
        proof {
            lemma_sort_map(
                given_dirs,
                |x: String| x@,
                order_of::<String, ByPath>(),
                text_order(),
            );
            lemma_sort_map(
                given_files,
                |f: CpioFile| f@,
                order_of::<CpioFile, ByPath>(),
                file_order(),
            );
            assert(strings(dirs@) == sorted_dirs(model.dirs));
            assert(files_view(files@) == sort_by(model.files, file_order()));
        }
        let ghost nd = dirs@.len() as int;
        assert(members.len() == nd + files@.len());
        assert forall|k: int| 0 <= k < nd implies #[trigger] members[k] == dir_member(dirs@[k]@) by {
            assert(strings(dirs@)[k] == dirs@[k]@);
        }
        assert forall|k: int| 0 <= k < files@.len() implies #[trigger] members[nd + k] == file_member(
            files@[k]@,
        ) by {
            assert(files_view(files@)[k] == files@[k]@);
        }
        let nothing: [u8; 0] = [];
        assert(nothing@ =~= Seq::empty());
        let mut out: Vec<u8> = Vec::new();
        let mut ino: u32 = 1;
        let mut i: usize = 0;
        assert(members.skip(0) =~= members);
        while i < dirs.len()
            invariant
                i <= dirs@.len(),
                nothing@ == Seq::<u8>::empty(),
                nd == dirs@.len(),
                nd <= members.len(),
                ino == inode(i as int),
                out@.len() % 4 == 0,
                forall|k: int| 0 <= k < nd ==> #[trigger] members[k] == dir_member(dirs@[k]@),
                out@ + members_bytes(members.skip(i as int), i as int) =~= members_bytes(members, 0),
            decreases dirs@.len() - i,
        {
            let ghost before = out@;
            let ghost rest = members_bytes(members.skip(i + 1), i + 1);
            assert(members.skip(i as int).drop_first() =~= members.skip(i + 1));
            assert(members.skip(i as int)[0] == members[i as int]);
            write_record(&mut out, ino, MODE_DIR | 0o755, 2, dirs[i].as_str(), nothing.as_slice());
            let ghost m = members[i as int];
            let ghost record = record_bytes(ino, m.mode, m.nlink, m.name, m.data);
            assert(before + (record + rest) =~= (before + record) + rest);
            ino = ino.wrapping_add(1);
            i = i + 1;
        }
        let mut k: usize = 0;
        while k < files.len()
            invariant
                k <= files@.len(),
                members.len() == nd + files@.len(),
                0 <= nd,
                ino == inode(nd + k),
                out@.len() % 4 == 0,
                forall|k: int|
                    0 <= k < files@.len() ==> #[trigger] members[nd + k] == file_member(files@[k]@),
                out@ + members_bytes(members.skip(nd + k), nd + k) =~= members_bytes(members, 0),
            decreases files@.len() - k,
        {
            let ghost before = out@;
            let ghost rest = members_bytes(members.skip(nd + k + 1), nd + k + 1);
            assert(members.skip(nd + k).drop_first() =~= members.skip(nd + k + 1));
            assert(members.skip(nd + k)[0] == members[nd + k]);
            write_record(
                &mut out,
                ino,
                files[k].mode,
                1,
                files[k].name.as_str(),
                files[k].data.as_slice(),
            );
            let ghost m = members[nd + k];
            let ghost record = record_bytes(ino, m.mode, m.nlink, m.name, m.data);
            assert(before + (record + rest) =~= (before + record) + rest);
            ino = ino.wrapping_add(1);
            k = k + 1;
        }
        assert(members_bytes(members.skip(nd + k), nd + k) =~= Seq::empty());
        assert(out@ =~= members_bytes(members, 0));
        write_record(&mut out, 0, 0, 1, TRAILER_NAME, nothing.as_slice());
        assert(out@ =~= archive_bytes(model));
        Ok(out)
    }

    pub fn is_empty(&self) -> (r: bool)
        ensures
            r == (self@.files.len() == 0),
    {
        self.files.len() == 0
    }

    pub fn total_payload_bytes(&self) -> (r: usize)
        requires
            payload_total(self@.files) <= usize::MAX,
        ensures
            r == payload_total(self@.files),
    {
        let ghost all = files_view(self.files@);
        let mut total: usize = 0;
        let mut i: usize = 0;
        while i < self.files.len()
            invariant
                i <= self.files@.len(),
                all == files_view(self.files@),
                payload_total(all) <= usize::MAX,
                total == payload_total(all.take(i as int)),
            decreases self.files@.len() - i,
        {
            assert(all.take(i + 1).drop_last() =~= all.take(i as int));
            assert(all.take(i + 1).last() == self.files@[i as int]@);
            proof {
                lemma_payload_prefix(all, i + 1);
            }
            total = total + self.files[i].data.len();
            i = i + 1;
        }
        assert(all.take(i as int) =~= all);
        total
    }
}

pub proof fn lemma_parents_short(name: Seq<char>, n: nat)
    requires
        n <= name.len(),
        encode_utf8(name).len() <= 4096,
    ensures
        forall|i: int|
            0 <= i < parents(name, n).len() ==> encode_utf8(#[trigger] parents(name, n)[i]).len() <= 4096,
    decreases n,
{
    if n > 0 {
        let front = parents(name, (n - 1) as nat);
        let all = parents(name, n);
        lemma_parents_short(name, (n - 1) as nat);
        lemma_encode_prefix(name, n - 1);
        assert forall|i: int| 0 <= i < all.len() implies encode_utf8(#[trigger] all[i]).len() <= 4096 by {
            if i < front.len() {
                assert(all[i] == front[i]);
            }
        }
    }
}

/// Encoding distributes over concatenation.
pub proof fn lemma_encode_concat(a: Seq<char>, b: Seq<char>)
    ensures
        encode_utf8(a + b) == encode_utf8(a) + encode_utf8(b),
    decreases a.len(),
{
    if a.len() == 0 {
        assert(a + b =~= b);
        assert(encode_utf8(a) =~= Seq::empty());
        assert(encode_utf8(a) + encode_utf8(b) =~= encode_utf8(b));
    } else {
        lemma_encode_concat(a.drop_first(), b);
        assert((a + b).drop_first() =~= a.drop_first() + b);
        assert((a + b)[0] == a[0]);
        assert(encode_utf8(a + b) =~= encode_utf8(a) + encode_utf8(b));
    }
}

proof fn lemma_encode_prefix(name: Seq<char>, n: int)
    requires
        0 <= n <= name.len(),
    ensures
        encode_utf8(name.take(n)).len() <= encode_utf8(name).len(),
{
    lemma_encode_concat(name.take(n), name.skip(n));
    assert(name.take(n) + name.skip(n) =~= name);
}

proof fn lemma_with_dirs_short(dirs: Seq<Seq<char>>, more: Seq<Seq<char>>)
    requires
        forall|i: int| 0 <= i < dirs.len() ==> encode_utf8(#[trigger] dirs[i]).len() <= 4096,
        forall|i: int| 0 <= i < more.len() ==> encode_utf8(#[trigger] more[i]).len() <= 4096,
    ensures
        forall|i: int|
            0 <= i < with_dirs(dirs, more).len() ==> encode_utf8(#[trigger] with_dirs(dirs, more)[i]).len()
                <= 4096,
    decreases more.len(),
{
    if more.len() > 0 {
        assert(encode_utf8(more[more.len() - 1]).len() <= 4096);
        assert forall|i: int| 0 <= i < more.drop_last().len() implies encode_utf8(
            #[trigger] more.drop_last()[i],
        ).len() <= 4096 by {
            assert(encode_utf8(more[i]).len() <= 4096);
        }
        lemma_with_dirs_short(dirs, more.drop_last());
        let front = with_dirs(dirs, more.drop_last());
        let all = with_dirs(dirs, more);
        assert forall|i: int| 0 <= i < all.len() implies encode_utf8(#[trigger] all[i]).len() <= 4096 by {
            if i < front.len() {
                assert(all[i] == front[i]);
            }
        }
    }
}

proof fn lemma_with_file_wf(m: ArchiveModel, name: Seq<char>, data: Seq<u8>)
    requires
        m.wf(),
        name_problem(name) is None,
    ensures
        with_file(m, name, data).wf(),
{
    lemma_parents_short(name, name.len());
    lemma_with_dirs_short(m.dirs, parents(name, name.len()));
}

} // verus!
