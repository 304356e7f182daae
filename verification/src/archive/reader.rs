//! Reading `newc` archives.

use vstd::prelude::*;
use vstd::utf8::{decode_utf8, valid_utf8};
use crate::archive::error::{ArchiveError, ArchiveFault};
use crate::archive::format::{
    align_up, aligned, magic_at, newc_magic, MODE_DIR, MODE_FILE, NEWC_HEADER_SIZE, TRAILER_NAME,
};
use crate::bytes::{get_slice, has_bytes_at, slice_of};
use crate::model::limits::Limits;
use crate::number::{parse_u32, read_u32};
use crate::text::{chars_of, str_eq, trim, trim_text, utf8_text};

verus! {

#[derive(Debug)]
pub struct CpioEntry {
    pub name: String,
    pub mode: u32,
    pub uid: u32,
    pub gid: u32,
    pub mtime: u32,
    /// Offset of the file data within the buffer.
    pub data_offset: u64,
    pub data_len: u32,
}

/// The contents of a [`CpioEntry`].
#[verifier::ext_equal]
pub struct CpioModel {
    pub name: Seq<char>,
    pub mode: u32,
    pub uid: u32,
    pub gid: u32,
    pub mtime: u32,
    pub data_offset: u64,
    pub data_len: u32,
}

impl View for CpioEntry {
    type V = CpioModel;

    open spec fn view(&self) -> CpioModel {
        CpioModel {
            name: self.name@,
            mode: self.mode,
            uid: self.uid,
            gid: self.gid,
            mtime: self.mtime,
            data_offset: self.data_offset,
            data_len: self.data_len,
        }
    }
}

impl Clone for CpioEntry {
    fn clone(&self) -> (r: Self)
        ensures
            r@ == self@,
    {
        CpioEntry {
            name: self.name.clone(),
            mode: self.mode,
            uid: self.uid,
            gid: self.gid,
            mtime: self.mtime,
            data_offset: self.data_offset,
            data_len: self.data_len,
        }
    }
}

pub open spec fn cpio_view(v: Seq<CpioEntry>) -> Seq<CpioModel> {
    v.map_values(|e: CpioEntry| e@)
}

impl CpioModel {
    /// The bytes of the member inside `buf`.
    pub open spec fn content(self, buf: Seq<u8>) -> Option<Seq<u8>> {
        slice_of(buf, self.data_offset as int, self.data_len as int)
    }
}

impl CpioEntry {
    pub fn is_dir(&self) -> (r: bool)
        ensures
            r == (self.mode & 0o170_000 == MODE_DIR),
    {
        self.mode & 0o170_000 == MODE_DIR
    }

    pub fn is_file(&self) -> (r: bool)
        ensures
            r == (self.mode & 0o170_000 == MODE_FILE),
    {
        self.mode & 0o170_000 == MODE_FILE
    }

    pub fn data<'b>(&self, buf: &'b [u8]) -> (r: Option<&'b [u8]>)
        ensures
            match r {
                Some(s) => self@.content(buf@) == Some(s@),
                None => self@.content(buf@) is None,
            },
    {
        get_slice(buf, self.data_offset, self.data_len)
    }
}

// --- the grammar ----------------------------------------------------------------

/// The header field with the given index: eight characters, a hexadecimal
/// number with optional white space around it.
#[verifier::opaque]
pub open spec fn field_value(b: Seq<u8>, start: int, idx: int) -> Option<u32> {
    let raw = b.subrange(start + 6 + idx * 8, start + 14 + idx * 8);
    if valid_utf8(raw) {
        match read_u32(trim_text(decode_utf8(raw)), 16) {
            Ok(v) => Some(v as u32),
            Err(_) => None,
        }
    } else {
        None
    }
}

pub open spec fn bad_field(field: Seq<char>, start: int, idx: int) -> ArchiveFault {
    ArchiveFault::BadField { field, offset: start + 6 + idx * 8 }
}

/// The first of the fields that are read that is no number.
pub open spec fn field_fault(b: Seq<u8>, start: int) -> Option<ArchiveFault> {
    if field_value(b, start, 0) is None {
        Some(bad_field("c_ino"@, start, 0))
    } else if field_value(b, start, 1) is None {
        Some(bad_field("c_mode"@, start, 1))
    } else if field_value(b, start, 2) is None {
        Some(bad_field("c_uid"@, start, 2))
    } else if field_value(b, start, 3) is None {
        Some(bad_field("c_gid"@, start, 3))
    } else if field_value(b, start, 4) is None {
        Some(bad_field("c_nlink"@, start, 4))
    } else if field_value(b, start, 5) is None {
        Some(bad_field("c_mtime"@, start, 5))
    } else if field_value(b, start, 6) is None {
        Some(bad_field("c_filesize"@, start, 6))
    } else if field_value(b, start, 11) is None {
        Some(bad_field("c_namesize"@, start, 11))
    } else {
        None
    }
}

/// The largest member that is read.
pub open spec fn member_limit(limits: Limits) -> u32 {
    if limits.max_patch_bytes > 0x100_0000 {
        limits.max_patch_bytes
    } else {
        0x100_0000
    }
}

/// The record at `start`, and the offset behind its padding.
#[verifier::opaque]
pub open spec fn record_at(b: Seq<u8>, start: int, limits: Limits) -> Result<(CpioModel, int), ArchiveFault> {
    let left = if start <= b.len() {
        b.len() - start
    } else {
        0
    };
    let filesize = field_value(b, start, 6)->0;
    let namesize = field_value(b, start, 11)->0;
    let name_start = start + NEWC_HEADER_SIZE;
    let name_end = name_start + namesize;
    let name = b.subrange(name_start, name_end - 1);
    let data_start = aligned(name_end);
    let data_end = data_start + filesize;
    if left < NEWC_HEADER_SIZE {
        Err(ArchiveFault::Truncated { offset: start, need: NEWC_HEADER_SIZE as int, have: left })
    } else if !has_bytes_at(b, start, newc_magic()) {
        Err(ArchiveFault::BadMagic { offset: start })
    } else if field_fault(b, start) is Some {
        Err(field_fault(b, start)->0)
    } else if namesize == 0 || namesize > 4097 {
        Err(ArchiveFault::BadField { field: "c_namesize"@, offset: start })
    } else if filesize > member_limit(limits) {
        Err(ArchiveFault::LimitExceeded("cpio member larger than allowed"@))
    } else if name_end > b.len() {
        Err(
            ArchiveFault::Truncated {
                offset: name_start,
                need: namesize as int,
                have: b.len() - name_start,
            },
        )
    } else if !valid_utf8(name) {
        Err(ArchiveFault::BadField { field: "name"@, offset: name_start })
    } else if data_end > usize::MAX {
        Err(ArchiveFault::BadField { field: "c_filesize"@, offset: start })
    } else if data_end > b.len() {
        Err(
            ArchiveFault::Truncated {
                offset: data_start,
                need: filesize as int,
                have: if data_start <= b.len() {
                    b.len() - data_start
                } else {
                    0
                },
            },
        )
    } else if aligned(data_end) > usize::MAX {
        Err(ArchiveFault::BadField { field: "c_filesize"@, offset: start })
    } else {
        Ok(
            (
                CpioModel {
                    name: decode_utf8(name),
                    mode: field_value(b, start, 1)->0,
                    uid: field_value(b, start, 2)->0,
                    gid: field_value(b, start, 3)->0,
                    mtime: field_value(b, start, 5)->0,
                    data_offset: data_start as u64,
                    data_len: filesize,
                },
                aligned(data_end),
            ),
        )
    }
}

/// A reader's position in its buffer.
#[verifier::ext_equal]
pub struct ReaderModel {
    pub buf: Seq<u8>,
    pub cursor: int,
    pub limits: Limits,
    /// Members read so far.
    pub count: u32,
    /// The trailer has been read.
    pub finished: bool,
}

impl ReaderModel {
    /// What reading the next member yields.
    pub open spec fn next(self) -> Result<Option<CpioModel>, ArchiveFault> {
        if self.finished {
            Ok(None)
        } else {
            match record_at(self.buf, self.cursor, self.limits) {
                Err(e) => Err(e),
                Ok((entry, _)) => if entry.name == TRAILER_NAME@ {
                    Ok(None)
                } else if self.counted() > self.limits.max_archive_entries {
                    Err(ArchiveFault::LimitExceeded("too many cpio entries"@))
                } else {
                    Ok(Some(entry))
                },
            }
        }
    }

    /// The number of members with the next one.
    pub open spec fn counted(self) -> u32 {
        if self.count < u32::MAX {
            (self.count + 1) as u32
        } else {
            u32::MAX
        }
    }

    /// The position after reading the next member.
    pub open spec fn advanced(self) -> ReaderModel {
        if self.finished {
            self
        } else {
            match record_at(self.buf, self.cursor, self.limits) {
                Err(_) => self,
                Ok((entry, end)) => if entry.name == TRAILER_NAME@ {
                    ReaderModel { cursor: end, finished: true, ..self }
                } else {
                    ReaderModel { cursor: end, count: self.counted(), ..self }
                },
            }
        }
    }

    /// All members up to the trailer, behind the given ones, and the offset
    /// behind the trailer.
    pub open spec fn all(self, found: Seq<CpioModel>) -> Result<(Seq<CpioModel>, int), ArchiveFault>
        decreases self.buf.len() + 4 - self.cursor,
    {
        match self.next() {
            Err(e) => Err(e),
            Ok(None) => Ok((found, self.advanced().cursor)),
            Ok(Some(entry)) => {
                proof {
                    lemma_record_grows(self.buf, self.cursor, self.limits);
                }
                if 0 <= self.cursor {
                    self.advanced().all(found.push(entry))
                } else {
                    Ok((found, self.cursor))
                }
            },
        }
    }
}

/// A record ends behind its start, and at most three bytes behind the buffer.
pub proof fn lemma_record_grows(b: Seq<u8>, start: int, limits: Limits)
    ensures
        record_at(b, start, limits) matches Ok((_, end)) ==> start < end <= aligned(b.len() as int) && start
            + NEWC_HEADER_SIZE <= b.len(),
{
    reveal(record_at);
}

// --- reading --------------------------------------------------------------------

/// Streaming-ish reader over an in-memory newc archive.
pub struct CpioReader<'a> {
    buf: &'a [u8],
    cursor: usize,
    limits: Limits,
    count: u32,
    finished: bool,
}

impl<'a> View for CpioReader<'a> {
    type V = ReaderModel;

    closed spec fn view(&self) -> ReaderModel {
        ReaderModel {
            buf: self.buf@,
            cursor: self.cursor as int,
            limits: self.limits,
            count: self.count,
            finished: self.finished,
        }
    }
}

fn read_field(buf: &[u8], start: usize, idx: usize, name: &'static str) -> (r: Result<u32, ArchiveError>)
    requires
        start + NEWC_HEADER_SIZE <= buf@.len(),
        idx < 13,
    ensures
        match r {
            Ok(v) => field_value(buf@, start as int, idx as int) == Some(v),
            Err(e) => field_value(buf@, start as int, idx as int) is None && e@ == bad_field(
                name@,
                start as int,
                idx as int,
            ),
        },
{
    reveal(field_value);
    let n: usize = buf.len();
    let off: usize = start + 6 + idx * 8;
    let raw = vstd::slice::slice_subrange(buf, off, off + 8);
    match utf8_text(raw) {
        None => Err(ArchiveError::BadField { field: name, offset: off as u64 }),
        Some(s) => {
            proof {
                vstd::utf8::encode_utf8_decode_utf8(s@);
            }
            let chars = chars_of(s.as_str());
            match parse_u32(trim(chars.as_slice()), 16) {
                Ok(v) => Ok(v),
                Err(_) => Err(ArchiveError::BadField { field: name, offset: off as u64 }),
            }
        },
    }
}

/// The numbers of a header that the reader looks at.
struct Fields {
    mode: u32,
    uid: u32,
    gid: u32,
    mtime: u32,
    filesize: u32,
    namesize: u32,
}

fn read_fields(buf: &[u8], start: usize) -> (r: Result<Fields, ArchiveError>)
    requires
        start + NEWC_HEADER_SIZE <= buf@.len(),
    ensures
        match r {
            Ok(f) => {
                &&& field_fault(buf@, start as int) is None
                &&& field_value(buf@, start as int, 1) == Some(f.mode)
                &&& field_value(buf@, start as int, 2) == Some(f.uid)
                &&& field_value(buf@, start as int, 3) == Some(f.gid)
                &&& field_value(buf@, start as int, 5) == Some(f.mtime)
                &&& field_value(buf@, start as int, 6) == Some(f.filesize)
                &&& field_value(buf@, start as int, 11) == Some(f.namesize)
            },
            Err(e) => field_fault(buf@, start as int) == Some(e@),
        },
{
    match read_field(buf, start, 0, "c_ino") {
        Ok(_) => {},
        Err(e) => {
            return Err(e);
        },
    }
    let mode = match read_field(buf, start, 1, "c_mode") {
        Ok(v) => v,
        Err(e) => {
            return Err(e);
        },
    };
    let uid = match read_field(buf, start, 2, "c_uid") {
        Ok(v) => v,
        Err(e) => {
            return Err(e);
        },
    };
    let gid = match read_field(buf, start, 3, "c_gid") {
        Ok(v) => v,
        Err(e) => {
            return Err(e);
        },
    };
    match read_field(buf, start, 4, "c_nlink") {
        Ok(_) => {},
        Err(e) => {
            return Err(e);
        },
    }
    let mtime = match read_field(buf, start, 5, "c_mtime") {
        Ok(v) => v,
        Err(e) => {
            return Err(e);
        },
    };
    let filesize = match read_field(buf, start, 6, "c_filesize") {
        Ok(v) => v,
        Err(e) => {
            return Err(e);
        },
    };
    let namesize = match read_field(buf, start, 11, "c_namesize") {
        Ok(v) => v,
        Err(e) => {
            return Err(e);
        },
    };
    Ok(Fields { mode, uid, gid, mtime, filesize, namesize })
}

fn read_record(buf: &[u8], start: usize, limits: &Limits) -> (r: Result<(CpioEntry, usize), ArchiveError>)
    ensures
        match r {
            Ok((e, end)) => record_at(buf@, start as int, *limits) == Ok::<_, ArchiveFault>((e@, end as int)),
            Err(e) => record_at(buf@, start as int, *limits) == Err::<(CpioModel, int), _>(e@),
        },
{
    reveal(record_at);
    let n: usize = buf.len();
    let left: usize = if start <= n {
        n - start
    } else {
        0
    };
    if left < NEWC_HEADER_SIZE {
        return Err(
            ArchiveError::Truncated { offset: start as u64, need: NEWC_HEADER_SIZE, have: left },
        );
    }
    if !magic_at(buf, start) {
        return Err(ArchiveError::BadMagic { offset: start as u64 });
    }
    let f = match read_fields(buf, start) {
        Ok(f) => f,
        Err(e) => {
            return Err(e);
        },
    };
    if f.namesize == 0 || f.namesize > 4097 {
        return Err(ArchiveError::BadField { field: "c_namesize", offset: start as u64 });
    }
    let limit: u32 = if limits.max_patch_bytes > 0x100_0000 {
        limits.max_patch_bytes
    } else {
        0x100_0000
    };
    if f.filesize > limit {
        return Err(ArchiveError::LimitExceeded("cpio member larger than allowed"));
    }
    let name_start: usize = start + NEWC_HEADER_SIZE;
    if n - name_start < f.namesize as usize {
        return Err(
            ArchiveError::Truncated {
                offset: name_start as u64,
                need: f.namesize as usize,
                have: n - name_start,
            },
        );
    }
    let name_end: usize = name_start + f.namesize as usize;
    let name = match utf8_text(vstd::slice::slice_subrange(buf, name_start, name_end - 1)) {
        Some(s) => s,
        None => {
            return Err(ArchiveError::BadField { field: "name", offset: name_start as u64 });
        },
    };
    proof {
        vstd::utf8::encode_utf8_decode_utf8(name@);
    }
    if name_end > usize::MAX - 3 {
        return Err(ArchiveError::BadField { field: "c_filesize", offset: start as u64 });
    }
    let data_offset: usize = align_up(name_end);
    let data_end: usize = match data_offset.checked_add(f.filesize as usize) {
        Some(end) => end,
        None => {
            return Err(ArchiveError::BadField { field: "c_filesize", offset: start as u64 });
        },
    };
    if data_end > n {
        return Err(
            ArchiveError::Truncated {
                offset: data_offset as u64,
                need: f.filesize as usize,
                have: if data_offset <= n {
                    n - data_offset
                } else {
                    0
                },
            },
        );
    }
    if data_end > usize::MAX - 3 {
        return Err(ArchiveError::BadField { field: "c_filesize", offset: start as u64 });
    }
    let entry = CpioEntry {
        name,
        mode: f.mode,
        uid: f.uid,
        gid: f.gid,
        mtime: f.mtime,
        data_offset: data_offset as u64,
        data_len: f.filesize,
    };
    Ok((entry, align_up(data_end)))
}

impl<'a> CpioReader<'a> {
    pub fn new(buf: &'a [u8], limits: Limits) -> (r: Self)
        ensures
            r@ == (ReaderModel { buf: buf@, cursor: 0, limits, count: 0, finished: false }),
    {
        CpioReader { buf, cursor: 0, limits, count: 0, finished: false }
    }

    pub fn at(buf: &'a [u8], offset: usize, limits: Limits) -> (r: Self)
        ensures
            r@ == (ReaderModel { buf: buf@, cursor: offset as int, limits, count: 0, finished: false }),
    {
        CpioReader { buf, cursor: offset, limits, count: 0, finished: false }
    }

    /// Byte offset just past the TRAILER record, once iteration finished.
    pub fn position(&self) -> (r: usize)
        ensures
            r == self@.cursor,
    {
        self.cursor
    }

    pub fn next_entry(&mut self) -> (r: Result<Option<CpioEntry>, ArchiveError>)
        ensures
            final(self)@ == old(self)@.advanced(),
            match r {
                Ok(Some(e)) => old(self)@.next() == Ok::<_, ArchiveFault>(Some(e@)),
                Ok(None) => old(self)@.next() == Ok::<_, ArchiveFault>(None::<CpioModel>),
                Err(e) => old(self)@.next() == Err::<Option<CpioModel>, _>(e@),
            },
    {
        if self.finished {
            return Ok(None);
        }
        let (entry, end) = match read_record(self.buf, self.cursor, &self.limits) {
            Ok(pair) => pair,
            Err(e) => {
                return Err(e);
            },
        };
        self.cursor = end;
        if str_eq(entry.name.as_str(), TRAILER_NAME) {
            self.finished = true;
            return Ok(None);
        }
        self.count = self.count.saturating_add(1);
        if self.count > self.limits.max_archive_entries {
            return Err(ArchiveError::LimitExceeded("too many cpio entries"));
        }
        Ok(Some(entry))
    }

    pub fn entries(self) -> (r: Result<(Vec<CpioEntry>, usize), ArchiveError>)
        ensures
            match r {
                Ok((v, end)) => self@.all(Seq::empty()) == Ok::<_, ArchiveFault>(
                    (cpio_view(v@), end as int),
                ),
                Err(e) => self@.all(Seq::empty()) == Err::<(Seq<CpioModel>, int), _>(e@),
            },
    {
        let mut reader = self;
        let mut out: Vec<CpioEntry> = Vec::new();
        assert(cpio_view(out@) =~= Seq::empty());
        loop
            invariant
                reader@.cursor >= 0,
                self@.all(Seq::empty()) == reader@.all(cpio_view(out@)),
            decreases reader@.buf.len() + 4 - reader@.cursor,
        {
            let ghost before = reader@;
            proof {
                lemma_record_grows(before.buf, before.cursor, before.limits);
            }
            match reader.next_entry() {
                Err(e) => {
                    return Err(e);
                },
                Ok(None) => {
                    return Ok((out, reader.cursor));
                },
                Ok(Some(e)) => {
                    let ghost found = out@;
                    out.push(e);
                    assert(cpio_view(out@) =~= cpio_view(found).push(e@));
                },
            }
        }
    }
}

/// Result of looking for a microcode CPIO at the head of an initrd.
#[derive(Debug)]
pub struct EarlyCpioScan {
    /// All entries found across every leading uncompressed cpio archive.
    pub entries: Vec<CpioEntry>,
    /// Offset where the leading uncompressed cpio area ends. Everything from
    /// here on is the "real" (possibly compressed) initramfs.
    pub end_offset: u64,
    /// Number of concatenated archives found.
    pub archive_count: u32,
}

/// The contents of an [`EarlyCpioScan`].
#[verifier::ext_equal]
pub struct ScanModel {
    pub entries: Seq<CpioModel>,
    pub end_offset: u64,
    pub archive_count: u32,
}

impl View for EarlyCpioScan {
    type V = ScanModel;

    open spec fn view(&self) -> ScanModel {
        ScanModel {
            entries: cpio_view(self.entries@),
            end_offset: self.end_offset,
            archive_count: self.archive_count,
        }
    }
}

/// The reader at an offset.
pub open spec fn reader_at(b: Seq<u8>, offset: int, limits: Limits) -> ReaderModel {
    ReaderModel { buf: b, cursor: offset, limits, count: 0, finished: false }
}

/// The archives from `offset` on, behind the members found so far.
pub open spec fn scan_from(
    b: Seq<u8>,
    offset: int,
    limits: Limits,
    found: Seq<CpioModel>,
    count: int,
) -> Result<ScanModel, ArchiveFault>
    decreases
            if offset <= b.len() {
                b.len() + 1 - offset
            } else {
                0
            },
{
    let done = ScanModel { entries: found, end_offset: offset as u64, archive_count: count as u32 };
    if !has_bytes_at(b, offset, newc_magic()) {
        Ok(done)
    } else {
        match reader_at(b, offset, limits).all(Seq::empty()) {
            Err(e) => Err(e),
            Ok((more, end)) => if end <= offset {
                Ok(
                    ScanModel {
                        entries: found + more,
                        end_offset: offset as u64,
                        archive_count: (count + 1) as u32,
                    },
                )
            } else if count + 1 > 64 {
                Err(ArchiveFault::LimitExceeded("too many concatenated cpio archives"@))
            } else {
                scan_from(b, end, limits, found + more, count + 1)
            },
        }
    }
}

/// What scanning the head of a buffer yields.
pub open spec fn scan_of(b: Seq<u8>, limits: Limits) -> Result<Option<ScanModel>, ArchiveFault> {
    if !has_bytes_at(b, 0, newc_magic()) {
        Ok(None)
    } else {
        match scan_from(b, 0, limits, Seq::empty(), 0) {
            Err(e) => Err(e),
            Ok(s) => Ok(Some(s)),
        }
    }
}

/// Walk every concatenated uncompressed newc archive at the start of a buffer.
///
/// Returns `None` when the buffer does not begin with a cpio archive at all,
/// which is the normal case for a plain compressed initramfs with no early
/// microcode area.
pub fn scan_early_cpio(buf: &[u8], limits: &Limits) -> (r: Result<Option<EarlyCpioScan>, ArchiveError>)
    ensures
        match r {
            Ok(Some(s)) => scan_of(buf@, *limits) == Ok::<_, ArchiveFault>(Some(s@)),
            Ok(None) => scan_of(buf@, *limits) == Ok::<_, ArchiveFault>(None::<ScanModel>),
            Err(e) => scan_of(buf@, *limits) == Err::<Option<ScanModel>, _>(e@),
        },
{
    if !magic_at(buf, 0) {
        return Ok(None);
    }
    let n: usize = buf.len();
    let mut entries: Vec<CpioEntry> = Vec::new();
    let mut offset: usize = 0;
    let mut archive_count: u32 = 0;
    assert(cpio_view(entries@) =~= Seq::empty());
    let ghost whole = scan_from(buf@, 0, *limits, Seq::empty(), 0);
    while magic_at(buf, offset)
        invariant
            n == buf@.len(),
            archive_count <= 64,
            has_bytes_at(buf@, 0, newc_magic()),
            whole == scan_from(buf@, 0, *limits, Seq::empty(), 0),
            whole == scan_from(
                buf@,
                offset as int,
                *limits,
                cpio_view(entries@),
                archive_count as int,
            ),
        decreases
                if offset <= n {
                    n + 1 - offset
                } else {
                    0
                },
    {
        let reader = CpioReader::at(buf, offset, *limits);
        let (found, end) = match reader.entries() {
            Ok(pair) => pair,
            Err(e) => {
                return Err(e);
            },
        };
        let mut more = found;
        let ghost before = entries@;
        entries.append(&mut more);
        assert(cpio_view(entries@) =~= cpio_view(before) + cpio_view(found@));
        archive_count = archive_count + 1;
        if end <= offset {
            return Ok(
                Some(EarlyCpioScan { entries, end_offset: offset as u64, archive_count }),
            );
        }
        offset = end;
        if archive_count > 64 {
            return Err(ArchiveError::LimitExceeded("too many concatenated cpio archives"));
        }
    }
    Ok(Some(EarlyCpioScan { entries, end_offset: offset as u64, archive_count }))
}

/// Offset just past the first archive, or `None` if there is no archive.
pub fn find_first_archive_end(buf: &[u8], limits: &Limits) -> (r: Result<Option<u64>, ArchiveError>)
    ensures
        match r {
            Ok(None) => !has_bytes_at(buf@, 0, newc_magic()),
            Ok(Some(end)) => has_bytes_at(buf@, 0, newc_magic()) && (reader_at(buf@, 0, *limits).all(
                Seq::empty(),
            ) matches Ok((_, e)) && e == end),
            Err(e) => has_bytes_at(buf@, 0, newc_magic()) && reader_at(buf@, 0, *limits).all(Seq::empty())
                == Err::<(Seq<CpioModel>, int), _>(e@),
        },
{
    if !magic_at(buf, 0) {
        return Ok(None);
    }
    match CpioReader::new(buf, *limits).entries() {
        Ok((_, end)) => Ok(Some(end as u64)),
        Err(e) => Err(e),
    }
}

} // verus!
