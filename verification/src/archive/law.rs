//! Laws of the archive format: what is written reads back, and does not
//! depend on the order of additions.

use vstd::prelude::*;
use vstd::utf8::{decode_utf8, encode_utf8, is_ascii_chars, valid_utf8};
use crate::archive::error::ArchiveFault;
use crate::archive::format::{aligned, newc_magic, NEWC_HEADER_SIZE, TRAILER_NAME};
use crate::archive::reader::{
    field_fault, field_value, lemma_record_grows, member_limit, reader_at, record_at, scan_from,
    scan_of, CpioModel, ReaderModel, ScanModel,
};
use crate::archive::writer::{
    archive_bytes, dot_problem, field_bytes, fields_bytes, file_order, header_bytes, header_fields, inode,
    lemma_text_weak, low32, members_bytes, members_of, name_problem, padded, record_bytes, sorted_dirs,
    text_order, trailer_bytes, ArchiveModel, ByPath, FileModel, Member,
};
use crate::bytes::has_bytes_at;
use crate::model::limits::Limits;
use crate::number::{digits, hex, law_number_round_trip, lemma_hex8_len, lemma_padded_chars, pad_zero};
use crate::order::{
    is_strict, law_dedup_is_strict, law_dedup_keeps_members, law_sort_permutes, law_sort_sorts,
    law_strict_order_is_canonical, lemma_sort_members, order_of, sort_by, Ranking,
};
use crate::text::{
    is_space, lemma_find_from, lemma_text_less_irreflexive, lemma_text_less_total, lemma_text_less_transitive,
    occurs_at, split_text, text_less, trim_text,
};

verus! {

/// Text without white space at its ends is not trimmed.
proof fn lemma_trim_keeps(s: Seq<char>)
    requires
        s.len() > 0,
        !is_space(s[0]),
        !is_space(s.last()),
    ensures
        trim_text(s) == s,
{
}

proof fn lemma_field_len(v: u32)
    ensures
        field_bytes(v).len() == 8,
        valid_utf8(field_bytes(v)),
        decode_utf8(field_bytes(v)) == hex(v as nat, 8),
{
    let s = hex(v as nat, 8);
    lemma_hex8_len(v as nat);
    lemma_padded_chars(v as nat, 16, 8);
    assert(is_ascii_chars(s)) by {
        assert forall|i: int| 0 <= i < s.len() implies ('\0' <= #[trigger] s[i] <= '\u{7f}') by {
            assert(s[i] == pad_zero(digits(v as nat, 16), 8)[i]);
        }
    }
    vstd::utf8::is_ascii_chars_encode_utf8(s);
    vstd::utf8::encode_utf8_valid_utf8(s);
    vstd::utf8::encode_utf8_decode_utf8(s);
}

pub proof fn lemma_fields(fields: Seq<u32>)
    ensures
        fields_bytes(fields).len() == 8 * fields.len(),
        forall|k: int|
            0 <= k < fields.len() ==> #[trigger] fields_bytes(fields).subrange(8 * k, 8 * k + 8) == field_bytes(
                fields[k],
            ),
    decreases fields.len(),
{
    if fields.len() > 0 {
        let front = fields.drop_last();
        let all = fields_bytes(fields);
        lemma_fields(front);
        lemma_field_len(fields.last());
        assert forall|k: int| 0 <= k < fields.len() implies #[trigger] all.subrange(8 * k, 8 * k + 8)
            == field_bytes(fields[k]) by {
            if k < front.len() {
                assert(front[k] == fields[k]);
                assert(all.subrange(8 * k, 8 * k + 8) =~= fields_bytes(front).subrange(8 * k, 8 * k + 8));
            } else {
                assert(all.subrange(8 * k, 8 * k + 8) =~= field_bytes(fields.last()));
            }
        }
    }
}

/// A field reads back from its digits.
pub proof fn lemma_field_reads_back(b: Seq<u8>, start: int, idx: int, v: u32)
    requires
        0 <= start,
        0 <= idx < 13,
        start + 110 <= b.len(),
        b.subrange(start + 6 + idx * 8, start + 14 + idx * 8) == field_bytes(v),
    ensures
        field_value(b, start, idx) == Some(v),
{
    reveal(field_value);
    let s = hex(v as nat, 8);
    lemma_field_len(v);
    lemma_hex8_len(v as nat);
    lemma_padded_chars(v as nat, 16, 8);
    assert(s == pad_zero(digits(v as nat, 16), 8));
    assert(!is_space(s[0]));
    assert(!is_space(s[7]));
    lemma_trim_keeps(s);
    law_number_round_trip(v as nat, 16, 8);
}

/// The parts of a record.
pub open spec fn named_header(ino: u32, mode: u32, nlink: u32, name: Seq<char>, data: Seq<u8>) -> Seq<u8> {
    header_bytes(ino, mode, nlink, low32(data.len()), low32(encode_utf8(name).len() + 1)) + encode_utf8(name)
        + seq![0u8]
}

/// The size of a record.
pub open spec fn record_size(name: Seq<char>, data: Seq<u8>) -> int {
    aligned(NEWC_HEADER_SIZE + encode_utf8(name).len() + 1) + aligned(data.len() as int)
}

pub proof fn lemma_record_size(ino: u32, mode: u32, nlink: u32, name: Seq<char>, data: Seq<u8>)
    ensures
        record_bytes(ino, mode, nlink, name, data).len() == record_size(name, data),
        named_header(ino, mode, nlink, name, data).len() == NEWC_HEADER_SIZE + encode_utf8(name).len() + 1,
        record_bytes(ino, mode, nlink, name, data) == padded(named_header(ino, mode, nlink, name, data))
            + padded(data),
{
    reveal(record_bytes);
    lemma_fields(
        header_fields(ino, mode, nlink, low32(data.len()), low32(encode_utf8(name).len() + 1)),
    );
}

proof fn lemma_record_len(ino: u32, mode: u32, nlink: u32, name: Seq<char>, data: Seq<u8>)
    ensures
        record_bytes(ino, mode, nlink, name, data).len() == record_size(name, data),
        record_size(name, data) % 4 == 0,
{
    lemma_record_size(ino, mode, nlink, name, data);
}

proof fn lemma_header_reads_back(
    b: Seq<u8>,
    start: int,
    ino: u32,
    mode: u32,
    nlink: u32,
    filesize: u32,
    namesize: u32,
)
    requires
        0 <= start,
        start + 110 <= b.len(),
        b.subrange(start, start + 110) == header_bytes(ino, mode, nlink, filesize, namesize),
    ensures
        has_bytes_at(b, start, newc_magic()),
        field_fault(b, start) is None,
        field_value(b, start, 1) == Some(mode),
        field_value(b, start, 2) == Some(0u32),
        field_value(b, start, 3) == Some(0u32),
        field_value(b, start, 5) == Some(0u32),
        field_value(b, start, 6) == Some(filesize),
        field_value(b, start, 11) == Some(namesize),
{
    let fields = header_fields(ino, mode, nlink, filesize, namesize);
    let flat = fields_bytes(fields);
    let h = b.subrange(start, start + 110);
    lemma_fields(fields);
    assert(b.subrange(start, start + 6) =~= newc_magic()) by {
        assert(h.subrange(0, 6) =~= newc_magic());
        assert(b.subrange(start, start + 6) =~= h.subrange(0, 6));
    }
    assert forall|idx: int| 0 <= idx < 13 implies #[trigger] field_value(b, start, idx) == Some(fields[idx]) by {
        assert(b.subrange(start + 6 + idx * 8, start + 14 + idx * 8) =~= h.subrange(
            6 + idx * 8,
            14 + idx * 8,
        ));
        assert(h.subrange(6 + idx * 8, 14 + idx * 8) =~= flat.subrange(8 * idx, 8 * idx + 8));
        lemma_field_reads_back(b, start, idx, fields[idx]);
    }
    assert(field_value(b, start, 0) == Some(fields[0]));
    assert(field_value(b, start, 4) == Some(fields[4]));
}

/// The entry that a member reads back as, when its record is at `off`.
pub open spec fn entry_of(m: Member, off: int) -> CpioModel {
    CpioModel {
        name: m.name,
        mode: m.mode,
        uid: 0,
        gid: 0,
        mtime: 0,
        data_offset: (off + aligned(NEWC_HEADER_SIZE + encode_utf8(m.name).len() + 1)) as u64,
        data_len: m.data.len() as u32,
    }
}

/// The member can be written and read: its name has a size that the header
/// can hold, and its data are within the limits.
pub open spec fn writable(m: Member, limits: Limits) -> bool {
    &&& encode_utf8(m.name).len() <= 4096
    &&& m.data.len() <= member_limit(limits)
    &&& m.name != TRAILER_NAME@
}

proof fn lemma_record_reads_back(pre: Seq<u8>, ino: u32, m: Member, tail: Seq<u8>, limits: Limits)
    requires
        pre.len() % 4 == 0,
        encode_utf8(m.name).len() <= 4096,
        m.data.len() <= member_limit(limits),
        (pre + record_bytes(ino, m.mode, m.nlink, m.name, m.data) + tail).len() <= usize::MAX,
    ensures
        record_at(
            pre + record_bytes(ino, m.mode, m.nlink, m.name, m.data) + tail,
            pre.len() as int,
            limits,
        ) == Ok::<_, ArchiveFault>(
            (entry_of(m, pre.len() as int), pre.len() + record_size(m.name, m.data)),
        ),
        entry_of(m, pre.len() as int).content(
            pre + record_bytes(ino, m.mode, m.nlink, m.name, m.data) + tail,
        ) == Some(m.data),
{
    let b = pre + record_bytes(ino, m.mode, m.nlink, m.name, m.data) + tail;
    let start = pre.len() as int;
    let raw = encode_utf8(m.name);
    let filesize = low32(m.data.len());
    let namesize = low32(raw.len() + 1);
    lemma_record_layout(pre, ino, m, tail);
    lemma_header_reads_back(b, start, ino, m.mode, m.nlink, filesize, namesize);
    lemma_record_evaluates(b, start, limits, m.name, m.mode, filesize);
}

/// A record whose fields are known.
proof fn lemma_record_evaluates(
    b: Seq<u8>,
    start: int,
    limits: Limits,
    name: Seq<char>,
    mode: u32,
    filesize: u32,
)
    requires
        0 <= start,
        start % 4 == 0,
        b.len() <= usize::MAX,
        encode_utf8(name).len() <= 4096,
        filesize <= member_limit(limits),
        start + aligned(NEWC_HEADER_SIZE + encode_utf8(name).len() + 1) + aligned(filesize as int)
            <= b.len(),
        has_bytes_at(b, start, newc_magic()),
        field_fault(b, start) is None,
        field_value(b, start, 1) == Some(mode),
        field_value(b, start, 2) == Some(0u32),
        field_value(b, start, 3) == Some(0u32),
        field_value(b, start, 5) == Some(0u32),
        field_value(b, start, 6) == Some(filesize),
        field_value(b, start, 11) == Some(low32(encode_utf8(name).len() + 1)),
        b.subrange(start + 110, start + 110 + encode_utf8(name).len()) == encode_utf8(name),
    ensures
        record_at(b, start, limits) == Ok::<_, ArchiveFault>(
            (
                CpioModel {
                    name,
                    mode,
                    uid: 0,
                    gid: 0,
                    mtime: 0,
                    data_offset: (start + aligned(NEWC_HEADER_SIZE + encode_utf8(name).len() + 1)) as u64,
                    data_len: filesize,
                },
                start + aligned(NEWC_HEADER_SIZE + encode_utf8(name).len() + 1) + aligned(filesize as int),
            ),
        ),
{
    let raw = encode_utf8(name);
    let namesize = low32(raw.len() + 1);
    assert(namesize == raw.len() + 1);
    let name_end = start + NEWC_HEADER_SIZE + namesize;
    let data_start = start + aligned(NEWC_HEADER_SIZE + raw.len() + 1);
    assert(aligned(name_end) == data_start);
    assert(aligned(data_start + filesize) == data_start + aligned(filesize as int));
    assert(b.subrange(start + NEWC_HEADER_SIZE, name_end - 1) == raw);
    vstd::utf8::encode_utf8_valid_utf8(name);
    vstd::utf8::encode_utf8_decode_utf8(name);
    reveal(record_at);
}

/// Where the parts of a record stand.
proof fn lemma_record_layout(pre: Seq<u8>, ino: u32, m: Member, tail: Seq<u8>)
    requires
        pre.len() % 4 == 0,
        encode_utf8(m.name).len() <= 4096,
    ensures
        ({
            let raw = encode_utf8(m.name);
            let b = pre + record_bytes(ino, m.mode, m.nlink, m.name, m.data) + tail;
            let start = pre.len() as int;
            let data_start = start + aligned(NEWC_HEADER_SIZE + raw.len() + 1);
            &&& b.len() >= start + record_size(m.name, m.data)
            &&& b.subrange(start, start + 110) == header_bytes(
                ino,
                m.mode,
                m.nlink,
                low32(m.data.len()),
                low32(raw.len() + 1),
            )
            &&& b.subrange(start + 110, start + 110 + raw.len()) == raw
            &&& b.subrange(data_start, data_start + m.data.len()) == m.data
        }),
{
    let raw = encode_utf8(m.name);
    let record = record_bytes(ino, m.mode, m.nlink, m.name, m.data);
    let b = pre + record + tail;
    let start = pre.len() as int;
    let named = named_header(ino, m.mode, m.nlink, m.name, m.data);
    let header = header_bytes(ino, m.mode, m.nlink, low32(m.data.len()), low32(raw.len() + 1));
    let front = padded(named);
    lemma_record_size(ino, m.mode, m.nlink, m.name, m.data);
    lemma_fields(
        header_fields(ino, m.mode, m.nlink, low32(m.data.len()), low32(raw.len() + 1)),
    );
    assert(header.len() == 110);
    assert(named == header + raw + seq![0u8]);
    assert(front.len() == aligned(NEWC_HEADER_SIZE + raw.len() + 1));
    assert(record.subrange(0, front.len() as int) =~= front);
    assert(record.subrange(front.len() as int, (front.len() + m.data.len()) as int) =~= m.data);
    assert(front.subrange(0, 110) =~= header);
    assert(front.subrange(110, (110 + raw.len()) as int) =~= raw);
    assert(record.subrange(0, 110) =~= front.subrange(0, 110));
    assert(record.subrange(110, (110 + raw.len()) as int) =~= front.subrange(
        110,
        (110 + raw.len()) as int,
    ));
    assert(b.subrange(start, start + 110) =~= record.subrange(0, 110));
    assert(b.subrange(start + 110, start + 110 + raw.len()) =~= record.subrange(
        110,
        (110 + raw.len()) as int,
    ));
    let data_start = start + front.len();
    assert(b.subrange(data_start, data_start + m.data.len()) =~= record.subrange(
        front.len() as int,
        (front.len() + m.data.len()) as int,
    ));
}

/// The entries that members read back as, when the first record is at `off`.
pub open spec fn entries_of(members: Seq<Member>, off: int) -> Seq<CpioModel>
    decreases members.len(),
{
    if members.len() == 0 {
        Seq::empty()
    } else {
        seq![entry_of(members[0], off)] + entries_of(
            members.drop_first(),
            off + record_size(members[0].name, members[0].data),
        )
    }
}

proof fn lemma_members_read_back(
    pre: Seq<u8>,
    members: Seq<Member>,
    i: int,
    tail: Seq<u8>,
    limits: Limits,
    count: u32,
    found: Seq<CpioModel>,
)
    requires
        pre.len() % 4 == 0,
        forall|k: int| 0 <= k < members.len() ==> writable(#[trigger] members[k], limits),
        count + members.len() <= limits.max_archive_entries,
        (pre + members_bytes(members, i) + trailer_bytes() + tail).len() <= usize::MAX,
    ensures
        ({
            let b = pre + members_bytes(members, i) + trailer_bytes() + tail;
            let reader = ReaderModel {
                buf: b,
                cursor: pre.len() as int,
                limits,
                count,
                finished: false,
            };
            reader.all(found) == Ok::<_, ArchiveFault>(
                (found + entries_of(members, pre.len() as int), b.len() - tail.len()),
            )
        }),
    decreases members.len(),
{
    let b = pre + members_bytes(members, i) + trailer_bytes() + tail;
    let start = pre.len() as int;
    let reader = ReaderModel { buf: b, cursor: start, limits, count, finished: false };
    if members.len() == 0 {
        let none: Seq<u8> = Seq::empty();
        let last = Member { name: TRAILER_NAME@, data: none, mode: 0, nlink: 1 };
        assert(b =~= pre + record_bytes(0, 0, 1, TRAILER_NAME@, none) + tail);
        lemma_trailer_short();
        lemma_record_reads_back(pre, 0, last, tail, limits);
        lemma_record_len(0, 0, 1, TRAILER_NAME@, none);
        assert(found + entries_of(members, start) =~= found);
    } else {
        let m = members[0];
        let rest = members.drop_first();
        let record = record_bytes(inode(i), m.mode, m.nlink, m.name, m.data);
        let behind = members_bytes(rest, i + 1) + trailer_bytes() + tail;
        assert(writable(members[0], limits));
        assert(b =~= pre + record + behind);
        lemma_record_reads_back(pre, inode(i), m, behind, limits);
        lemma_record_len(inode(i), m.mode, m.nlink, m.name, m.data);
        let next = pre + record;
        assert(b =~= next + members_bytes(rest, i + 1) + trailer_bytes() + tail);
        assert forall|k: int| 0 <= k < rest.len() implies writable(#[trigger] rest[k], limits) by {
            assert(rest[k] == members[k + 1]);
        }
        let entry = entry_of(m, start);
        lemma_members_read_back(
            next,
            rest,
            i + 1,
            tail,
            limits,
            (count + 1) as u32,
            found.push(entry),
        );
        assert(reader.next() == Ok::<_, ArchiveFault>(Some(entry)));
        assert(reader.advanced() =~= (ReaderModel {
            buf: b,
            cursor: next.len() as int,
            limits,
            count: (count + 1) as u32,
            finished: false,
        }));
        assert(found.push(entry) + entries_of(rest, next.len() as int) =~= found + entries_of(
            members,
            start,
        ));
    }
}

proof fn lemma_trailer_short()
    ensures
        encode_utf8(TRAILER_NAME@).len() == 10,
{
    reveal_strlit("TRAILER!!!");
    let s = TRAILER_NAME@;
    assert(is_ascii_chars(s));
    vstd::utf8::is_ascii_chars_encode_utf8(s);
}

proof fn lemma_starts_with_magic(members: Seq<Member>, i: int)
    ensures
        has_bytes_at(members_bytes(members, i) + trailer_bytes(), 0, newc_magic()),
{
    let b = members_bytes(members, i) + trailer_bytes();
    let none: Seq<u8> = Seq::empty();
    let (ino, m) = if members.len() == 0 {
        (0u32, Member { name: TRAILER_NAME@, data: none, mode: 0, nlink: 1 })
    } else {
        (inode(i), members[0])
    };
    let record = record_bytes(ino, m.mode, m.nlink, m.name, m.data);
    lemma_record_size(ino, m.mode, m.nlink, m.name, m.data);
    assert(record.subrange(0, 6) =~= newc_magic());
    assert(b.subrange(0, 6) =~= record.subrange(0, 6));
}

proof fn lemma_members_aligned(members: Seq<Member>, i: int)
    ensures
        members_bytes(members, i).len() % 4 == 0,
    decreases members.len(),
{
    if members.len() > 0 {
        let m = members[0];
        lemma_members_aligned(members.drop_first(), i + 1);
        lemma_record_len(inode(i), m.mode, m.nlink, m.name, m.data);
    }
}

/// Every archive starts with the magic and has a length that is a multiple of
/// four.
pub proof fn law_archive_is_aligned(m: ArchiveModel)
    ensures
        archive_bytes(m).len() % 4 == 0,
        has_bytes_at(archive_bytes(m), 0, newc_magic()),
{
    let none: Seq<u8> = Seq::empty();
    lemma_members_aligned(members_of(m), 0);
    lemma_record_len(0, 0, 1, TRAILER_NAME@, none);
    lemma_starts_with_magic(members_of(m), 0);
}

/// The members of an archive can be read within the limits.
pub open spec fn readable_archive(m: ArchiveModel, limits: Limits) -> bool {
    &&& members_of(m).len() <= limits.max_archive_entries
    &&& forall|k: int| 0 <= k < members_of(m).len() ==> writable(#[trigger] members_of(m)[k], limits)
}

/// Archives laid end to end.
pub open spec fn joined_archives(ms: Seq<ArchiveModel>) -> Seq<u8>
    decreases ms.len(),
{
    if ms.len() == 0 {
        Seq::empty()
    } else {
        archive_bytes(ms[0]) + joined_archives(ms.drop_first())
    }
}

/// The entries of archives laid end to end, when the first is at `off`.
pub open spec fn joined_entries(ms: Seq<ArchiveModel>, off: int) -> Seq<CpioModel>
    decreases ms.len(),
{
    if ms.len() == 0 {
        Seq::empty()
    } else {
        entries_of(members_of(ms[0]), off) + joined_entries(
            ms.drop_first(),
            off + archive_bytes(ms[0]).len(),
        )
    }
}

proof fn lemma_first_archive(pre: Seq<u8>, m: ArchiveModel, tail: Seq<u8>, limits: Limits)
    requires
        pre.len() % 4 == 0,
        readable_archive(m, limits),
        (pre + archive_bytes(m) + tail).len() <= usize::MAX,
    ensures
        has_bytes_at(pre + archive_bytes(m) + tail, pre.len() as int, newc_magic()),
        reader_at(pre + archive_bytes(m) + tail, pre.len() as int, limits).all(Seq::empty()) == Ok::<
            _,
            ArchiveFault,
        >((entries_of(members_of(m), pre.len() as int), (pre + archive_bytes(m)).len() as int)),
        archive_bytes(m).len() >= 6,
{
    let b = pre + archive_bytes(m) + tail;
    let start = pre.len() as int;
    lemma_starts_with_magic(members_of(m), 0);
    assert(b.subrange(start, start + 6) =~= archive_bytes(m).subrange(0, 6));
    lemma_members_read_back(pre, members_of(m), 0, tail, limits, 0, Seq::empty());
    assert(pre + members_bytes(members_of(m), 0) + trailer_bytes() + tail =~= b);
    let entries = entries_of(members_of(m), start);
    assert(Seq::<CpioModel>::empty() + entries =~= entries);
}

proof fn lemma_joined_scan(
    pre: Seq<u8>,
    ms: Seq<ArchiveModel>,
    tail: Seq<u8>,
    limits: Limits,
    found: Seq<CpioModel>,
    count: int,
)
    requires
        pre.len() % 4 == 0,
        forall|i: int| 0 <= i < ms.len() ==> readable_archive(#[trigger] ms[i], limits),
        0 <= count,
        count + ms.len() <= 64,
        (pre + joined_archives(ms) + tail).len() <= usize::MAX,
        !has_bytes_at(tail, 0, newc_magic()),
    ensures
        scan_from(pre + joined_archives(ms) + tail, pre.len() as int, limits, found, count) == Ok::<
            _,
            ArchiveFault,
        >(
            ScanModel {
                entries: found + joined_entries(ms, pre.len() as int),
                end_offset: (pre + joined_archives(ms)).len() as u64,
                archive_count: (count + ms.len()) as u32,
            },
        ),
    decreases ms.len(),
{
    let b = pre + joined_archives(ms) + tail;
    let start = pre.len() as int;
    if ms.len() == 0 {
        assert(b =~= pre + tail);
        assert(pre + joined_archives(ms) =~= pre);
        assert(found + joined_entries(ms, start) =~= found);
        if has_bytes_at(b, start, newc_magic()) {
            assert(tail.subrange(0, 6) =~= b.subrange(start, start + 6));
        }
    } else {
        let m = ms[0];
        let rest = ms.drop_first();
        let next = pre + archive_bytes(m);
        assert(readable_archive(ms[0], limits));
        assert(b =~= pre + archive_bytes(m) + (joined_archives(rest) + tail));
        assert(b =~= next + joined_archives(rest) + tail);
        assert(next + joined_archives(rest) =~= pre + joined_archives(ms));
        lemma_first_archive(pre, m, joined_archives(rest) + tail, limits);
        law_archive_is_aligned(m);
        assert forall|i: int| 0 <= i < rest.len() implies readable_archive(#[trigger] rest[i], limits) by {
            assert(rest[i] == ms[i + 1]);
        }
        let entries = entries_of(members_of(m), start);
        lemma_joined_scan(next, rest, tail, limits, found + entries, count + 1);
        assert(found + entries + joined_entries(rest, next.len() as int) =~= found + joined_entries(
            ms,
            start,
        ));
    }
}

/// Archives laid end to end are walked one after the other, up to the bytes
/// behind the last that do not start another: the members of all of them come
/// out in order, with the number of archives and the offset at which they end.
/// At most 64 are walked.
pub proof fn law_joined_archives_read_back(ms: Seq<ArchiveModel>, tail: Seq<u8>, limits: Limits)
    requires
        0 < ms.len() <= 64,
        forall|i: int| 0 <= i < ms.len() ==> readable_archive(#[trigger] ms[i], limits),
        (joined_archives(ms) + tail).len() <= usize::MAX,
        !has_bytes_at(tail, 0, newc_magic()),
    ensures
        scan_of(joined_archives(ms) + tail, limits) == Ok::<_, ArchiveFault>(
            Some(
                ScanModel {
                    entries: joined_entries(ms, 0),
                    end_offset: joined_archives(ms).len() as u64,
                    archive_count: ms.len() as u32,
                },
            ),
        ),
        scan_of(tail, limits) == Ok::<Option<ScanModel>, ArchiveFault>(None),
{
    let none: Seq<u8> = Seq::empty();
    let b = joined_archives(ms) + tail;
    let rest = joined_archives(ms.drop_first()) + tail;
    assert(readable_archive(ms[0], limits));
    assert(none + archive_bytes(ms[0]) + rest =~= b);
    assert(none + joined_archives(ms) =~= joined_archives(ms));
    lemma_first_archive(none, ms[0], rest, limits);
    lemma_joined_scan(none, ms, tail, limits, Seq::empty(), 0);
    assert(Seq::<CpioModel>::empty() + joined_entries(ms, 0) =~= joined_entries(ms, 0));
}

/// Two archives laid end to end, with bytes behind them that start no archive:
/// the members of both come out in order, the first archive ends where the
/// second starts, and what follows is left to the caller. Those bytes alone
/// hold no archive.
pub proof fn law_two_archives_read_back(
    first: ArchiveModel,
    second: ArchiveModel,
    tail: Seq<u8>,
    limits: Limits,
)
    requires
        readable_archive(first, limits),
        readable_archive(second, limits),
        (archive_bytes(first) + archive_bytes(second) + tail).len() <= usize::MAX,
        !has_bytes_at(tail, 0, newc_magic()),
    ensures
        scan_of(archive_bytes(first) + archive_bytes(second) + tail, limits) == Ok::<_, ArchiveFault>(
            Some(
                ScanModel {
                    entries: entries_of(members_of(first), 0) + entries_of(
                        members_of(second),
                        archive_bytes(first).len() as int,
                    ),
                    end_offset: (archive_bytes(first).len() + archive_bytes(second).len()) as u64,
                    archive_count: 2,
                },
            ),
        ),
        reader_at(archive_bytes(first) + archive_bytes(second) + tail, 0, limits).all(Seq::empty())
            == Ok::<_, ArchiveFault>(
            (entries_of(members_of(first), 0), archive_bytes(first).len() as int),
        ),
        scan_of(tail, limits) == Ok::<Option<ScanModel>, ArchiveFault>(None),
{
    let none: Seq<u8> = Seq::empty();
    let ms = seq![first, second];
    let b = archive_bytes(first) + archive_bytes(second) + tail;
    assert(ms.drop_first() =~= seq![second]);
    assert(seq![second].drop_first() =~= Seq::empty());
    reveal_with_fuel(joined_archives, 3);
    reveal_with_fuel(joined_entries, 3);
    assert(joined_archives(ms) =~= archive_bytes(first) + archive_bytes(second));
    assert(joined_entries(ms, 0) =~= entries_of(members_of(first), 0) + entries_of(
        members_of(second),
        archive_bytes(first).len() as int,
    ));
    law_joined_archives_read_back(ms, tail, limits);
    assert(none + archive_bytes(first) + (archive_bytes(second) + tail) =~= b);
    assert(none + archive_bytes(first) =~= archive_bytes(first));
    lemma_first_archive(none, first, archive_bytes(second) + tail, limits);
}

/// What is written reads back: one archive with every member in order, owned
/// by nobody and dated at zero, and nothing behind it.
pub proof fn law_archive_reads_back(m: ArchiveModel, limits: Limits)
    requires
        archive_bytes(m).len() <= usize::MAX,
        readable_archive(m, limits),
    ensures
        scan_of(archive_bytes(m), limits) == Ok::<_, ArchiveFault>(
            Some(
                ScanModel {
                    entries: entries_of(members_of(m), 0),
                    end_offset: archive_bytes(m).len() as u64,
                    archive_count: 1,
                },
            ),
        ),
{
    let none: Seq<u8> = Seq::empty();
    let ms = seq![m];
    assert(ms.drop_first() =~= Seq::empty());
    reveal_with_fuel(joined_archives, 2);
    reveal_with_fuel(joined_entries, 2);
    assert(joined_archives(ms) =~= archive_bytes(m));
    assert(joined_archives(ms) + none =~= archive_bytes(m));
    assert(joined_entries(ms, 0) =~= entries_of(members_of(m), 0));
    law_joined_archives_read_back(ms, none, limits);
}

proof fn lemma_contents(
    pre: Seq<u8>,
    members: Seq<Member>,
    i: int,
    tail: Seq<u8>,
    limits: Limits,
    k: int,
)
    requires
        pre.len() % 4 == 0,
        forall|k: int| 0 <= k < members.len() ==> writable(#[trigger] members[k], limits),
        (pre + members_bytes(members, i) + trailer_bytes() + tail).len() <= usize::MAX,
        0 <= k < members.len(),
    ensures
        entries_of(members, pre.len() as int).len() == members.len(),
        entries_of(members, pre.len() as int)[k].name == members[k].name,
        entries_of(members, pre.len() as int)[k].mode == members[k].mode,
        entries_of(members, pre.len() as int)[k].content(
            pre + members_bytes(members, i) + trailer_bytes() + tail,
        ) == Some(members[k].data),
    decreases members.len(),
{
    let b = pre + members_bytes(members, i) + trailer_bytes() + tail;
    let m = members[0];
    let rest = members.drop_first();
    let record = record_bytes(inode(i), m.mode, m.nlink, m.name, m.data);
    let behind = members_bytes(rest, i + 1) + trailer_bytes() + tail;
    assert(writable(members[0], limits));
    assert(b =~= pre + record + behind);
    lemma_record_reads_back(pre, inode(i), m, behind, limits);
    lemma_record_len(inode(i), m.mode, m.nlink, m.name, m.data);
    let next = pre + record;
    assert(b =~= next + members_bytes(rest, i + 1) + trailer_bytes() + tail);
    assert forall|k: int| 0 <= k < rest.len() implies writable(#[trigger] rest[k], limits) by {
        assert(rest[k] == members[k + 1]);
    }
    if rest.len() > 0 {
        lemma_contents(
            next,
            rest,
            i + 1,
            tail,
            limits,
            if k > 0 {
                k - 1
            } else {
                0
            },
        );
    }
}

/// Every member of an archive reads back with its name, its mode and its data,
/// whatever stands before the archive and behind it.
pub proof fn law_members_keep_their_contents(
    pre: Seq<u8>,
    m: ArchiveModel,
    tail: Seq<u8>,
    limits: Limits,
    k: int,
)
    requires
        pre.len() % 4 == 0,
        (pre + archive_bytes(m) + tail).len() <= usize::MAX,
        forall|k: int| 0 <= k < members_of(m).len() ==> writable(#[trigger] members_of(m)[k], limits),
        0 <= k < members_of(m).len(),
    ensures
        entries_of(members_of(m), pre.len() as int).len() == members_of(m).len(),
        entries_of(members_of(m), pre.len() as int)[k].name == members_of(m)[k].name,
        entries_of(members_of(m), pre.len() as int)[k].mode == members_of(m)[k].mode,
        entries_of(members_of(m), pre.len() as int)[k].content(pre + archive_bytes(m) + tail) == Some(
            members_of(m)[k].data,
        ),
{
    assert(pre + members_bytes(members_of(m), 0) + trailer_bytes() + tail =~= pre + archive_bytes(m)
        + tail);
    lemma_contents(pre, members_of(m), 0, tail, limits, k);
}

impl Ranking<Seq<char>> for ByPath {
    open spec fn less(a: Seq<char>, b: Seq<char>) -> bool {
        text_less(a, b)
    }

    proof fn irreflexive(a: Seq<char>) {
        lemma_text_less_irreflexive(a);
    }

    proof fn transitive(a: Seq<char>, b: Seq<char>, c: Seq<char>) {
        lemma_text_less_transitive(a, b, c);
    }

    proof fn weak(a: Seq<char>, b: Seq<char>, c: Seq<char>) {
        lemma_text_weak(a, b, c);
    }
}

impl Ranking<FileModel> for ByPath {
    open spec fn less(a: FileModel, b: FileModel) -> bool {
        text_less(a.name, b.name)
    }

    proof fn irreflexive(a: FileModel) {
        lemma_text_less_irreflexive(a.name);
    }

    proof fn transitive(a: FileModel, b: FileModel, c: FileModel) {
        lemma_text_less_transitive(a.name, b.name, c.name);
    }

    proof fn weak(a: FileModel, b: FileModel, c: FileModel) {
        lemma_text_weak(a.name, b.name, c.name);
    }
}

/// No two files have the same name.
pub open spec fn distinct_names(files: Seq<FileModel>) -> bool {
    forall|i: int, j: int|
        0 <= i < j < files.len() ==> (#[trigger] files[i]).name != (#[trigger] files[j]).name
}

/// The directory records stand in strict path order and name exactly the
/// directories of the builder.
pub proof fn law_directories_are_sorted(dirs: Seq<Seq<char>>)
    ensures
        is_strict(sorted_dirs(dirs), text_order()),
        forall|d: Seq<char>| #[trigger] sorted_dirs(dirs).contains(d) <==> dirs.contains(d),
{
    let less = order_of::<Seq<char>, ByPath>();
    assert(text_order() =~= less);
    let sorted = sort_by(dirs, less);
    law_sort_sorts::<Seq<char>, ByPath>(dirs);
    lemma_sort_members(dirs, less);
    law_dedup_keeps_members(sorted);
    assert forall|a: Seq<char>, b: Seq<char>|
        !<ByPath as Ranking<Seq<char>>>::less(a, b) && !#[trigger] <ByPath as Ranking<Seq<char>>>::less(
            b,
            a,
        ) implies a == b by {
        lemma_text_less_total(a, b);
    }
    law_dedup_is_strict::<Seq<char>, ByPath>(sorted);
    let all = sorted_dirs(dirs);
    assert forall|i: int, j: int| 0 <= i < j < all.len() implies (text_order())(
        #[trigger] all[i],
        #[trigger] all[j],
    ) by {
        assert(<ByPath as Ranking<Seq<char>>>::less(all[i], all[j]));
    }
    assert forall|d: Seq<char>| #[trigger] all.contains(d) <==> dirs.contains(d) by {
        assert(sorted.contains(d) <==> dirs.contains(d));
    }
}

proof fn lemma_files_strict(files: Seq<FileModel>)
    requires
        distinct_names(files),
    ensures
        is_strict(sort_by(files, file_order()), order_of::<FileModel, ByPath>()),
{
    let less = order_of::<FileModel, ByPath>();
    assert(file_order() =~= less);
    let s = sort_by(files, less);
    law_sort_sorts::<FileModel, ByPath>(files);
    law_sort_permutes(files, less);
    lemma_sort_members(files, less);
    assert(files.no_duplicates());
    files.lemma_multiset_has_no_duplicates();
    s.lemma_multiset_has_no_duplicates_conv();
    assert forall|i: int, j: int| 0 <= i < j < s.len() implies less(#[trigger] s[i], #[trigger] s[j]) by {
        assert(!less(s[j], s[i]));
        assert(s.contains(s[i]) && s.contains(s[j]));
        let p = choose|p: int| 0 <= p < files.len() && files[p] == s[i];
        let q = choose|q: int| 0 <= q < files.len() && files[q] == s[j];
        assert(s[i] != s[j]);
        if p < q {
            assert(files[p].name != files[q].name);
        } else {
            assert(files[q].name != files[p].name);
        }
        lemma_text_less_total(s[i].name, s[j].name);
    }
}

/// The archive does not depend on the order in which its files were added, nor
/// on how often a directory was named.
pub proof fn law_archive_ignores_insertion_order(a: ArchiveModel, b: ArchiveModel)
    requires
        distinct_names(a.files),
        distinct_names(b.files),
        forall|f: FileModel| #[trigger] a.files.contains(f) <==> b.files.contains(f),
        forall|d: Seq<char>| #[trigger] a.dirs.contains(d) <==> b.dirs.contains(d),
    ensures
        archive_bytes(a) == archive_bytes(b),
{
    law_directories_are_sorted(a.dirs);
    law_directories_are_sorted(b.dirs);
    assert(text_order() =~= order_of::<Seq<char>, ByPath>());
    assert forall|d: Seq<char>| #[trigger] sorted_dirs(a.dirs).contains(d) <==> sorted_dirs(
        b.dirs,
    ).contains(d) by {
        assert(a.dirs.contains(d) <==> b.dirs.contains(d));
    }
    law_strict_order_is_canonical::<Seq<char>, ByPath>(sorted_dirs(a.dirs), sorted_dirs(b.dirs));
    lemma_files_strict(a.files);
    lemma_files_strict(b.files);
    lemma_sort_members(a.files, file_order());
    lemma_sort_members(b.files, file_order());
    let x = sort_by(a.files, file_order());
    let y = sort_by(b.files, file_order());
    assert forall|f: FileModel| #[trigger] x.contains(f) <==> y.contains(f) by {
        assert(a.files.contains(f) <==> b.files.contains(f));
    }
    law_strict_order_is_canonical::<FileModel, ByPath>(x, y);
}

pub proof fn lemma_no_dots(components: Seq<Seq<char>>)
    requires
        dot_problem(components) is None,
    ensures
        forall|i: int|
            0 <= i < components.len() ==> #[trigger] components[i] != ".."@ && components[i] != "."@,
    decreases components.len(),
{
    if components.len() > 0 {
        let rest = components.drop_first();
        lemma_no_dots(rest);
        assert forall|i: int| 0 <= i < components.len() implies #[trigger] components[i] != ".."@
            && components[i] != "."@ by {
            if i > 0 {
                assert(components[i] == rest[i - 1]);
            }
        }
    }
}

/// An accepted name is relative, holds no NUL, and has no component that is
/// `.` or `..`: it cannot leave the root of the archive.
pub proof fn law_accepted_names_stay_inside(name: Seq<char>)
    requires
        name_problem(name) is None,
    ensures
        name.len() > 0,
        name[0] != '/',
        encode_utf8(name).len() <= 4096,
        forall|i: int| 0 <= i < name.len() ==> #[trigger] name[i] != '\0',
        forall|i: int|
            0 <= i < split_text(name, '/').len() ==> #[trigger] split_text(name, '/')[i] != ".."@
                && split_text(name, '/')[i] != "."@,
{
    lemma_no_dots(split_text(name, '/'));
    let nul = seq!['\0'];
    lemma_find_from(name, nul, 0);
    assert forall|i: int| 0 <= i < name.len() implies #[trigger] name[i] != '\0' by {
        if name[i] == '\0' {
            assert(name.subrange(i, i + 1) =~= nul);
            assert(occurs_at(name, nul, i));
        }
    }
}

// --- limits -----------------------------------------------------------------------

/// Every member is within the size limit.
pub open spec fn small_members(entries: Seq<CpioModel>, limits: Limits) -> bool {
    forall|i: int| 0 <= i < entries.len() ==> (#[trigger] entries[i]).data_len <= member_limit(limits)
}

proof fn lemma_limited_members(r: ReaderModel, found: Seq<CpioModel>)
    requires
        found.len() == r.count <= r.limits.max_archive_entries < u32::MAX,
        small_members(found, r.limits),
        !r.finished,
        0 <= r.cursor,
    ensures
        r.all(found) matches Ok((all, end)) ==> all.len() <= r.limits.max_archive_entries
            && small_members(all, r.limits) && r.cursor < end,
    decreases r.buf.len() + 4 - r.cursor,
{
    lemma_record_grows(r.buf, r.cursor, r.limits);
    if let Ok(Some(entry)) = r.next() {
        assert(entry.data_len <= member_limit(r.limits)) by {
            reveal(record_at);
        }
        lemma_limited_members(r.advanced(), found.push(entry));
    }
}

proof fn lemma_limited_scan(
    b: Seq<u8>,
    offset: int,
    limits: Limits,
    found: Seq<CpioModel>,
    count: int,
)
    requires
        limits.max_archive_entries < u32::MAX,
        small_members(found, limits),
        0 <= offset,
        0 <= count <= 64,
        found.len() <= count * limits.max_archive_entries,
    ensures
        scan_from(b, offset, limits, found, count) matches Ok(scan) ==> {
            &&& small_members(scan.entries, limits)
            &&& scan.archive_count <= 64
            &&& scan.entries.len() <= scan.archive_count * limits.max_archive_entries
        },
    decreases
            if offset <= b.len() {
                b.len() + 1 - offset
            } else {
                0
            },
{
    if has_bytes_at(b, offset, newc_magic()) {
        let r = reader_at(b, offset, limits);
        lemma_limited_members(r, Seq::empty());
        if let Ok((more, end)) = r.all(Seq::empty()) {
            assert((count + 1) * limits.max_archive_entries == count * limits.max_archive_entries
                + limits.max_archive_entries) by (nonlinear_arith);
            if count + 1 <= 64 {
                lemma_limited_scan(b, end, limits, found + more, count + 1);
            }
        }
    }
}

/// A scan is within the limits: no member is larger than allowed, there are at
/// most 64 archives, and together they have no more members than allowed for
/// each. The limit on members has to be one that a counter can exceed.
pub proof fn law_scans_honour_limits(b: Seq<u8>, limits: Limits)
    requires
        limits.max_archive_entries < u32::MAX,
    ensures
        scan_of(b, limits) matches Ok(Some(scan)) ==> {
            &&& small_members(scan.entries, limits)
            &&& scan.archive_count <= 64
            &&& scan.entries.len() <= scan.archive_count * limits.max_archive_entries
        },
{
    lemma_limited_scan(b, 0, limits, Seq::empty(), 0);
}

} // verus!
