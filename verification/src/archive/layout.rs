//! Laws of the layout of archives.

use vstd::prelude::*;
use vstd::utf8::{decode_utf8, encode_utf8};
use crate::archive::error::ArchiveFault;
use crate::archive::format::newc_magic;
use crate::archive::law::{
    law_directories_are_sorted, lemma_field_reads_back, lemma_fields, lemma_no_dots, lemma_record_size,
    named_header,
};
use crate::archive::reader::{
    field_value, reader_at, record_at, scan_from, scan_of, CpioModel, ReaderModel, ScanModel,
};
use crate::archive::writer::{
    archive_bytes, dot_problem, dir_member, file_member, file_order, header_bytes, header_fields, inode,
    fields_bytes, low32, members_bytes, members_of, name_problem, padded, parents, record_bytes, sorted_dirs,
    text_order, with_dirs, with_file, ArchiveModel, ByPath, FileModel, Member,
};
use crate::bytes::has_bytes_at;
use crate::model::limits::Limits;
use crate::number::hex;
use crate::order::{law_sort_sorts, lemma_sort_members, order_of, sort_by};
use crate::text::{contains_text, lemma_find_from, occurs_at, split_text, text_less};

verus! {

// --- records ------------------------------------------------------------------------

/// `n` up to the next multiple of four.
pub open spec fn rounded(n: int) -> int {
    n + (4 - n % 4) % 4
}

/// The numbers of a record's header in their order: inode, mode, owner, group,
/// links, time, length, four device numbers, length of the name, check.
pub open spec fn numbers_of(ino: u32, mode: u32, nlink: u32, len: u32, name_len: u32) -> Seq<u32> {
    seq![ino, mode, 0, 0, nlink, 0, len, 0, 0, 0, 0, name_len, 0]
}

/// A record is its magic, thirteen numbers of eight hexadecimal digits, the
/// name with a zero behind it and the data, both with zeros behind them up to a
/// multiple of four.
pub proof fn law_records_have_their_layout(ino: u32, mode: u32, nlink: u32, name: Seq<char>, data: Seq<u8>, k: int)
    requires
        encode_utf8(name).len() < u32::MAX,
        data.len() <= u32::MAX,
        0 <= k < 13,
    ensures
        ({
            let r = record_bytes(ino, mode, nlink, name, data);
            let n = encode_utf8(name).len();
            let at = rounded(111 + n as int);
            &&& r.len() == at + rounded(data.len() as int)
            &&& r.take(6) == seq![0x30u8, 0x37u8, 0x30u8, 0x37u8, 0x30u8, 0x31u8]
            &&& r.subrange(6 + 8 * k, 14 + 8 * k) == encode_utf8(
                hex(numbers_of(ino, mode, nlink, data.len() as u32, (n + 1) as u32)[k] as nat, 8),
            )
            &&& r.subrange(110, 110 + n as int) == encode_utf8(name)
            &&& r.subrange(at, at + data.len()) == data
            &&& forall|i: int| 110 + n <= i < at ==> #[trigger] r[i] == 0
            &&& forall|i: int| at + data.len() <= i < r.len() ==> #[trigger] r[i] == 0
        }),
{
    let r = record_bytes(ino, mode, nlink, name, data);
    let n = encode_utf8(name).len();
    let fields = header_fields(ino, mode, nlink, low32(data.len()), low32(n + 1));
    lemma_fields(fields);
    lemma_record_size(ino, mode, nlink, name, data);
    let head = header_bytes(ino, mode, nlink, low32(data.len()), low32(n + 1));
    let named = named_header(ino, mode, nlink, name, data);
    assert(head.len() == 110);
    assert(low32(data.len()) == data.len() as u32);
    assert(low32(n + 1) == (n + 1) as u32);
    assert(fields =~= numbers_of(ino, mode, nlink, data.len() as u32, (n + 1) as u32));
    let bytes = fields_bytes(fields);
    assert(r.take(6) =~= seq![0x30u8, 0x37u8, 0x30u8, 0x37u8, 0x30u8, 0x31u8]);
    assert(r.subrange(6 + 8 * k, 14 + 8 * k) =~= bytes.subrange(8 * k, 8 * k + 8));
    assert(r.subrange(110, 110 + n as int) =~= encode_utf8(name));
    let at = rounded(111 + n as int);
    assert(padded(named).len() == at);
    assert(r.subrange(at, at + data.len()) =~= data);
}

proof fn lemma_members_push(ms: Seq<Member>, m: Member, i: int)
    requires
        0 <= i,
    ensures
        members_bytes(ms.push(m), i) == members_bytes(ms, i) + record_bytes(
            inode(i + ms.len()),
            m.mode,
            m.nlink,
            m.name,
            m.data,
        ),
    decreases ms.len(),
{
    let all = ms.push(m);
    if ms.len() == 0 {
        assert(all.drop_first() =~= Seq::empty());
        assert(members_bytes(all.drop_first(), i + 1) =~= Seq::empty());
        let r = record_bytes(inode(i), m.mode, m.nlink, m.name, m.data);
        assert(r + Seq::<u8>::empty() =~= r);
        assert(Seq::<u8>::empty() + r =~= r);
    } else {
        let rest = ms.drop_first();
        assert(all.drop_first() =~= rest.push(m));
        lemma_members_push(rest, m, i + 1);
        let first = record_bytes(inode(i), ms[0].mode, ms[0].nlink, ms[0].name, ms[0].data);
        assert(all[0] == ms[0]);
        let last = record_bytes(inode(i + ms.len()), m.mode, m.nlink, m.name, m.data);
        assert(first + (members_bytes(rest, i + 1) + last) =~= first + members_bytes(rest, i + 1) + last);
    }
}

/// An archive is the records of its members in order, numbered from one, and
/// behind them the record that ends it.
pub proof fn law_archives_are_their_members(ms: Seq<Member>, m: Member, a: ArchiveModel)
    requires
        ms.len() < u32::MAX,
    ensures
        members_bytes(Seq::empty(), 0) == Seq::<u8>::empty(),
        members_bytes(ms.push(m), 0) == members_bytes(ms, 0) + record_bytes(
            (ms.len() + 1) as u32,
            m.mode,
            m.nlink,
            m.name,
            m.data,
        ),
        archive_bytes(a) == members_bytes(members_of(a), 0) + record_bytes(0, 0, 1, "TRAILER!!!"@, Seq::empty()),
{
    lemma_members_push(ms, m, 0);
}

/// The members of an archive are its directories in path order, each once, and
/// behind them its files in path order; a directory has no data, mode 40755 and
/// two links, a file its data, its mode and one link.
pub proof fn law_directories_come_before_files(a: ArchiveModel)
    ensures
        ({
            let n = sorted_dirs(a.dirs).len();
            let ms = members_of(a);
            &&& ms.len() == n + sort_by(a.files, file_order()).len()
            &&& forall|k: int|
                0 <= k < n ==> {
                    let x = #[trigger] ms[k];
                    &&& x.mode == 0o40755
                    &&& x.nlink == 2
                    &&& x.data.len() == 0
                    &&& a.dirs.contains(x.name)
                }
            &&& forall|k: int|
                n <= k < ms.len() ==> {
                    let x = #[trigger] ms[k];
                    &&& x.nlink == 1
                    &&& a.files.contains(FileModel { name: x.name, data: x.data, mode: x.mode })
                }
            &&& forall|i: int, j: int|
                0 <= i < j < n ==> text_less((#[trigger] ms[i]).name, (#[trigger] ms[j]).name)
            &&& forall|i: int, j: int|
                n <= i < j < ms.len() ==> !text_less((#[trigger] ms[j]).name, (#[trigger] ms[i]).name)
        }),
{
    let dirs = sorted_dirs(a.dirs);
    let files = sort_by(a.files, file_order());
    let ms = members_of(a);
    let n = dirs.len();
    law_directories_are_sorted(a.dirs);
    lemma_sort_members(a.files, file_order());
    assert(file_order() =~= order_of::<FileModel, ByPath>());
    law_sort_sorts::<FileModel, ByPath>(a.files);
    assert(0o040_000u32 | 0o755u32 == 0o40755u32) by (bit_vector);
    assert forall|k: int| 0 <= k < n implies {
        let x = #[trigger] ms[k];
        &&& x.mode == 0o40755
        &&& x.nlink == 2
        &&& x.data.len() == 0
        &&& a.dirs.contains(x.name)
    } by {
        assert(ms[k] == dir_member(dirs[k]));
        assert(dirs.contains(dirs[k]));
    }
    assert forall|k: int| n <= k < ms.len() implies {
        let x = #[trigger] ms[k];
        &&& x.nlink == 1
        &&& a.files.contains(FileModel { name: x.name, data: x.data, mode: x.mode })
    } by {
        let f = files[k - n];
        assert(ms[k] == file_member(f));
        assert(files.contains(f));
        assert(f == (FileModel { name: f.name, data: f.data, mode: f.mode }));
    }
    assert forall|i: int, j: int| 0 <= i < j < n implies text_less(
        (#[trigger] ms[i]).name,
        (#[trigger] ms[j]).name,
    ) by {
        assert(ms[i] == dir_member(dirs[i]) && ms[j] == dir_member(dirs[j]));
        assert((text_order())(dirs[i], dirs[j]));
    }
    assert forall|i: int, j: int| n <= i < j < ms.len() implies !text_less(
        (#[trigger] ms[j]).name,
        (#[trigger] ms[i]).name,
    ) by {
        assert(ms[i] == file_member(files[i - n]) && ms[j] == file_member(files[j - n]));
        assert(!(file_order())(files[j - n], files[i - n]));
    }
}

// --- names and parents --------------------------------------------------------------

proof fn lemma_parents(name: Seq<char>, n: nat, d: Seq<char>)
    requires
        n <= name.len(),
    ensures
        parents(name, n).contains(d) <==> exists|p: int| 0 <= p < n && #[trigger] name[p] == '/' && d == name.take(p),
    decreases n,
{
    if n > 0 {
        let m = (n - 1) as nat;
        lemma_parents(name, m, d);
        let front = parents(name, m);
        if name[n - 1] == '/' {
            let all = parents(name, n);
            assert(all == front.push(name.take(n - 1)));
            assert(all.contains(d) <==> front.contains(d) || d == name.take(n - 1)) by {
                if front.contains(d) {
                    let k = choose|k: int| 0 <= k < front.len() && front[k] == d;
                    assert(all[k] == d);
                }
                assert(all[front.len() as int] == name.take(n - 1));
                if all.contains(d) {
                    let k = choose|k: int| 0 <= k < all.len() && all[k] == d;
                    if k < front.len() {
                        assert(front[k] == d);
                    }
                }
            }
        }
    }
}

proof fn lemma_with_dirs(dirs: Seq<Seq<char>>, more: Seq<Seq<char>>, d: Seq<char>)
    ensures
        with_dirs(dirs, more).contains(d) <==> dirs.contains(d) || more.contains(d),
        with_dirs(dirs, more).len() >= dirs.len(),
        with_dirs(dirs, more).take(dirs.len() as int) == dirs,
    decreases more.len(),
{
    if more.len() > 0 {
        let front = with_dirs(dirs, more.drop_last());
        let all = with_dirs(dirs, more);
        let x = more.last();
        lemma_with_dirs(dirs, more.drop_last(), d);
        assert(more.contains(d) <==> more.drop_last().contains(d) || d == x) by {
            if more.drop_last().contains(d) {
                let k = choose|k: int| 0 <= k < more.len() - 1 && more.drop_last()[k] == d;
                assert(more[k] == d);
            }
            assert(more[more.len() - 1] == x);
            if more.contains(d) {
                let k = choose|k: int| 0 <= k < more.len() && more[k] == d;
                if k < more.len() - 1 {
                    assert(more.drop_last()[k] == d);
                }
            }
        }
        if !front.contains(x) {
            assert(all == front.push(x));
            assert(all.contains(d) <==> front.contains(d) || d == x) by {
                if front.contains(d) {
                    let k = choose|k: int| 0 <= k < front.len() && front[k] == d;
                    assert(all[k] == d);
                }
                assert(all[front.len() as int] == x);
                if all.contains(d) {
                    let k = choose|k: int| 0 <= k < all.len() && all[k] == d;
                    if k < front.len() {
                        assert(front[k] == d);
                    }
                }
            }
            assert(all.take(dirs.len() as int) =~= front.take(dirs.len() as int));
        }
    } else {
        assert(dirs.take(dirs.len() as int) =~= dirs);
    }
}

/// A file is added behind the others, as a regular file that all may read. With
/// it come the directories on its path, where they are wanted, and no others.
pub proof fn law_files_bring_their_parents(m: ArchiveModel, name: Seq<char>, data: Seq<u8>, d: Seq<char>)
    ensures
        ({
            let n = with_file(m, name, data);
            &&& n.files == m.files.push(FileModel { name, data, mode: 0o100644 })
            &&& n.emit_parent_dirs == m.emit_parent_dirs
            &&& !m.emit_parent_dirs ==> n.dirs == m.dirs
            &&& m.emit_parent_dirs ==> {
                &&& n.dirs.contains(d) <==> m.dirs.contains(d) || exists|p: int|
                    0 <= p < name.len() && #[trigger] name[p] == '/' && d == name.take(p)
                &&& n.dirs.len() >= m.dirs.len()
                &&& n.dirs.take(m.dirs.len() as int) == m.dirs
            }
        }),
{
    assert(0o100_000u32 | 0o644u32 == 0o100644u32) by (bit_vector);
    lemma_parents(name, name.len(), d);
    lemma_with_dirs(m.dirs, parents(name, name.len()), d);
}

proof fn lemma_dots(components: Seq<Seq<char>>)
    ensures
        dot_problem(components) is Some <==> exists|i: int|
            0 <= i < components.len() && (#[trigger] components[i] == ".."@ || components[i] == "."@),
    decreases components.len(),
{
    if dot_problem(components) is None {
        lemma_no_dots(components);
    } else {
        let rest = components.drop_first();
        lemma_dots(rest);
        if components[0] != ".."@ && components[0] != "."@ {
            let i = choose|i: int| 0 <= i < rest.len() && (#[trigger] rest[i] == ".."@ || rest[i] == "."@);
            assert(components[i + 1] == rest[i]);
        } else {
            assert(components[0] == ".."@ || components[0] == "."@);
        }
    }
}

proof fn lemma_occurs(name: Seq<char>, pat: Seq<char>)
    ensures
        contains_text(name, pat) <==> exists|i: int| #[trigger] occurs_at(name, pat, i),
{
    lemma_find_from(name, pat, 0);
}

/// A name is refused exactly if it is empty, too long or absolute, holds a
/// zero, has two slashes in a row, or a component that is `.` or `..`.
pub proof fn law_names_are_refused_for_a_reason(name: Seq<char>)
    ensures
        name_problem(name) is Some <==> {
            ||| name.len() == 0
            ||| encode_utf8(name).len() > 4096
            ||| name[0] == '/'
            ||| exists|i: int| 0 <= i < name.len() && #[trigger] name[i] == '\0'
            ||| exists|i: int| #[trigger] occurs_at(name, "//"@, i)
            ||| exists|i: int|
                0 <= i < split_text(name, '/').len() && (#[trigger] split_text(name, '/')[i] == ".."@ || split_text(
                    name,
                    '/',
                )[i] == "."@)
        },
{
    let nul = seq!['\0'];
    lemma_occurs(name, nul);
    lemma_occurs(name, "//"@);
    lemma_dots(split_text(name, '/'));
    assert(contains_text(name, nul) <==> exists|i: int| 0 <= i < name.len() && #[trigger] name[i] == '\0') by {
        if contains_text(name, nul) {
            let i = choose|i: int| #[trigger] occurs_at(name, nul, i);
            assert(name.subrange(i, i + 1)[0] == name[i]);
            assert(nul[0] == '\0');
            assert(name[i] == '\0');
        }
        if exists|i: int| 0 <= i < name.len() && #[trigger] name[i] == '\0' {
            let i = choose|i: int| 0 <= i < name.len() && #[trigger] name[i] == '\0';
            assert(name.subrange(i, i + 1) =~= nul);
            assert(occurs_at(name, nul, i));
        }
    }
}

// --- reading ------------------------------------------------------------------------

/// What is read of a record is what stands there: the magic, the numbers of
/// its header, the name up to its last byte, and behind the padding the data,
/// all of it inside the buffer. The next record starts behind the padding of the
/// data.
pub proof fn law_records_are_read_from_the_buffer(b: Seq<u8>, start: int, limits: Limits)
    requires
        0 <= start,
        b.len() <= usize::MAX,
    ensures
        record_at(b, start, limits) matches Ok((e, end)) ==> {
            let size = field_value(b, start, 11)->0;
            let name_end = start + 110 + size;
            &&& has_bytes_at(b, start, seq![0x30u8, 0x37u8, 0x30u8, 0x37u8, 0x30u8, 0x31u8])
            &&& Some(e.mode) == field_value(b, start, 1)
            &&& Some(e.uid) == field_value(b, start, 2)
            &&& Some(e.gid) == field_value(b, start, 3)
            &&& Some(e.mtime) == field_value(b, start, 5)
            &&& Some(e.data_len) == field_value(b, start, 6)
            &&& 0 < size <= 4097
            &&& e.name == decode_utf8(b.subrange(start + 110, name_end - 1))
            &&& e.data_offset == rounded(name_end)
            &&& e.data_offset + e.data_len <= b.len()
            &&& end == rounded(e.data_offset + e.data_len)
        },
{
    reveal(record_at);
}

/// A number of eight digits in a header is read as that number.
pub proof fn law_numbers_are_read_from_their_digits(b: Seq<u8>, start: int, idx: int, v: u32)
    requires
        0 <= start,
        0 <= idx < 13,
        start + 110 <= b.len(),
        b.subrange(start + 6 + idx * 8, start + 14 + idx * 8) == encode_utf8(hex(v as nat, 8)),
    ensures
        field_value(b, start, idx) == Some(v),
{
    lemma_field_reads_back(b, start, idx, v);
}

/// A reader goes from record to record until the trailer, and over the limit on
/// members it refuses.
pub proof fn law_readers_stop_at_the_trailer(r: ReaderModel)
    requires
        !r.finished,
    ensures
        match record_at(r.buf, r.cursor, r.limits) {
            Err(e) => r.next() == Err::<Option<CpioModel>, ArchiveFault>(e) && r.advanced() == r,
            Ok((e, end)) => {
                &&& r.advanced().cursor == end
                &&& e.name == "TRAILER!!!"@ ==> r.next() == Ok::<_, ArchiveFault>(None::<CpioModel>)
                    && r.advanced().finished
                &&& e.name != "TRAILER!!!"@ && r.count < r.limits.max_archive_entries ==> r.next() == Ok::<
                    _,
                    ArchiveFault,
                >(Some(e)) && r.advanced().count == r.count + 1 && !r.advanced().finished
                &&& e.name != "TRAILER!!!"@ && r.count >= r.limits.max_archive_entries && r.count < u32::MAX
                    ==> r.next() is Err
            },
        },
{
}

/// A scan goes from archive to archive from the start of the buffer, as long as
/// one starts where the last one ended, and gathers the members of all; more
/// than 64 are refused, and a buffer that starts with none has none.
pub proof fn law_scans_go_from_archive_to_archive(
    b: Seq<u8>,
    offset: int,
    limits: Limits,
    found: Seq<CpioModel>,
    count: int,
)
    requires
        0 <= offset,
    ensures
        ({
            let magic = seq![0x30u8, 0x37u8, 0x30u8, 0x37u8, 0x30u8, 0x31u8];
            let one = reader_at(b, offset, limits).all(Seq::empty());
            &&& !has_bytes_at(b, offset, magic) ==> scan_from(b, offset, limits, found, count) == Ok::<
                _,
                ArchiveFault,
            >(ScanModel { entries: found, end_offset: offset as u64, archive_count: count as u32 })
            &&& has_bytes_at(b, offset, magic) ==> match one {
                Err(e) => scan_from(b, offset, limits, found, count) == Err::<ScanModel, _>(e),
                Ok((more, end)) => {
                    &&& end > offset && count < 64 ==> scan_from(b, offset, limits, found, count) == scan_from(
                        b,
                        end,
                        limits,
                        found + more,
                        count + 1,
                    )
                    &&& end > offset && count >= 64 ==> scan_from(b, offset, limits, found, count) is Err
                },
            }
            &&& !has_bytes_at(b, 0, magic) ==> scan_of(b, limits) == Ok::<_, ArchiveFault>(None::<ScanModel>)
            &&& has_bytes_at(b, 0, magic) ==> match scan_from(b, 0, limits, Seq::empty(), 0) {
                Ok(s) => scan_of(b, limits) == Ok::<_, ArchiveFault>(Some(s)),
                Err(e) => scan_of(b, limits) == Err::<Option<ScanModel>, _>(e),
            }
        }),
{
    assert(newc_magic() =~= seq![0x30u8, 0x37u8, 0x30u8, 0x37u8, 0x30u8, 0x31u8]);
}

} // verus!
