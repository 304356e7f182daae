//! Laws of what is read from AMD containers.

use vstd::prelude::*;
use crate::amd::container::{
    container_at, containers_from, containers_of, entries_in, id_for, law_signatures_of_an_id,
    lemma_container_length, section_at, sections_from, table_findings, with_tail, AmdPatchModel, ContainerModel,
    EquivalenceEntry,
};
use crate::amd::header::{magic, PatchHeaderModel};
use crate::amd::validate::{body_findings, id_findings, patch_report, target_findings};
use crate::bytes::{has_bytes_at, le16, le32};
use crate::digest::sha256_of;
use crate::intel::validate::given;
use crate::model::cpu::{CpuSignature, PlatformMask, Vendor};
use crate::model::date::UcodeDate;
use crate::model::law::{lemma_reports_both, lemma_reports_one, reports};
use crate::model::limits::Limits;
use crate::model::patch::{HeaderKind, RuntimeUpdatePolicy};
use crate::model::validate::{finding, FindingCode, FindingModel};
use crate::number::dec;

verus! {

// --- patches and tables -------------------------------------------------------------

/// The table maps the processor to the id.
pub open spec fn table_maps(table: Seq<EquivalenceEntry>, sig: CpuSignature, id: u16) -> bool {
    exists|i: int| 0 <= i < table.len() && (#[trigger] table[i]).equiv_id == id && table[i].installed_cpu == sig
}

/// The patch is what a section of the blob says: the section's type and size
/// stand before it, its header at its start, and its processors are those that
/// the table maps to the id in its header, in ascending order.
pub open spec fn is_section(p: AmdPatchModel, b: Seq<u8>, table: Seq<EquivalenceEntry>) -> bool {
    &&& 8 <= p.offset
    &&& p.offset + p.size <= b.len()
    &&& 64 <= p.size
    &&& le32(b, p.offset - 8) == 1
    &&& le32(b, p.offset - 4) == p.size
    &&& p.header.date_raw == le32(b, p.offset as int)
    &&& p.header.patch_id == le32(b, p.offset + 4)
    &&& p.header.processor_rev_id == le16(b, p.offset + 24)
    &&& p.sha256 == sha256_of(b.subrange(p.offset as int, p.offset + p.size))
    &&& forall|sig: CpuSignature| #[trigger]
        p.signatures.contains(sig) <==> table_maps(table, sig, p.header.processor_rev_id)
    &&& forall|i: int, j: int|
        0 <= i < j < p.signatures.len() ==> (#[trigger] p.signatures[i]).0 < (#[trigger] p.signatures[j]).0
}

/// Where the patches that start behind `from` end.
pub open spec fn end_of(ps: Seq<AmdPatchModel>, from: int) -> int {
    if ps.len() == 0 {
        from
    } else {
        ps.last().offset + ps.last().size
    }
}

/// The patches are the sections of the blob that follow one another behind
/// `from`.
pub open spec fn are_sections(ps: Seq<AmdPatchModel>, b: Seq<u8>, table: Seq<EquivalenceEntry>, from: int) -> bool {
    forall|i: int|
        0 <= i < ps.len() ==> is_section(#[trigger] ps[i], b, table) && ps[i].offset == end_of(
            ps.take(i),
            from,
        ) + 8
}

/// The slots of the table at `start` that are not all zero, in order.
pub open spec fn slots_of(b: Seq<u8>, start: int, n: nat) -> Seq<EquivalenceEntry> {
    Seq::new(
        n,
        |k: int|
            EquivalenceEntry {
                installed_cpu: CpuSignature(le32(b, start + 16 * k)),
                fixed_errata_mask: le32(b, start + 16 * k + 4),
                fixed_errata_compare: le32(b, start + 16 * k + 8),
                equiv_id: le16(b, start + 16 * k + 12),
                reserved: le16(b, start + 16 * k + 14),
                offset: (start + 16 * k) as u64,
            },
    ).filter(|e: EquivalenceEntry| e.installed_cpu.0 != 0 || e.equiv_id != 0)
}

proof fn lemma_slots(b: Seq<u8>, start: int, n: nat)
    ensures
        entries_in(b, start, n) == slots_of(b, start, n),
    decreases n,
{
    reveal(Seq::filter);
    let f = |k: int|
        EquivalenceEntry {
            installed_cpu: CpuSignature(le32(b, start + 16 * k)),
            fixed_errata_mask: le32(b, start + 16 * k + 4),
            fixed_errata_compare: le32(b, start + 16 * k + 8),
            equiv_id: le16(b, start + 16 * k + 12),
            reserved: le16(b, start + 16 * k + 14),
            offset: (start + 16 * k) as u64,
        };
    if n > 0 {
        let m = (n - 1) as nat;
        lemma_slots(b, start, m);
        assert(Seq::new(n, f).drop_last() =~= Seq::new(m, f));
        assert(Seq::new(n, f).last() == EquivalenceEntry::at(b, start + (n - 1) * 16));
    } else {
        assert(Seq::new(n, f) =~= Seq::empty());
    }
}

/// The container is what stands in the blob at its offset: its magic, the
/// table with the length that its header gives, and the patch sections behind
/// that. Its length covers them, and at most a part of a section header at the
/// end of the blob more.
pub open spec fn is_container(c: ContainerModel, b: Seq<u8>) -> bool {
    let len = le32(b, c.offset + 8);
    let from = c.offset + 12 + len;
    let end = end_of(c.patches, from);
    &&& has_bytes_at(b, c.offset as int, seq![0x44u8, 0x4du8, 0x41u8, 0u8])
    &&& le32(b, c.offset + 4) == 0
    &&& from <= b.len()
    &&& c.equivalence == slots_of(b, c.offset + 12, (len / 16) as nat)
    &&& are_sections(c.patches, b, c.equivalence, from)
    &&& end <= c.offset + c.length <= b.len()
    &&& c.offset + c.length == end || (c.offset + c.length == b.len() && b.len() - end < 8)
}

proof fn lemma_sections(
    b: Seq<u8>,
    off: int,
    table: Seq<EquivalenceEntry>,
    limits: Limits,
    patches: Seq<AmdPatchModel>,
    report: Seq<FindingModel>,
    from: int,
)
    requires
        0 <= from <= off <= b.len() <= u64::MAX,
        are_sections(patches, b, table, from),
        off == end_of(patches, from),
    ensures
        sections_from(b, off, table, limits, patches, report) matches Ok((all, _, end)) ==> {
            &&& are_sections(all, b, table, from)
            &&& from <= end_of(all, from) <= end <= b.len()
            &&& end == end_of(all, from) || (end == b.len() && b.len() - end_of(all, from) < 8)
        },
    decreases b.len() - off,
{
    reveal(section_at);
    if off < b.len() && !has_bytes_at(b, off, magic()) && b.len() - off >= 8 && le32(b, off) == 1 {
        if let Ok(p) = section_at(b, off, table, limits) {
            let end = off + 8 + le32(b, off + 4);
            let more = patches.push(p);
            assert(is_section(p, b, table)) by {
                assert forall|sig: CpuSignature| #[trigger] p.signatures.contains(sig) <==> table_maps(
                    table,
                    sig,
                    p.header.processor_rev_id,
                ) by {
                    law_signatures_of_an_id(table, p.header.processor_rev_id, sig);
                }
                law_signatures_of_an_id(table, p.header.processor_rev_id, CpuSignature(0));
            }
            assert forall|i: int| 0 <= i < more.len() implies is_section(#[trigger] more[i], b, table)
                && more[i].offset == end_of(more.take(i), from) + 8 by {
                assert(more.take(i) =~= patches.take(i));
                if i < patches.len() {
                    assert(more[i] == patches[i]);
                } else {
                    assert(patches.take(i) =~= patches);
                }
            }
            assert(end_of(more, from) == end);
            lemma_sections(b, end, table, limits, more, report, from);
        }
    }
}

proof fn lemma_container(b: Seq<u8>, start: int, limits: Limits)
    requires
        0 <= start < b.len() <= u64::MAX,
        has_bytes_at(b, start, magic()),
    ensures
        container_at(b, start, limits) matches Ok(c) ==> is_container(c, b) && c.offset == start,
{
    reveal(container_at);
    assert(magic() =~= seq![0x44u8, 0x4du8, 0x41u8, 0u8]);
    let len = le32(b, start + 8);
    let from = start + 12;
    let n = (len / 16) as nat;
    lemma_slots(b, from, n);
    let table = entries_in(b, from, n);
    let report = given(
        len % 16 != 0,
        finding(
            FindingCode::BadTotalSize,
            start + 8,
            "equivalence table length "@ + dec(len as nat) + " is not a multiple of 16"@,
        ),
    ) + table_findings(b, from, from + len);
    if from + len <= b.len() {
        lemma_sections(b, from + len, table, limits, Seq::empty(), report, from + len);
    }
}

/// Where the containers from the start of the blob end.
pub open spec fn blob_end(cs: Seq<ContainerModel>) -> int {
    if cs.len() == 0 {
        0
    } else {
        cs.last().offset + cs.last().length
    }
}

/// The containers are those that follow one another from the start of the blob.
pub open spec fn are_containers(cs: Seq<ContainerModel>, b: Seq<u8>) -> bool {
    forall|i: int|
        0 <= i < cs.len() ==> is_container(#[trigger] cs[i], b) && cs[i].offset == blob_end(cs.take(i))
}

proof fn lemma_tail_stays(cs: Seq<ContainerModel>, f: FindingModel, b: Seq<u8>)
    requires
        are_containers(cs, b),
    ensures
        are_containers(with_tail(cs, f), b),
        blob_end(with_tail(cs, f)) == blob_end(cs),
{
    let new = with_tail(cs, f);
    assert forall|i: int| 0 <= i < new.len() implies is_container(#[trigger] new[i], b) && new[i].offset
        == blob_end(new.take(i)) by {
        assert(is_container(cs[i], b) && cs[i].offset == blob_end(cs.take(i)));
        assert(new.take(i) =~= cs.take(i));
    }
}

proof fn lemma_containers(b: Seq<u8>, off: int, limits: Limits, cs: Seq<ContainerModel>, count: int)
    requires
        are_containers(cs, b),
        off == blob_end(cs),
        0 <= off <= b.len() <= u64::MAX,
    ensures
        containers_from(b, off, limits, cs, count) matches Ok(all) ==> {
            &&& are_containers(all, b)
            &&& all.len() >= cs.len()
            &&& blob_end(all) == b.len() || !has_bytes_at(b, blob_end(all), magic())
        },
    decreases b.len() - off,
{
    if off < b.len() {
        if !has_bytes_at(b, off, magic()) {
            let f = finding(
                FindingCode::TrailingGarbage,
                off,
                ""@ + dec((b.len() - off) as nat) + " trailing bytes are not a new container"@,
            );
            lemma_tail_stays(cs, f, b);
        } else if let Ok(c) = container_at(b, off, limits) {
            lemma_container(b, off, limits);
            lemma_container_length(b, off, limits);
            let more = cs.push(c);
            assert forall|i: int| 0 <= i < more.len() implies is_container(#[trigger] more[i], b)
                && more[i].offset == blob_end(more.take(i)) by {
                assert(more.take(i) =~= cs.take(i));
                if i < cs.len() {
                    assert(more[i] == cs[i]);
                } else {
                    assert(cs.take(i) =~= cs);
                }
            }
            if c.length > 0 && count + c.patches.len() <= limits.max_patches {
                lemma_containers(b, off + c.length, limits, more, count + c.patches.len());
            }
        }
    }
}

/// What is read from a blob is what stands in it: containers one behind the
/// other from its start, until no further one starts, and in each of them the
/// table and the patches that its bytes describe.
pub proof fn law_containers_are_read_from_the_blob(b: Seq<u8>, limits: Limits)
    requires
        containers_of(b, limits) is Ok,
    ensures
        ({
            let cs = containers_of(b, limits)->Ok_0;
            &&& cs.len() > 0
            &&& are_containers(cs, b)
            &&& blob_end(cs) == b.len() || !has_bytes_at(b, blob_end(cs), seq![0x44u8, 0x4du8, 0x41u8, 0u8])
        }),
{
    assert(magic() =~= seq![0x44u8, 0x4du8, 0x41u8, 0u8]);
    lemma_containers(b, 0, limits, Seq::empty(), 0);
    lemma_container(b, 0, limits);
    if let Ok(c) = container_at(b, 0, limits) {
        if c.length > 0 && c.patches.len() <= limits.max_patches {
            lemma_container_length(b, 0, limits);
            assert(Seq::<ContainerModel>::empty().push(c).take(0) =~= Seq::empty());
            assert(are_containers(Seq::<ContainerModel>::empty().push(c), b));
            lemma_containers(b, c.length as int, limits, Seq::empty().push(c), c.patches.len() as int);
        }
    }
}

/// The description of a patch says what its header says, for exactly the
/// processors that were resolved, each under the id of the header.
pub proof fn law_amd_patches_are_described(p: AmdPatchModel, source: Seq<char>)
    ensures
        ({
            let m = p.meta(source);
            &&& m.vendor == Vendor::Amd
            &&& m.kind == HeaderKind::Microcode
            &&& m.revision == p.header.patch_id
            &&& m.date == UcodeDate::decode(p.header.date_raw)
            &&& m.total_size == p.size
            &&& p.size >= 64 ==> m.data_size == p.size - 64
            &&& m.sha256 == Some(p.sha256)
            &&& m.min_base_revision is None
            &&& m.runtime_update == RuntimeUpdatePolicy::Unspecified
            &&& m.origin.source == source
            &&& m.origin.offset == p.offset
            &&& m.origin.length == p.size
            &&& m.matches.len() == p.signatures.len()
            &&& forall|i: int|
                0 <= i < m.matches.len() ==> {
                    let t = #[trigger] m.matches[i];
                    &&& t.signature == p.signatures[i]
                    &&& t.equivalence_id == Some(p.header.processor_rev_id)
                    &&& t.platform_mask == PlatformMask(0)
                    &&& t.primary
                }
        }),
{
}

proof fn lemma_id_for(table: Seq<EquivalenceEntry>, sig: CpuSignature)
    ensures
        match id_for(table, sig) {
            Some(id) => exists|i: int|
                0 <= i < table.len() && (#[trigger] table[i]).installed_cpu == sig && table[i].equiv_id == id && id
                    != 0 && forall|j: int|
                    0 <= j < i ==> (#[trigger] table[j]).installed_cpu != sig || table[j].equiv_id == 0,
            None => forall|j: int|
                0 <= j < table.len() ==> (#[trigger] table[j]).installed_cpu != sig || table[j].equiv_id == 0,
        },
    decreases table.len(),
{
    if table.len() > 0 && !(table[0].installed_cpu == sig && table[0].equiv_id != 0) {
        let rest = table.drop_first();
        lemma_id_for(rest, sig);
        assert forall|j: int| 1 <= j < table.len() implies #[trigger] table[j] == rest[j - 1] by {}
        if let Some(id) = id_for(rest, sig) {
            let i = choose|i: int|
                0 <= i < rest.len() && (#[trigger] rest[i]).installed_cpu == sig && rest[i].equiv_id == id && id
                    != 0 && forall|j: int|
                    0 <= j < i ==> (#[trigger] rest[j]).installed_cpu != sig || rest[j].equiv_id == 0;
            assert(table[i + 1] == rest[i]);
            assert forall|j: int| 0 <= j < i + 1 implies (#[trigger] table[j]).installed_cpu != sig
                || table[j].equiv_id == 0 by {
                if j > 0 {
                    assert(table[j] == rest[j - 1]);
                }
            }
        }
    } else if table.len() > 0 {
        assert(table[0].installed_cpu == sig);
    }
}

/// The id of a processor is that of the first entry that gives it one.
pub proof fn law_the_first_entry_gives_the_id(table: Seq<EquivalenceEntry>, sig: CpuSignature)
    ensures
        match id_for(table, sig) {
            Some(id) => exists|i: int|
                0 <= i < table.len() && (#[trigger] table[i]).installed_cpu == sig && table[i].equiv_id == id && id
                    != 0 && forall|j: int|
                    0 <= j < i ==> (#[trigger] table[j]).installed_cpu != sig || table[j].equiv_id == 0,
            None => forall|j: int|
                0 <= j < table.len() ==> (#[trigger] table[j]).installed_cpu != sig || table[j].equiv_id == 0,
        },
{
    lemma_id_for(table, sig);
}

// --- findings -----------------------------------------------------------------------

/// The number of bytes that the kernel takes at most for a family.
pub open spec fn is_too_large(size: u32, family: u32) -> bool {
    ||| 0x10 <= family <= 0x13 && size > 2048
    ||| family == 0x14 && size > 1824
    ||| family == 0x15 && size > 4096
    ||| family == 0x16 && size > 3458
    ||| (family == 0x17 || family == 0x18) && size > 3200
    ||| family == 0x19 && size > 5568
    ||| family == 0x1a && size > 16384
}

proof fn lemma_target_findings(
    h: PatchHeaderModel,
    size: u32,
    offset: int,
    signatures: Seq<CpuSignature>,
    code: FindingCode,
)
    ensures
        reports(target_findings(h, size, offset, signatures), code) <==> {
            ||| code == FindingCode::EquivalenceIdNotInTable && signatures.len() == 0
            ||| code == FindingCode::PatchSizeExceedsFamilyMaximum && signatures.len() > 0 && is_too_large(
                size,
                signatures[0].display_family(),
            )
        },
{
    let found = target_findings(h, size, offset, signatures);
    assert(found.len() <= 1);
    if found.len() == 1 {
        lemma_reports_one(found[0], code);
        assert(found =~= seq![found[0]]);
    }
}

proof fn lemma_body_findings(h: PatchHeaderModel, size: u32, offset: int, code: FindingCode)
    ensures
        reports(body_findings(h, size, offset), code) <==> {
            let date = UcodeDate::decode(h.date_raw);
            ||| code == FindingCode::BadTotalSize && size < 64
            ||| code == FindingCode::NonBcdDate && date is None
            ||| code == FindingCode::ImplausibleDate && date is Some && !(date->0).plausible()
        },
{
    let first = given(
        size < 64,
        finding(
            FindingCode::BadTotalSize,
            offset,
            "patch section is "@ + dec(size as nat) + " bytes, smaller than the 64-byte header"@,
        ),
    );
    let all = body_findings(h, size, offset);
    let rest = all.skip(first.len() as int);
    assert(all =~= first + rest);
    lemma_reports_both(first, rest, code);
    assert(rest.len() <= 1);
    if rest.len() == 1 {
        lemma_reports_one(rest[0], code);
        assert(rest =~= seq![rest[0]]);
    }
    if first.len() == 1 {
        lemma_reports_one(first[0], code);
        assert(first =~= seq![first[0]]);
    }
}

proof fn lemma_id_findings(h: PatchHeaderModel, offset: int, code: FindingCode)
    requires
        h.reserved.len() == 3,
    ensures
        reports(id_findings(h, offset), code) <==> {
            ||| code == FindingCode::ZeroRevision && h.patch_id == 0
            ||| code == FindingCode::ReservedFieldNonZero && (h.reserved[0] != 0 || h.reserved[1] != 0
                || h.reserved[2] != 0)
        },
{
    let zero = seq![0u8, 0u8, 0u8];
    assert(zero[0] == 0 && zero[1] == 0 && zero[2] == 0);
    if h.reserved[0] == 0 && h.reserved[1] == 0 && h.reserved[2] == 0 {
        assert(h.reserved =~= zero);
    }
    let first = given(
        h.patch_id == 0,
        finding(FindingCode::ZeroRevision, offset + 4, "patch id is zero"@),
    );
    let all = id_findings(h, offset);
    let rest = all.skip(first.len() as int);
    assert(all =~= first + rest);
    lemma_reports_both(first, rest, code);
    assert(rest.len() <= 1);
    if rest.len() == 1 {
        lemma_reports_one(rest[0], code);
        assert(rest =~= seq![rest[0]]);
    }
    if first.len() == 1 {
        lemma_reports_one(first[0], code);
        assert(first =~= seq![first[0]]);
    }
}

/// A patch is reported on for exactly these reasons: no processor is mapped to
/// it, it is too large for the family of the first, it is smaller than its
/// header, its date is no date or not a plausible one, its revision is zero, or
/// its reserved bytes are not.
pub proof fn law_findings_have_a_reason(
    h: PatchHeaderModel,
    size: u32,
    offset: int,
    signatures: Seq<CpuSignature>,
    code: FindingCode,
)
    requires
        h.reserved.len() == 3,
    ensures
        reports(patch_report(h, size, offset, signatures), code) <==> {
            let date = UcodeDate::decode(h.date_raw);
            ||| code == FindingCode::EquivalenceIdNotInTable && signatures.len() == 0
            ||| code == FindingCode::PatchSizeExceedsFamilyMaximum && signatures.len() > 0 && is_too_large(
                size,
                signatures[0].display_family(),
            )
            ||| code == FindingCode::BadTotalSize && size < 64
            ||| code == FindingCode::NonBcdDate && date is None
            ||| code == FindingCode::ImplausibleDate && date is Some && !(date->0).plausible()
            ||| code == FindingCode::ZeroRevision && h.patch_id == 0
            ||| code == FindingCode::ReservedFieldNonZero && (h.reserved[0] != 0 || h.reserved[1] != 0
                || h.reserved[2] != 0)
        },
{
    let a = target_findings(h, size, offset, signatures);
    let b = body_findings(h, size, offset);
    let c = id_findings(h, offset);
    lemma_target_findings(h, size, offset, signatures, code);
    lemma_body_findings(h, size, offset, code);
    lemma_id_findings(h, offset, code);
    lemma_reports_both(a + b, c, code);
    lemma_reports_both(a, b, code);
}

} // verus!
