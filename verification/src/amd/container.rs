//! AMD containers: the equivalence table and the patches behind it.

use vstd::prelude::*;
use crate::amd::error::{AmdError, AmdFault};
use crate::amd::header::{
    lemma_patch_header_part, magic, AmdPatchHeader, PatchHeaderModel, RawEquivEntry, CONTAINER_HEADER_SIZE,
    EQUIV_ENTRY_SIZE, PATCH_HEADER_SIZE, SECTION_HEADER_SIZE, SECTION_TYPE_EQUIV_TABLE,
    SECTION_TYPE_PATCH, UCODE_MAGIC_BYTES,
};
use crate::amd::validate::{patch_report, validate_patch};
use crate::bytes::{
    all_zero_from, bytes_at, get_le32, get_slice, has_bytes_at, le16, le16_bytes, le32, le32_bytes,
    lemma_le16_part, lemma_le32_part, slice_of, u16_from_le, u16_to_le, u32_from_le, u32_to_le, zero_from,
};
use crate::digest::{sha256, sha256_of};
use crate::intel::validate::given;
use crate::model::cpu::{CpuSignature, PlatformMask, Vendor};
use crate::model::date::UcodeDate;
use crate::model::limits::Limits;
use crate::model::patch::{
    HeaderKind, OriginModel, PatchMeta, PatchModel, PatchOrigin, ProcessorMatch, RuntimeUpdatePolicy,
};
use crate::model::validate::{finding, Finding, FindingCode, FindingModel, ValidationReport};
use crate::number::{around_dec, around_hex8, dec, dec_text, hex, hex_text};
use crate::order::{
    dedup_by, equal, law_dedup_is_strict, law_dedup_keeps_members, law_sort_sorts, lemma_sort_members, order_of,
    sort, sort_by, Order, Ranking,
};

verus! {

#[derive(Debug, Clone, Copy, PartialEq, Eq, Structural)]
pub struct EquivalenceEntry {
    pub installed_cpu: CpuSignature,
    pub fixed_errata_mask: u32,
    pub fixed_errata_compare: u32,
    pub equiv_id: u16,
    pub reserved: u16,
    /// Offset of this entry within the file.
    pub offset: u64,
}

impl EquivalenceEntry {
    /// The entry at offset `off`.
    pub open spec fn at(b: Seq<u8>, off: int) -> EquivalenceEntry {
        EquivalenceEntry {
            installed_cpu: CpuSignature(le32(b, off)),
            fixed_errata_mask: le32(b, off + 4),
            fixed_errata_compare: le32(b, off + 8),
            equiv_id: le16(b, off + 12),
            reserved: le16(b, off + 14),
            offset: off as u64,
        }
    }

    /// The entry in the order of the file.
    pub open spec fn encode(self) -> Seq<u8> {
        le32_bytes(self.installed_cpu.0) + le32_bytes(self.fixed_errata_mask) + le32_bytes(
            self.fixed_errata_compare,
        ) + le16_bytes(self.equiv_id) + le16_bytes(self.reserved)
    }

    /// The all-zero entry ends a table.
    pub open spec fn is_terminator(self) -> bool {
        self.installed_cpu.0 == 0 && self.equiv_id == 0
    }

    pub fn raw_bytes(&self) -> (r: [u8; 16])
        ensures
            r@ == self.encode(),
    {
        let cpu = u32_to_le(self.installed_cpu.0);
        let mask = u32_to_le(self.fixed_errata_mask);
        let errata = u32_to_le(self.fixed_errata_compare);
        let id = u16_to_le(self.equiv_id);
        let res = u16_to_le(self.reserved);
        let r = [
            cpu[0],
            cpu[1],
            cpu[2],
            cpu[3],
            mask[0],
            mask[1],
            mask[2],
            mask[3],
            errata[0],
            errata[1],
            errata[2],
            errata[3],
            id[0],
            id[1],
            res[0],
            res[1],
        ];
        assert(r@ =~= cpu@ + mask@ + errata@ + id@ + res@);
        r
    }
}

// --- the equivalence table --------------------------------------------------------

#[derive(Debug)]
pub struct EquivalenceTable {
    pub entries: Vec<EquivalenceEntry>,
}

impl View for EquivalenceTable {
    type V = Seq<EquivalenceEntry>;

    open spec fn view(&self) -> Seq<EquivalenceEntry> {
        self.entries@
    }
}

impl Clone for EquivalenceTable {
    fn clone(&self) -> (r: Self)
        ensures
            r@ == self@,
    {
        EquivalenceTable { entries: vstd::slice::slice_to_vec(self.entries.as_slice()) }
    }
}

impl Default for EquivalenceTable {
    fn default() -> (r: Self)
        ensures
            r@ == Seq::<EquivalenceEntry>::empty(),
    {
        EquivalenceTable { entries: Vec::new() }
    }
}

/// The equivalence id of the first entry for a processor.
pub open spec fn id_for(table: Seq<EquivalenceEntry>, sig: CpuSignature) -> Option<u16>
    decreases table.len(),
{
    if table.len() == 0 {
        None
    } else if table[0].installed_cpu == sig && table[0].equiv_id != 0 {
        Some(table[0].equiv_id)
    } else {
        id_for(table.drop_first(), sig)
    }
}

/// The processors with an equivalence id, in the order of the table.
pub open spec fn cpus_with(table: Seq<EquivalenceEntry>, id: u16) -> Seq<CpuSignature>
    decreases table.len(),
{
    if table.len() == 0 {
        Seq::empty()
    } else {
        let front = cpus_with(table.drop_last(), id);
        if table.last().equiv_id == id {
            front.push(table.last().installed_cpu)
        } else {
            front
        }
    }
}

/// The numeric order of signatures.
pub struct BySignature;

impl Ranking<CpuSignature> for BySignature {
    open spec fn less(a: CpuSignature, b: CpuSignature) -> bool {
        a.0 < b.0
    }

    proof fn irreflexive(a: CpuSignature) {
    }

    proof fn transitive(a: CpuSignature, b: CpuSignature, c: CpuSignature) {
    }

    proof fn weak(a: CpuSignature, b: CpuSignature, c: CpuSignature) {
    }
}

impl Order<CpuSignature> for BySignature {
    fn is_less(a: &CpuSignature, b: &CpuSignature) -> (r: bool) {
        a.0 < b.0
    }
}

/// The processors with an equivalence id, in ascending order, each once.
pub open spec fn signatures_with(table: Seq<EquivalenceEntry>, id: u16) -> Seq<CpuSignature> {
    dedup_by(
        sort_by(cpus_with(table, id), order_of::<CpuSignature, BySignature>()),
        equal::<CpuSignature>(),
    )
}

fn dedup_signatures(v: Vec<CpuSignature>) -> (r: Vec<CpuSignature>)
    ensures
        r@ == dedup_by(v@, equal::<CpuSignature>()),
{
    let mut out: Vec<CpuSignature> = Vec::new();
    let mut i: usize = 0;
    while i < v.len()
        invariant
            i <= v@.len(),
            out@ == dedup_by(v@.take(i as int), equal::<CpuSignature>()),
        decreases v@.len() - i,
    {
        assert(v@.take(i + 1).drop_last() =~= v@.take(i as int));
        assert(v@.take(i + 1).last() == v@[i as int]);
        let n: usize = out.len();
        if n > 0 && v[i] == out[n - 1] {
        } else {
            out.push(v[i]);
        }
        i = i + 1;
    }
    assert(v@.take(i as int) =~= v@);
    out
}

impl EquivalenceTable {
    /// Kernel `find_equiv_id()`: exact match on the raw CPUID value.
    pub fn equiv_id_for(&self, sig: CpuSignature) -> (r: Option<u16>)
        ensures
            r == id_for(self@, sig),
    {
        let mut i: usize = 0;
        assert(self@.skip(0) =~= self@);
        while i < self.entries.len()
            invariant
                i <= self@.len(),
                id_for(self@, sig) == id_for(self@.skip(i as int), sig),
            decreases self@.len() - i,
        {
            let e = self.entries[i];
            if e.installed_cpu == sig && e.equiv_id != 0 {
                return Some(e.equiv_id);
            }
            assert(self@.skip(i as int).drop_first() =~= self@.skip(i + 1));
            i = i + 1;
        }
        None
    }

    pub fn signatures_for(&self, equiv_id: u16) -> (r: Vec<CpuSignature>)
        ensures
            r@ == signatures_with(self@, equiv_id),
    {
        let mut out: Vec<CpuSignature> = Vec::new();
        let mut i: usize = 0;
        while i < self.entries.len()
            invariant
                i <= self@.len(),
                out@ == cpus_with(self@.take(i as int), equiv_id),
            decreases self@.len() - i,
        {
            assert(self@.take(i + 1).drop_last() =~= self@.take(i as int));
            assert(self@.take(i + 1).last() == self@[i as int]);
            if self.entries[i].equiv_id == equiv_id {
                out.push(self.entries[i].installed_cpu);
            }
            i = i + 1;
        }
        assert(self@.take(i as int) =~= self@);
        dedup_signatures(sort::<CpuSignature, BySignature>(out))
    }
}

/// The entries among the first `n` slots of the table at `start`.
pub open spec fn entries_in(b: Seq<u8>, start: int, n: nat) -> Seq<EquivalenceEntry>
    decreases n,
{
    if n == 0 {
        Seq::empty()
    } else {
        let front = entries_in(b, start, (n - 1) as nat);
        let e = EquivalenceEntry::at(b, start + (n - 1) * EQUIV_ENTRY_SIZE);
        if e.is_terminator() {
            front
        } else {
            front.push(e)
        }
    }
}

/// A terminator stands among the first `n` slots of the table at `start`.
pub open spec fn terminated_in(b: Seq<u8>, start: int, n: nat) -> bool
    decreases n,
{
    n > 0 && (terminated_in(b, start, (n - 1) as nat) || EquivalenceEntry::at(
        b,
        start + (n - 1) * EQUIV_ENTRY_SIZE,
    ).is_terminator())
}

/// The first entry for a processor with the given id.
pub open spec fn first_same(table: Seq<EquivalenceEntry>, e: EquivalenceEntry) -> Option<EquivalenceEntry>
    decreases table.len(),
{
    if table.len() == 0 {
        None
    } else if table[0].installed_cpu == e.installed_cpu && table[0].equiv_id == e.equiv_id {
        Some(table[0])
    } else {
        first_same(table.drop_first(), e)
    }
}

/// The first entry for a processor, whatever its id.
pub open spec fn first_cpu(table: Seq<EquivalenceEntry>, e: EquivalenceEntry) -> Option<EquivalenceEntry>
    decreases table.len(),
{
    if table.len() == 0 {
        None
    } else if table[0].installed_cpu == e.installed_cpu {
        Some(table[0])
    } else {
        first_cpu(table.drop_first(), e)
    }
}

/// What is reported on an entry behind the given ones.
pub open spec fn entry_findings(before: Seq<EquivalenceEntry>, e: EquivalenceEntry, off: int) -> Seq<
    FindingModel,
> {
    match (first_same(before, e), first_cpu(before, e)) {
        (Some(prev), _) => seq![
            finding(
                FindingCode::DuplicateEquivalenceEntry,
                off,
                "CPUID "@ + e.installed_cpu.signature_text() + " maps to equiv id 0x"@ + hex(
                    e.equiv_id as nat,
                    4,
                ) + " more than once (first at offset "@ + dec(prev.offset as nat) + ")"@,
            ),
        ],
        (None, Some(conflict)) => seq![
            finding(
                FindingCode::ConflictingEquivalenceEntry,
                off,
                "CPUID "@ + e.installed_cpu.signature_text() + " maps to both equiv id 0x"@ + hex(
                    conflict.equiv_id as nat,
                    4,
                ) + " and 0x"@ + hex(e.equiv_id as nat, 4),
            ),
        ],
        (None, None) => Seq::empty(),
    }
}

/// Findings on the first `n` slots of the table at `start`.
pub open spec fn slot_findings(b: Seq<u8>, start: int, n: nat) -> Seq<FindingModel>
    decreases n,
{
    if n == 0 {
        Seq::empty()
    } else {
        let off = start + (n - 1) * EQUIV_ENTRY_SIZE;
        let e = EquivalenceEntry::at(b, off);
        slot_findings(b, start, (n - 1) as nat) + if e.is_terminator() {
            Seq::empty()
        } else {
            entry_findings(entries_in(b, start, (n - 1) as nat), e, off)
        }
    }
}

/// Findings on the whole table from `start` to `end`.
pub open spec fn table_findings(b: Seq<u8>, start: int, end: int) -> Seq<FindingModel> {
    let n = ((end - start) / 16) as nat;
    slot_findings(b, start, n) + given(
        !terminated_in(b, start, n),
        finding(
            FindingCode::EquivalenceTableUnterminated,
            start,
            "equivalence table has no all-zero terminator entry; the Linux loader rejects this"@,
        ),
    )
}

fn find_same(entries: &[EquivalenceEntry], e: &EquivalenceEntry) -> (r: Option<EquivalenceEntry>)
    ensures
        r == first_same(entries@, *e),
{
    let mut i: usize = 0;
    assert(entries@.skip(0) =~= entries@);
    while i < entries.len()
        invariant
            i <= entries@.len(),
            first_same(entries@, *e) == first_same(entries@.skip(i as int), *e),
        decreases entries@.len() - i,
    {
        if entries[i].installed_cpu == e.installed_cpu && entries[i].equiv_id == e.equiv_id {
            return Some(entries[i]);
        }
        assert(entries@.skip(i as int).drop_first() =~= entries@.skip(i + 1));
        i = i + 1;
    }
    None
}

fn find_cpu(entries: &[EquivalenceEntry], e: &EquivalenceEntry) -> (r: Option<EquivalenceEntry>)
    ensures
        r == first_cpu(entries@, *e),
{
    let mut i: usize = 0;
    assert(entries@.skip(0) =~= entries@);
    while i < entries.len()
        invariant
            i <= entries@.len(),
            first_cpu(entries@, *e) == first_cpu(entries@.skip(i as int), *e),
        decreases entries@.len() - i,
    {
        if entries[i].installed_cpu == e.installed_cpu {
            return Some(entries[i]);
        }
        assert(entries@.skip(i as int).drop_first() =~= entries@.skip(i + 1));
        i = i + 1;
    }
    None
}

fn check_entry(report: &mut ValidationReport, before: &[EquivalenceEntry], e: &EquivalenceEntry, off: u64)
    ensures
        final(report)@ == old(report)@ + entry_findings(before@, *e, off as int),
{
    if let Some(prev) = find_same(before, e) {
        let mut m = "CPUID ".to_owned();
        m.append(e.installed_cpu.to_string().as_str());
        m.append(" maps to equiv id 0x");
        m.append(hex_text(e.equiv_id as u64, 4).as_str());
        m.append(" more than once (first at offset ");
        m.append(dec_text(prev.offset).as_str());
        m.append(")");
        report.push(Finding::new(FindingCode::DuplicateEquivalenceEntry, off, m.as_str()));
    } else if let Some(conflict) = find_cpu(before, e) {
        let mut m = "CPUID ".to_owned();
        m.append(e.installed_cpu.to_string().as_str());
        m.append(" maps to both equiv id 0x");
        m.append(hex_text(conflict.equiv_id as u64, 4).as_str());
        m.append(" and 0x");
        m.append(hex_text(e.equiv_id as u64, 4).as_str());
        report.push(Finding::new(FindingCode::ConflictingEquivalenceEntry, off, m.as_str()));
    }
    assert(report@ =~= old(report)@ + entry_findings(before@, *e, off as int));
}

fn read_entry(bytes: &[u8], off: usize) -> (r: EquivalenceEntry)
    requires
        off + EQUIV_ENTRY_SIZE <= bytes@.len(),
    ensures
        r == EquivalenceEntry::at(bytes@, off as int),
{
    let n: usize = bytes.len();
    let slice = vstd::slice::slice_subrange(bytes, off, off + EQUIV_ENTRY_SIZE);
    match RawEquivEntry::read_from_prefix(slice) {
        Some(raw) => {
            proof {
                assert(slice@.take(16) =~= slice@);
                lemma_le32_part(bytes@, off as int, off + 16);
                lemma_le16_part(bytes@, off as int, off + 16);
                lemma_raw_entry(raw);
            }
            EquivalenceEntry {
                installed_cpu: CpuSignature(u32_from_le(raw.installed_cpu)),
                fixed_errata_mask: u32_from_le(raw.fixed_errata_mask),
                fixed_errata_compare: u32_from_le(raw.fixed_errata_compare),
                equiv_id: u16_from_le(raw.equiv_cpu),
                reserved: u16_from_le(raw.reserved),
                offset: off as u64,
            }
        },
        None => {
            assert(false);
            EquivalenceEntry {
                installed_cpu: CpuSignature(0),
                fixed_errata_mask: 0,
                fixed_errata_compare: 0,
                equiv_id: 0,
                reserved: 0,
                offset: off as u64,
            }
        },
    }
}

proof fn lemma_raw_entry(raw: RawEquivEntry)
    ensures
        le32(raw.installed_cpu@, 0) == le32(raw.bytes(), 0),
        le32(raw.fixed_errata_mask@, 0) == le32(raw.bytes(), 4),
        le32(raw.fixed_errata_compare@, 0) == le32(raw.bytes(), 8),
        le16(raw.equiv_cpu@, 0) == le16(raw.bytes(), 12),
        le16(raw.reserved@, 0) == le16(raw.bytes(), 14),
{
    reveal(le32);
    reveal(le16);
}

fn parse_equivalence_table(bytes: &[u8], start: usize, end: usize, report: &mut ValidationReport) -> (r:
    EquivalenceTable)
    requires
        start <= end <= bytes@.len(),
    ensures
        r@ == entries_in(bytes@, start as int, ((end - start) / 16) as nat),
        final(report)@ == old(report)@ + table_findings(bytes@, start as int, end as int),
{
    let n: usize = (end - start) / EQUIV_ENTRY_SIZE;
    let len: usize = bytes.len();
    let mut entries: Vec<EquivalenceEntry> = Vec::new();
    let mut terminated = false;
    let mut i: usize = 0;
    while i < n
        invariant
            i <= n,
            n == (end - start) / 16,
            start <= end <= len,
            len == bytes@.len(),
            entries@ == entries_in(bytes@, start as int, i as nat),
            terminated == terminated_in(bytes@, start as int, i as nat),
            report@ =~= old(report)@ + slot_findings(bytes@, start as int, i as nat),
        decreases n - i,
    {
        assert(i * 16 + 16 <= n * 16);
        let off: usize = start + i * EQUIV_ENTRY_SIZE;
        let e = read_entry(bytes, off);
        if e.installed_cpu.0 == 0 && e.equiv_id == 0 {
            terminated = true;
        } else {
            check_entry(report, entries.as_slice(), &e, off as u64);
            entries.push(e);
        }
        i = i + 1;
    }
    if !terminated {
        report.push(
            Finding::new(
                FindingCode::EquivalenceTableUnterminated,
                start as u64,
                "equivalence table has no all-zero terminator entry; the Linux loader rejects this",
            ),
        );
    }
    assert(report@ =~= old(report)@ + table_findings(bytes@, start as int, end as int));
    EquivalenceTable { entries }
}

// --- patches ----------------------------------------------------------------------

#[derive(Debug)]
pub struct AmdPatch {
    pub header: AmdPatchHeader,
    /// Offset of the patch *payload* (i.e. of the 64-byte patch header),
    /// excluding the 8-byte section header.
    pub offset: u64,
    /// Declared section size = header + payload.
    pub size: u32,
    /// CPU signatures resolved through the equivalence table.
    pub signatures: Vec<CpuSignature>,
    pub report: ValidationReport,
    pub sha256: [u8; 32],
}

/// The contents of an [`AmdPatch`].
#[verifier::ext_equal]
pub struct AmdPatchModel {
    pub header: PatchHeaderModel,
    pub offset: u64,
    pub size: u32,
    pub signatures: Seq<CpuSignature>,
    pub report: Seq<FindingModel>,
    pub sha256: Seq<u8>,
}

impl View for AmdPatch {
    type V = AmdPatchModel;

    open spec fn view(&self) -> AmdPatchModel {
        AmdPatchModel {
            header: self.header@,
            offset: self.offset,
            size: self.size,
            signatures: self.signatures@,
            report: self.report@,
            sha256: self.sha256@,
        }
    }
}

impl Clone for AmdPatch {
    fn clone(&self) -> (r: Self)
        ensures
            r@ == self@,
    {
        AmdPatch {
            header: self.header,
            offset: self.offset,
            size: self.size,
            signatures: vstd::slice::slice_to_vec(self.signatures.as_slice()),
            report: self.report.clone(),
            sha256: self.sha256,
        }
    }
}

impl AmdPatchModel {
    /// The vendor-neutral metadata of the patch.
    pub open spec fn meta(self, source: Seq<char>) -> PatchModel {
        PatchModel {
            vendor: Vendor::Amd,
            kind: HeaderKind::Microcode,
            revision: self.header.patch_id,
            date: UcodeDate::decode(self.header.date_raw),
            total_size: self.size,
            data_size: if self.size >= PATCH_HEADER_SIZE {
                (self.size - PATCH_HEADER_SIZE) as u32
            } else {
                0
            },
            matches: self.signatures.map_values(
                |s: CpuSignature|
                    ProcessorMatch {
                        signature: s,
                        platform_mask: PlatformMask(0),
                        equivalence_id: Some(self.header.processor_rev_id),
                        primary: true,
                    },
            ),
            runtime_update: RuntimeUpdatePolicy::Unspecified,
            min_base_revision: None,
            origin: OriginModel { source, offset: self.offset, length: self.size },
            sha256: Some(self.sha256),
        }
    }
}

impl AmdPatch {
    pub fn bytes<'b>(&self, blob: &'b [u8]) -> (r: Option<&'b [u8]>)
        ensures
            match r {
                Some(s) => slice_of(blob@, self.offset as int, self.size as int) == Some(s@),
                None => slice_of(blob@, self.offset as int, self.size as int) is None,
            },
    {
        get_slice(blob, self.offset, self.size)
    }

    pub fn to_meta(&self, source: &str) -> (r: PatchMeta)
        ensures
            r@ == self@.meta(source@),
    {
        let mut matches: Vec<ProcessorMatch> = Vec::new();
        let mut i: usize = 0;
        while i < self.signatures.len()
            invariant
                i <= self.signatures@.len(),
                matches@.len() == i,
                forall|k: int| 0 <= k < i ==> #[trigger] matches@[k] == self@.meta(source@).matches[k],
            decreases self.signatures@.len() - i,
        {
            matches.push(ProcessorMatch::amd(self.signatures[i], self.header.processor_rev_id));
            i = i + 1;
        }
        assert(matches@ =~= self@.meta(source@).matches);
        PatchMeta {
            vendor: Vendor::Amd,
            kind: HeaderKind::Microcode,
            revision: self.header.patch_id,
            date: UcodeDate::from_packed_bcd(self.header.date_raw),
            total_size: self.size,
            data_size: if self.size >= PATCH_HEADER_SIZE as u32 {
                self.size - PATCH_HEADER_SIZE as u32
            } else {
                0
            },
            matches,
            // AMD does not publish an in-container runtime-update gate.
            runtime_update: RuntimeUpdatePolicy::Unspecified,
            min_base_revision: None,
            origin: PatchOrigin { source: source.to_owned(), offset: self.offset, length: self.size },
            sha256: Some(self.sha256),
        }
    }
}

/// The patch whose payload is at `off`.
pub open spec fn patch_at(b: Seq<u8>, off: int, size: u32, table: Seq<EquivalenceEntry>) -> AmdPatchModel {
    let h = PatchHeaderModel::at(b, off);
    let signatures = signatures_with(table, h.processor_rev_id);
    AmdPatchModel {
        header: h,
        offset: off as u64,
        size,
        signatures,
        report: patch_report(h, size, off, signatures),
        sha256: sha256_of(b.subrange(off, off + size)),
    }
}

/// The patch section at `off`, whose header is all there.
#[verifier::opaque]
pub open spec fn section_at(b: Seq<u8>, off: int, table: Seq<EquivalenceEntry>, limits: Limits) -> Result<
    AmdPatchModel,
    AmdFault,
> {
    let size = le32(b, off + 4);
    let start = off + SECTION_HEADER_SIZE;
    if size > limits.max_patch_bytes {
        Err(AmdFault::LimitExceeded("patch larger than max_patch_bytes"@))
    } else if start + size > usize::MAX {
        Err(AmdFault::Malformed { offset: off + 4, reason: "patch size overflows"@ })
    } else if start + size > b.len() {
        Err(AmdFault::Truncated { offset: start, need: size as int, have: b.len() - start })
    } else if size < PATCH_HEADER_SIZE {
        Err(
            AmdFault::Malformed {
                offset: off + 4,
                reason: "patch size "@ + dec(size as nat) + " is smaller than the 64-byte header"@,
            },
        )
    } else if patch_at(b, start, size, table).signatures.len() > limits.max_signatures_per_patch {
        Err(AmdFault::LimitExceeded("equivalence entry count"@))
    } else {
        Ok(patch_at(b, start, size, table))
    }
}

/// The patches from `off` on, the findings on them, and where they end.
pub open spec fn sections_from(
    b: Seq<u8>,
    off: int,
    table: Seq<EquivalenceEntry>,
    limits: Limits,
    patches: Seq<AmdPatchModel>,
    report: Seq<FindingModel>,
) -> Result<(Seq<AmdPatchModel>, Seq<FindingModel>, int), AmdFault>
    decreases b.len() - off,
{
    let kind = le32(b, off);
    if off < 0 || off >= b.len() || has_bytes_at(b, off, magic()) {
        Ok((patches, report, off))
    } else if b.len() - off < SECTION_HEADER_SIZE {
        if zero_from(b, off) {
            Ok((patches, report, b.len() as int))
        } else {
            Ok(
                (
                    patches,
                    report.push(
                        finding(
                            FindingCode::TrailingGarbage,
                            off,
                            "incomplete section header at end of container"@,
                        ),
                    ),
                    b.len() as int,
                ),
            )
        }
    } else if kind != SECTION_TYPE_PATCH {
        Ok(
            (
                patches,
                report.push(
                    finding(
                        FindingCode::UnknownSectionType,
                        off,
                        "unknown section type 0x"@ + hex(kind as nat, 8) + "; stopping"@,
                    ),
                ),
                off,
            ),
        )
    } else {
        proof {
            reveal(section_at);
        }
        match section_at(b, off, table, limits) {
            Err(e) => Err(e),
            Ok(patch) => sections_from(
                b,
                off + SECTION_HEADER_SIZE + le32(b, off + 4),
                table,
                limits,
                patches.push(patch),
                report,
            ),
        }
    }
}

// --- containers -------------------------------------------------------------------

/// One `DMA\0` container. A file may hold several.
#[derive(Debug)]
pub struct AmdContainer {
    pub offset: u64,
    pub length: u64,
    pub equivalence: EquivalenceTable,
    pub patches: Vec<AmdPatch>,
    pub report: ValidationReport,
}

/// The contents of an [`AmdContainer`].
#[verifier::ext_equal]
pub struct ContainerModel {
    pub offset: u64,
    pub length: u64,
    pub equivalence: Seq<EquivalenceEntry>,
    pub patches: Seq<AmdPatchModel>,
    pub report: Seq<FindingModel>,
}

pub open spec fn patches_view(v: Seq<AmdPatch>) -> Seq<AmdPatchModel> {
    v.map_values(|p: AmdPatch| p@)
}

impl View for AmdContainer {
    type V = ContainerModel;

    open spec fn view(&self) -> ContainerModel {
        ContainerModel {
            offset: self.offset,
            length: self.length,
            equivalence: self.equivalence@,
            patches: patches_view(self.patches@),
            report: self.report@,
        }
    }
}

pub open spec fn containers_view(v: Seq<AmdContainer>) -> Seq<ContainerModel> {
    v.map_values(|c: AmdContainer| c@)
}

/// The container at `start`.
#[verifier::opaque]
pub open spec fn container_at(b: Seq<u8>, start: int, limits: Limits) -> Result<ContainerModel, AmdFault> {
    let kind = le32(b, start + 4);
    let len = le32(b, start + 8);
    let table_start = start + CONTAINER_HEADER_SIZE;
    let table_end = table_start + len;
    if b.len() - start < CONTAINER_HEADER_SIZE {
        Err(
            AmdFault::Truncated {
                offset: start,
                need: CONTAINER_HEADER_SIZE as int,
                have: b.len() - start,
            },
        )
    } else if kind != SECTION_TYPE_EQUIV_TABLE {
        Err(
            AmdFault::Malformed {
                offset: start + 4,
                reason: "first section type is 0x"@ + hex(kind as nat, 8) + ", expected 0"@,
            },
        )
    } else if table_end > usize::MAX {
        Err(AmdFault::Malformed { offset: start + 8, reason: "equivalence table length overflows"@ })
    } else if table_end > b.len() {
        Err(AmdFault::Truncated { offset: table_start, need: len as int, have: b.len() - table_start })
    } else {
        let table = entries_in(b, table_start, (len / 16) as nat);
        let report = given(
            len % 16 != 0,
            finding(
                FindingCode::BadTotalSize,
                start + 8,
                "equivalence table length "@ + dec(len as nat) + " is not a multiple of 16"@,
            ),
        ) + table_findings(b, table_start, table_end);
        match sections_from(b, table_end, table, limits, Seq::empty(), report) {
            Err(e) => Err(e),
            Ok((patches, report, end)) => Ok(
                ContainerModel {
                    offset: start as u64,
                    length: (end - start) as u64,
                    equivalence: table,
                    patches,
                    report,
                },
            ),
        }
    }
}

proof fn lemma_sections_end(
    b: Seq<u8>,
    off: int,
    table: Seq<EquivalenceEntry>,
    limits: Limits,
    patches: Seq<AmdPatchModel>,
    report: Seq<FindingModel>,
)
    requires
        0 <= off <= b.len(),
    ensures
        sections_from(b, off, table, limits, patches, report) matches Ok((_, _, end)) ==> off <= end
            <= b.len(),
    decreases b.len() - off,
{
    reveal(section_at);
    if off < b.len() && !has_bytes_at(b, off, magic()) && b.len() - off >= SECTION_HEADER_SIZE && le32(
        b,
        off,
    ) == SECTION_TYPE_PATCH {
        if let Ok(patch) = section_at(b, off, table, limits) {
            lemma_sections_end(
                b,
                off + SECTION_HEADER_SIZE + le32(b, off + 4),
                table,
                limits,
                patches.push(patch),
                report,
            );
        }
    }
}

/// A container lies inside the blob.
pub proof fn lemma_container_length(b: Seq<u8>, start: int, limits: Limits)
    requires
        0 <= start <= b.len(),
    ensures
        container_at(b, start, limits) matches Ok(c) ==> c.length as int <= b.len() - start,
{
    reveal(container_at);
    if let Ok(c) = container_at(b, start, limits) {
        let len = le32(b, start + 8);
        let table_start = start + CONTAINER_HEADER_SIZE;
        let report = given(
            len % 16 != 0,
            finding(
                FindingCode::BadTotalSize,
                start + 8,
                "equivalence table length "@ + dec(len as nat) + " is not a multiple of 16"@,
            ),
        ) + table_findings(b, table_start, table_start + len);
        lemma_sections_end(
            b,
            table_start + len,
            entries_in(b, table_start, (len / 16) as nat),
            limits,
            Seq::empty(),
            report,
        );
    }
}

/// The last container with one more finding.
pub open spec fn with_tail(cs: Seq<ContainerModel>, f: FindingModel) -> Seq<ContainerModel> {
    if cs.len() == 0 {
        cs
    } else {
        cs.drop_last().push(ContainerModel { report: cs.last().report.push(f), ..cs.last() })
    }
}

/// The containers from `off` on, behind the ones so far, of which the patches
/// have been counted.
pub open spec fn containers_from(
    b: Seq<u8>,
    off: int,
    limits: Limits,
    containers: Seq<ContainerModel>,
    count: int,
) -> Result<Seq<ContainerModel>, AmdFault>
    decreases b.len() - off,
{
    if off < 0 || off >= b.len() {
        Ok(containers)
    } else if !has_bytes_at(b, off, magic()) {
        if zero_from(b, off) {
            Ok(containers)
        } else {
            Ok(
                with_tail(
                    containers,
                    finding(
                        FindingCode::TrailingGarbage,
                        off,
                        ""@ + dec((b.len() - off) as nat) + " trailing bytes are not a new container"@,
                    ),
                ),
            )
        }
    } else {
        proof {
            lemma_container_length(b, off, limits);
        }
        match container_at(b, off, limits) {
            Err(e) => Err(e),
            Ok(c) => if count + c.patches.len() > limits.max_patches {
                Err(AmdFault::LimitExceeded("too many patches"@))
            } else if c.length > 0 {
                containers_from(
                    b,
                    off + c.length,
                    limits,
                    containers.push(c),
                    count + c.patches.len(),
                )
            } else {
                Err(AmdFault::Malformed { offset: off, reason: "container consumed zero bytes"@ })
            },
        }
    }
}

/// What parsing a blob yields.
pub open spec fn containers_of(b: Seq<u8>, limits: Limits) -> Result<Seq<ContainerModel>, AmdFault> {
    if b.len() > limits.max_blob_bytes {
        Err(AmdFault::LimitExceeded("blob larger than max_blob_bytes"@))
    } else if !has_bytes_at(b, 0, magic()) {
        Err(AmdFault::NotAmdFormat)
    } else {
        containers_from(b, 0, limits, Seq::empty(), 0)
    }
}

fn parse_section(bytes: &[u8], cursor: usize, table: &EquivalenceTable, limits: &Limits) -> (r: Result<
    AmdPatch,
    AmdError,
>)
    requires
        cursor + SECTION_HEADER_SIZE <= bytes@.len(),
    ensures
        match r {
            Ok(p) => section_at(bytes@, cursor as int, table@, *limits) == Ok::<_, AmdFault>(p@) && cursor
                + SECTION_HEADER_SIZE + le32(bytes@, cursor + 4) <= bytes@.len() && p.size == le32(
                bytes@,
                cursor + 4,
            ),
            Err(e) => section_at(bytes@, cursor as int, table@, *limits) == Err::<AmdPatchModel, _>(e@),
        },
{
    reveal(section_at);
    let n: usize = bytes.len();
    let size = get_le32(bytes, cursor + 4);
    if size > limits.max_patch_bytes {
        return Err(AmdError::LimitExceeded("patch larger than max_patch_bytes"));
    }
    let start: usize = cursor + SECTION_HEADER_SIZE;
    let end: usize = match start.checked_add(size as usize) {
        Some(end) => end,
        None => {
            return Err(
                AmdError::Malformed {
                    offset: cursor as u64 + 4,
                    reason: "patch size overflows".to_owned(),
                },
            );
        },
    };
    if end > n {
        return Err(
            AmdError::Truncated { offset: start as u64, need: size as usize, have: n - start },
        );
    }
    if (size as usize) < PATCH_HEADER_SIZE {
        return Err(
            AmdError::Malformed {
                offset: cursor as u64 + 4,
                reason: around_dec(
                    "patch size ",
                    size as u64,
                    " is smaller than the 64-byte header",
                ),
            },
        );
    }
    let payload = vstd::slice::slice_subrange(bytes, start, end);
    proof {
        lemma_patch_header_part(bytes@, start as int, end as int);
    }
    let header = match AmdPatchHeader::parse(payload) {
        Ok(h) => h,
        Err(e) => {
            assert(false);
            return Err(e);
        },
    };
    let signatures = table.signatures_for(header.processor_rev_id);
    if signatures.len() as u64 > limits.max_signatures_per_patch as u64 {
        return Err(AmdError::LimitExceeded("equivalence entry count"));
    }
    let report = validate_patch(&header, size, start as u64, signatures.as_slice());
    let digest = sha256(payload);
    let patch = AmdPatch { header, offset: start as u64, size, signatures, report, sha256: digest };
    assert(patch@ =~= patch_at(bytes@, start as int, size, table@));
    Ok(patch)
}

impl AmdContainer {
    pub fn looks_like_amd(bytes: &[u8]) -> (r: bool)
        ensures
            r == has_bytes_at(bytes@, 0, magic()),
    {
        magic_at(bytes, 0)
    }

    /// Parse every container present in `bytes`.
    pub fn parse_all(bytes: &[u8], limits: &Limits) -> (r: Result<Vec<AmdContainer>, AmdError>)
        ensures
            match r {
                Ok(v) => containers_of(bytes@, *limits) == Ok::<_, AmdFault>(containers_view(v@)),
                Err(e) => containers_of(bytes@, *limits) == Err::<Seq<ContainerModel>, _>(e@),
            },
    {
        let n: usize = bytes.len();
        if n as u64 > limits.max_blob_bytes {
            return Err(AmdError::LimitExceeded("blob larger than max_blob_bytes"));
        }
        if !AmdContainer::looks_like_amd(bytes) {
            return Err(AmdError::NotAmdFormat);
        }
        let mut containers: Vec<AmdContainer> = Vec::new();
        let mut cursor: usize = 0;
        let mut total_patches: u64 = 0;
        assert(containers_view(containers@) =~= Seq::empty());
        while cursor < n
            invariant
                n == bytes@.len(),
                cursor <= n,
                total_patches <= cursor,
                containers_of(bytes@, *limits) == containers_from(
                    bytes@,
                    cursor as int,
                    *limits,
                    containers_view(containers@),
                    total_patches as int,
                ),
            decreases n - cursor,
        {
            if !magic_at(bytes, cursor) {
                // Trailing bytes that are not a new container.
                let ghost before = containers_view(containers@);
                if !all_zero_from(bytes, cursor) {
                    if let Some(last) = containers.pop() {
                        let mut c = last;
                        let ghost rest = containers@;
                        assert(containers_view(rest) =~= before.drop_last());
                        c.report.push(
                            Finding::new(
                                FindingCode::TrailingGarbage,
                                cursor as u64,
                                around_dec(
                                    "",
                                    (n - cursor) as u64,
                                    " trailing bytes are not a new container",
                                ).as_str(),
                            ),
                        );
                        containers.push(c);
                        assert(containers_view(containers@) =~= containers_view(rest).push(c@));
                        assert(c@ =~= (ContainerModel {
                            report: c.report@,
                            ..before.last()
                        }));
                    }
                }
                return Ok(containers);
            }
            let (container, consumed) = match AmdContainer::parse_one(bytes, cursor, limits) {
                Ok(pair) => pair,
                Err(e) => {
                    return Err(e);
                },
            };
            total_patches = total_patches + container.patches.len() as u64;
            if total_patches > limits.max_patches as u64 {
                return Err(AmdError::LimitExceeded("too many patches"));
            }
            let ghost before = containers@;
            containers.push(container);
            assert(containers_view(containers@) =~= containers_view(before).push(container@));
            cursor = cursor + consumed;
        }
        Ok(containers)
    }

    fn parse_one(bytes: &[u8], start: usize, limits: &Limits) -> (r: Result<(AmdContainer, usize), AmdError>)
        requires
            start < bytes@.len(),
        ensures
            match r {
                Ok((c, consumed)) => {
                    &&& container_at(bytes@, start as int, *limits) == Ok::<_, AmdFault>(c@)
                    &&& consumed == c.length
                    &&& 0 < consumed <= bytes@.len() - start
                    &&& c.patches@.len() <= consumed
                },
                Err(e) => container_at(bytes@, start as int, *limits) == Err::<ContainerModel, _>(e@),
            },
    {
        reveal(container_at);
        let n: usize = bytes.len();
        let mut report = ValidationReport::default();
        if n - start < CONTAINER_HEADER_SIZE {
            return Err(
                AmdError::Truncated {
                    offset: start as u64,
                    need: CONTAINER_HEADER_SIZE,
                    have: n - start,
                },
            );
        }
        let table_type = get_le32(bytes, start + 4);
        let table_len = get_le32(bytes, start + 8);
        if table_type != SECTION_TYPE_EQUIV_TABLE {
            return Err(
                AmdError::Malformed {
                    offset: start as u64 + 4,
                    reason: around_hex8("first section type is 0x", table_type, ", expected 0"),
                },
            );
        }
        let table_start: usize = start + CONTAINER_HEADER_SIZE;
        let table_end: usize = match table_start.checked_add(table_len as usize) {
            Some(end) => end,
            None => {
                return Err(
                    AmdError::Malformed {
                        offset: start as u64 + 8,
                        reason: "equivalence table length overflows".to_owned(),
                    },
                );
            },
        };
        if table_end > n {
            return Err(
                AmdError::Truncated {
                    offset: table_start as u64,
                    need: table_len as usize,
                    have: n - table_start,
                },
            );
        }
        if table_len % 16 != 0 {
            report.push(
                Finding::new(
                    FindingCode::BadTotalSize,
                    start as u64 + 8,
                    around_dec(
                        "equivalence table length ",
                        table_len as u64,
                        " is not a multiple of 16",
                    ).as_str(),
                ),
            );
        }
        let ghost sized = report@;
        let equivalence = parse_equivalence_table(bytes, table_start, table_end, &mut report);
        let ghost tabled = report@;
        // --- patch sections ---
        let mut patches: Vec<AmdPatch> = Vec::new();
        let mut cursor: usize = table_end;
        assert(patches_view(patches@) =~= Seq::empty());
        let ghost all = sections_from(
            bytes@,
            table_end as int,
            equivalence@,
            *limits,
            Seq::empty(),
            tabled,
        );
        let mut done = false;
        while cursor < n && !done
            invariant
                n == bytes@.len(),
                table_end <= cursor <= n,
                patches@.len() <= cursor - table_end,
                !done ==> all == sections_from(
                    bytes@,
                    cursor as int,
                    equivalence@,
                    *limits,
                    patches_view(patches@),
                    report@,
                ),
                done ==> all == Ok::<_, AmdFault>((patches_view(patches@), report@, cursor as int)),
                all is Err ==> container_at(bytes@, start as int, *limits) == Err::<ContainerModel, _>(
                    all->Err_0,
                ),
            decreases n - cursor, if done { 0int } else { 1 },
        {
            if magic_at(bytes, cursor) {
                // Next container.
                done = true;
            } else if n - cursor < SECTION_HEADER_SIZE {
                if !all_zero_from(bytes, cursor) {
                    report.push(
                        Finding::new(
                            FindingCode::TrailingGarbage,
                            cursor as u64,
                            "incomplete section header at end of container",
                        ),
                    );
                }
                cursor = n;
                done = true;
            } else {
                let sec_type = get_le32(bytes, cursor);
                if sec_type != SECTION_TYPE_PATCH {
                    report.push(
                        Finding::new(
                            FindingCode::UnknownSectionType,
                            cursor as u64,
                            around_hex8("unknown section type 0x", sec_type, "; stopping").as_str(),
                        ),
                    );
                    done = true;
                } else {
                    match parse_section(bytes, cursor, &equivalence, limits) {
                        Ok(patch) => {
                            let ghost before = patches@;
                            cursor = cursor + SECTION_HEADER_SIZE + patch.size as usize;
                            patches.push(patch);
                            assert(patches_view(patches@) =~= patches_view(before).push(patch@));
                        },
                        Err(e) => {
                            return Err(e);
                        },
                    }
                }
            }
        }
        let container = AmdContainer {
            offset: start as u64,
            length: (cursor - start) as u64,
            equivalence,
            patches,
            report,
        };
        Ok((container, cursor - start))
    }
}

fn magic_at(bytes: &[u8], off: usize) -> (r: bool)
    ensures
        r == has_bytes_at(bytes@, off as int, magic()),
{
    let pat: [u8; 4] = UCODE_MAGIC_BYTES;
    assert(pat@ =~= magic());
    bytes_at(bytes, off, pat.as_slice())
}

// --- laws -------------------------------------------------------------------------

proof fn lemma_cpus_with(table: Seq<EquivalenceEntry>, id: u16, sig: CpuSignature)
    ensures
        cpus_with(table, id).contains(sig) <==> exists|i: int|
            0 <= i < table.len() && (#[trigger] table[i]).equiv_id == id && table[i].installed_cpu == sig,
    decreases table.len(),
{
    if table.len() > 0 {
        let front = table.drop_last();
        let t = cpus_with(front, id);
        let u = cpus_with(table, id);
        lemma_cpus_with(front, id, sig);
        if u.contains(sig) {
            let k = choose|k: int| 0 <= k < u.len() && u[k] == sig;
            if k < t.len() {
                assert(t[k] == sig);
                let i = choose|i: int|
                    0 <= i < front.len() && (#[trigger] front[i]).equiv_id == id && front[i].installed_cpu
                        == sig;
                assert(table[i].equiv_id == id);
            } else {
                assert(table[table.len() - 1].equiv_id == id);
            }
        }
        if exists|i: int|
            0 <= i < table.len() && (#[trigger] table[i]).equiv_id == id && table[i].installed_cpu == sig {
            let i = choose|i: int|
                0 <= i < table.len() && (#[trigger] table[i]).equiv_id == id && table[i].installed_cpu == sig;
            if i < front.len() {
                assert(front[i].equiv_id == id);
                let k = choose|k: int| 0 <= k < t.len() && t[k] == sig;
                assert(u[k] == sig);
            } else {
                assert(u[u.len() - 1] == sig);
            }
        }
    }
}

/// The signatures of an equivalence id are exactly the processors that the
/// table maps to it, in ascending order, each once.
pub proof fn law_signatures_of_an_id(table: Seq<EquivalenceEntry>, id: u16, sig: CpuSignature)
    ensures
        signatures_with(table, id).contains(sig) <==> exists|i: int|
            0 <= i < table.len() && (#[trigger] table[i]).equiv_id == id && table[i].installed_cpu == sig,
        forall|i: int, j: int|
            0 <= i < j < signatures_with(table, id).len() ==> (#[trigger] signatures_with(table, id)[i]).0
                < (#[trigger] signatures_with(table, id)[j]).0,
{
    let less = order_of::<CpuSignature, BySignature>();
    let found = cpus_with(table, id);
    let sorted = sort_by(found, less);
    lemma_cpus_with(table, id, sig);
    lemma_sort_members(found, less);
    law_sort_sorts::<CpuSignature, BySignature>(found);
    law_dedup_keeps_members(sorted);
    law_dedup_is_strict::<CpuSignature, BySignature>(sorted);
    assert(sorted.contains(sig) <==> found.contains(sig));
    assert(signatures_with(table, id).contains(sig) <==> sorted.contains(sig));
    assert forall|i: int, j: int| 0 <= i < j < signatures_with(table, id).len() implies (
    #[trigger] signatures_with(table, id)[i]).0 < (#[trigger] signatures_with(table, id)[j]).0 by {
        assert(BySignature::less(signatures_with(table, id)[i], signatures_with(table, id)[j]));
    }
}

} // verus!
