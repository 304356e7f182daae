//! Deterministic AMD containers from selected patches.

use vstd::prelude::*;
use crate::amd::container::{
    container_at, containers_from, containers_of, cpus_with, entries_in, entry_findings, first_cpu,
    first_same, patch_at, section_at, sections_from, signatures_with, slot_findings, table_findings,
    terminated_in, AmdPatchModel, EquivalenceEntry,
};
use crate::amd::error::{AmdError, AmdFault};
use crate::amd::header::{
    lemma_patch_header_part, magic, PatchHeaderModel, PATCH_HEADER_SIZE, SECTION_TYPE_EQUIV_TABLE,
    SECTION_TYPE_PATCH, UCODE_MAGIC_BYTES,
};
use crate::amd::validate::patch_report;
use crate::bytes::{
    bytes_eq, has_bytes_at, law_le16_round_trip, law_le32_round_trip, le16_bytes, le32, le32_bytes, put_bytes,
    put_le32, slice_of,
};
use crate::digest::sha256_of;
use crate::intel::validate::given;
use crate::model::cpu::CpuSignature;
use crate::model::limits::Limits;
use crate::model::validate::{any_error, finding, FindingCode, FindingModel, Severity};
use crate::number::dec;
use crate::order::{dedup_by, equal, lemma_sort_map, order_of, sort, sort_by, Order, Ranking};

verus! {

/// One patch: equivalence id, patch id and payload.
pub type BuilderPatch = (u16, u32, Vec<u8>);

/// Builds a deterministic AMD container from selected patches.
///
/// Determinism rules:
///   * equivalence entries are emitted sorted by `(equiv_id, installed_cpu)`;
///   * patches are emitted sorted by `(equiv_id, patch_id)`;
///   * the table is always zero-terminated, as the kernel requires.
#[derive(Debug)]
pub struct AmdContainerBuilder {
    equivalence: Vec<EquivalenceEntry>,
    patches: Vec<BuilderPatch>,
}

/// The contents of an [`AmdContainerBuilder`].
#[verifier::ext_equal]
pub struct BuilderModel {
    /// Sorted by `(equiv_id, installed_cpu)`, no pair twice.
    pub equivalence: Seq<EquivalenceEntry>,
    /// In the order in which they were added.
    pub patches: Seq<(u16, u32, Seq<u8>)>,
}

pub open spec fn builder_patches_view(v: Seq<BuilderPatch>) -> Seq<(u16, u32, Seq<u8>)> {
    v.map_values(|p: BuilderPatch| (p.0, p.1, p.2@))
}

impl View for AmdContainerBuilder {
    type V = BuilderModel;

    closed spec fn view(&self) -> BuilderModel {
        BuilderModel {
            equivalence: self.equivalence@,
            patches: builder_patches_view(self.patches@),
        }
    }
}

/// `a` stands before `b` in the table.
pub open spec fn entry_less(a: EquivalenceEntry, b: EquivalenceEntry) -> bool {
    a.equiv_id < b.equiv_id || (a.equiv_id == b.equiv_id && a.installed_cpu.0 < b.installed_cpu.0)
}

/// The two entries map the same processor to the same id.
pub open spec fn same_key(a: EquivalenceEntry, b: EquivalenceEntry) -> bool {
    a.equiv_id == b.equiv_id && a.installed_cpu == b.installed_cpu
}

/// The table with an entry put in its place; it replaces one with its key.
pub open spec fn with_entry(table: Seq<EquivalenceEntry>, e: EquivalenceEntry) -> Seq<EquivalenceEntry>
    decreases table.len(),
{
    if table.len() == 0 || entry_less(table.last(), e) {
        table.push(e)
    } else if same_key(table.last(), e) {
        table.drop_last().push(e)
    } else {
        with_entry(table.drop_last(), e).push(table.last())
    }
}

/// Every entry stands before the ones behind it.
pub open spec fn strictly_sorted(table: Seq<EquivalenceEntry>) -> bool {
    forall|i: int, j: int|
        0 <= i < j < table.len() ==> entry_less(#[trigger] table[i], #[trigger] table[j])
}

impl BuilderModel {
    /// The table is strictly sorted.
    pub open spec fn wf(self) -> bool {
        strictly_sorted(self.equivalence)
    }
}

pub open spec fn patch_less(a: (u16, u32, Seq<u8>), b: (u16, u32, Seq<u8>)) -> bool {
    a.0 < b.0 || (a.0 == b.0 && a.1 < b.1)
}

/// The order of patches in a container.
pub struct ByPatchId;

impl Ranking<BuilderPatch> for ByPatchId {
    open spec fn less(a: BuilderPatch, b: BuilderPatch) -> bool {
        a.0 < b.0 || (a.0 == b.0 && a.1 < b.1)
    }

    proof fn irreflexive(a: BuilderPatch) {
    }

    proof fn transitive(a: BuilderPatch, b: BuilderPatch, c: BuilderPatch) {
    }

    proof fn weak(a: BuilderPatch, b: BuilderPatch, c: BuilderPatch) {
    }
}

impl Order<BuilderPatch> for ByPatchId {
    fn is_less(a: &BuilderPatch, b: &BuilderPatch) -> (r: bool) {
        a.0 < b.0 || (a.0 == b.0 && a.1 < b.1)
    }
}

/// The patches as they are written: sorted, and without neighbours that
/// repeat the one before them.
pub open spec fn emitted(patches: Seq<(u16, u32, Seq<u8>)>) -> Seq<(u16, u32, Seq<u8>)> {
    dedup_by(
        sort_by(patches, |a: (u16, u32, Seq<u8>), b: (u16, u32, Seq<u8>)| patch_less(a, b)),
        equal::<(u16, u32, Seq<u8>)>(),
    )
}

/// The entries of a table, one behind the other.
pub open spec fn table_bytes(table: Seq<EquivalenceEntry>) -> Seq<u8>
    decreases table.len(),
{
    if table.len() == 0 {
        Seq::empty()
    } else {
        table[0].encode() + table_bytes(table.drop_first())
    }
}

/// A patch section: type, size, payload.
pub open spec fn section_bytes(payload: Seq<u8>) -> Seq<u8> {
    le32_bytes(SECTION_TYPE_PATCH) + le32_bytes((payload.len() % 0x1_0000_0000) as u32) + payload
}

/// Patch sections, one behind the other.
pub open spec fn sections_bytes(patches: Seq<(u16, u32, Seq<u8>)>) -> Seq<u8>
    decreases patches.len(),
{
    if patches.len() == 0 {
        Seq::empty()
    } else {
        section_bytes(patches[0].2) + sections_bytes(patches.drop_first())
    }
}

/// Sixteen zero bytes.
pub open spec fn terminator() -> Seq<u8> {
    Seq::new(16, |i: int| 0u8)
}

/// The container up to its first patch section.
pub open spec fn head_bytes(table: Seq<EquivalenceEntry>) -> Seq<u8> {
    magic() + le32_bytes(SECTION_TYPE_EQUIV_TABLE) + le32_bytes(
        ((table.len() + 1) * 16 % 0x1_0000_0000) as u32,
    ) + table_bytes(table) + terminator()
}

/// What building yields.
pub open spec fn built(m: BuilderModel) -> Result<Seq<u8>, AmdFault> {
    if m.patches.len() == 0 {
        Err(AmdFault::Malformed { offset: 0, reason: "refusing to build an empty AMD container"@ })
    } else {
        Ok(head_bytes(m.equivalence) + sections_bytes(emitted(m.patches)))
    }
}

impl Default for AmdContainerBuilder {
    fn default() -> (r: Self)
        ensures
            r@ == (BuilderModel { equivalence: Seq::empty(), patches: Seq::empty() }),
            r@.wf(),
    {
        let r = AmdContainerBuilder { equivalence: Vec::new(), patches: Vec::new() };
        assert(r@.patches =~= Seq::empty());
        r
    }
}

fn dedup_patches(v: Vec<BuilderPatch>) -> (r: Vec<BuilderPatch>)
    ensures
        builder_patches_view(r@) == dedup_by(
            builder_patches_view(v@),
            equal::<(u16, u32, Seq<u8>)>(),
        ),
{
    let ghost all = builder_patches_view(v@);
    let ghost same = equal::<(u16, u32, Seq<u8>)>();
    let mut out: Vec<BuilderPatch> = Vec::new();
    assert(builder_patches_view(out@) =~= dedup_by(all.take(0), same));
    for p in it: v
        invariant
            it.seq() == v@,
            all == builder_patches_view(v@),
            same == equal::<(u16, u32, Seq<u8>)>(),
            builder_patches_view(out@) == dedup_by(all.take(it.index() as int), same),
    {
        let ghost k = it.index() as int;
        assert(all.take(k + 1).drop_last() =~= all.take(k));
        assert(all.take(k + 1).last() == (p.0, p.1, p.2@));
        let n: usize = out.len();
        let ghost before = out@;
        assert(n > 0 ==> builder_patches_view(before).last() == (
            before.last().0,
            before.last().1,
            before.last().2@,
        ));
        if n > 0 && p.0 == out[n - 1].0 && p.1 == out[n - 1].1 && bytes_eq(
            p.2.as_slice(),
            out[n - 1].2.as_slice(),
        ) {
        } else {
            out.push(p);
            assert(builder_patches_view(out@) =~= builder_patches_view(before).push((p.0, p.1, p.2@)));
        }
    }
    assert(all.take(all.len() as int) =~= all);
    out
}

impl AmdContainerBuilder {
    pub fn new() -> (r: Self)
        ensures
            r@ == (BuilderModel { equivalence: Seq::empty(), patches: Seq::empty() }),
            r@.wf(),
    {
        AmdContainerBuilder::default()
    }

    pub fn add_equivalence(&mut self, entry: EquivalenceEntry) -> (r: &mut Self)
        ensures
            r@ == (BuilderModel { equivalence: with_entry(old(self)@.equivalence, entry), ..old(self)@ }),
            old(self)@.wf() ==> r@.wf(),
            *final(self) == *final(r),
    {
        let ghost before = self@;
        let ghost table = self.equivalence@;
        let mut i: usize = self.equivalence.len();
        assert(table.take(i as int) =~= table);
        assert(with_entry(table, entry) =~= with_entry(table.take(i as int), entry) + table.skip(i as int));
        while i > 0 && (self.equivalence[i - 1].equiv_id > entry.equiv_id || (self.equivalence[i
            - 1].equiv_id == entry.equiv_id && self.equivalence[i - 1].installed_cpu.0
            > entry.installed_cpu.0))
            invariant
                i <= table.len(),
                self.equivalence@ == table,
                self@ == before,
                with_entry(table, entry) =~= with_entry(table.take(i as int), entry) + table.skip(i as int),
            decreases i,
        {
            assert(table.take(i as int).drop_last() =~= table.take(i - 1));
            assert(table.skip(i - 1) =~= seq![table[i - 1]] + table.skip(i as int));
            i = i - 1;
        }
        assert(i > 0 ==> table.take(i as int).drop_last() =~= table.take(i - 1));
        if i > 0 && self.equivalence[i - 1].equiv_id == entry.equiv_id && self.equivalence[i
            - 1].installed_cpu.0 == entry.installed_cpu.0 {
            self.equivalence.set(i - 1, entry);
        } else {
            self.equivalence.insert(i, entry);
        }
        assert(self.equivalence@ =~= with_entry(table, entry));
        proof {
            if before.wf() {
                lemma_with_entry_sorted(table, entry);
            }
        }
        self
    }

    pub fn add_equivalence_mapping(&mut self, sig: CpuSignature, equiv_id: u16) -> (r: &mut Self)
        ensures
            r@ == (BuilderModel {
                equivalence: with_entry(
                    old(self)@.equivalence,
                    EquivalenceEntry {
                        installed_cpu: sig,
                        fixed_errata_mask: 0,
                        fixed_errata_compare: 0,
                        equiv_id,
                        reserved: 0,
                        offset: 0,
                    },
                ),
                ..old(self)@
            }),
            old(self)@.wf() ==> r@.wf(),
            *final(self) == *final(r),
    {
        self.add_equivalence(
            EquivalenceEntry {
                installed_cpu: sig,
                fixed_errata_mask: 0,
                fixed_errata_compare: 0,
                equiv_id,
                reserved: 0,
                offset: 0,
            },
        )
    }

    /// `payload` must be the 64-byte patch header followed by its data, i.e.
    /// exactly what sits after the section header in a container.
    pub fn add_patch(&mut self, equiv_id: u16, patch_id: u32, payload: Vec<u8>) -> (r: &mut Self)
        ensures
            r@ == (BuilderModel {
                patches: old(self)@.patches.push((equiv_id, patch_id, payload@)),
                ..old(self)@
            }),
            old(self)@.wf() ==> r@.wf(),
            *final(self) == *final(r),
    {
        self.patches.push((equiv_id, patch_id, payload));
        assert(self@.patches =~= old(self)@.patches.push((equiv_id, patch_id, payload@)));
        self
    }

    pub fn is_empty(&self) -> (r: bool)
        ensures
            r == (self@.patches.len() == 0),
    {
        self.patches.len() == 0
    }

    pub fn build(self) -> (r: Result<Vec<u8>, AmdError>)
        ensures
            match r {
                Ok(b) => built(self@) == Ok::<_, AmdFault>(b@),
                Err(e) => built(self@) == Err::<Seq<u8>, _>(e@),
            },
    {
        if self.patches.len() == 0 {
            return Err(
                AmdError::Malformed {
                    offset: 0,
                    reason: "refusing to build an empty AMD container".to_owned(),
                },
            );
        }
        let ghost model = self@;
        let ghost added = self.patches@;
        let sorted = sort::<BuilderPatch, ByPatchId>(self.patches);
        proof {
            lemma_sort_map(
                added,
                |p: BuilderPatch| (p.0, p.1, p.2@),
                order_of::<BuilderPatch, ByPatchId>(),
                |a: (u16, u32, Seq<u8>), b: (u16, u32, Seq<u8>)| patch_less(a, b),
            );
        }
        let patches = dedup_patches(sorted);
        let ghost out_patches = builder_patches_view(patches@);
        assert(out_patches == emitted(model.patches));
        let table = self.equivalence;
        let table_size: u32 = table_dword(table.len());
        let mut out: Vec<u8> = Vec::new();
        let magic_bytes: [u8; 4] = UCODE_MAGIC_BYTES;
        assert(magic_bytes@ =~= magic());
        put_bytes(&mut out, magic_bytes.as_slice());
        put_le32(&mut out, SECTION_TYPE_EQUIV_TABLE);
        put_le32(&mut out, table_size);
        let ghost start = out@;
        let mut i: usize = 0;
        assert(table@.skip(0) =~= table@);
        while i < table.len()
            invariant
                i <= table@.len(),
                out@ + table_bytes(table@.skip(i as int)) =~= start + table_bytes(table@),
            decreases table@.len() - i,
        {
            let raw = table[i].raw_bytes();
            let ghost before = out@;
            assert(table@.skip(i as int).drop_first() =~= table@.skip(i + 1));
            assert(table@.skip(i as int)[0] == table@[i as int]);
            put_bytes(&mut out, raw.as_slice());
            assert(before + (raw@ + table_bytes(table@.skip(i + 1))) =~= out@ + table_bytes(
                table@.skip(i + 1),
            ));
            i = i + 1;
        }
        assert(table_bytes(table@.skip(i as int)) =~= Seq::empty());
        let zeros = [0u8; 16];
        assert(zeros@ =~= terminator());
        put_bytes(&mut out, zeros.as_slice());
        assert(out@ =~= head_bytes(table@));
        let ghost head = out@;
        let mut k: usize = 0;
        assert(out_patches.skip(0) =~= out_patches);
        while k < patches.len()
            invariant
                k <= patches@.len(),
                out_patches == builder_patches_view(patches@),
                out@ + sections_bytes(out_patches.skip(k as int)) =~= head + sections_bytes(out_patches),
            decreases patches@.len() - k,
        {
            let payload = patches[k].2.as_slice();
            let ghost before = out@;
            assert(out_patches.skip(k as int).drop_first() =~= out_patches.skip(k + 1));
            assert(out_patches.skip(k as int)[0].2 == payload@);
            put_le32(&mut out, SECTION_TYPE_PATCH);
            put_le32(&mut out, low_dword(payload.len()));
            put_bytes(&mut out, payload);
            assert(out@ =~= before + section_bytes(payload@));
            assert(before + (section_bytes(payload@) + sections_bytes(out_patches.skip(k + 1))) =~= out@
                + sections_bytes(out_patches.skip(k + 1)));
            k = k + 1;
        }
        assert(sections_bytes(out_patches.skip(k as int)) =~= Seq::empty());
        Ok(out)
    }
}

/// The low 32 bits of the size of a table with `n` entries and a terminator.
fn table_dword(n: usize) -> (r: u32)
    ensures
        r == (n + 1) * 16 % 0x1_0000_0000,
{
    let low: u64 = n as u64 % 0x1000_0000;
    ((low + 1) * 16 % 0x1_0000_0000) as u32
}

/// The low 32 bits of a length.
fn low_dword(n: usize) -> (r: u32)
    ensures
        r == n as int % 0x1_0000_0000,
{
    (n as u64 % 0x1_0000_0000) as u32
}

/// Convenience wrapper for the common "one blob out of these patches" case.
pub fn write_container(builder: AmdContainerBuilder) -> (r: Result<Vec<u8>, AmdError>)
    ensures
        match r {
            Ok(b) => built(builder@) == Ok::<_, AmdFault>(b@),
            Err(e) => built(builder@) == Err::<Seq<u8>, _>(e@),
        },
{
    builder.build()
}

// --- laws -------------------------------------------------------------------------

proof fn lemma_with_entry_sorted(table: Seq<EquivalenceEntry>, e: EquivalenceEntry)
    requires
        strictly_sorted(table),
    ensures
        strictly_sorted(with_entry(table, e)),
        with_entry(table, e).contains(e),
        forall|x: EquivalenceEntry| #[trigger]
            with_entry(table, e).contains(x) <==> (x == e || (table.contains(x) && !same_key(x, e))),
        forall|x: EquivalenceEntry|
            entry_less(e, x) && (forall|i: int| 0 <= i < table.len() ==> entry_less(#[trigger] table[i], x))
                ==> forall|i: int|
                0 <= i < with_entry(table, e).len() ==> entry_less(#[trigger] with_entry(table, e)[i], x),
    decreases table.len(),
{
    let new = with_entry(table, e);
    if table.len() == 0 || entry_less(table.last(), e) {
        assert(new == table.push(e));
        assert(new[table.len() as int] == e);
        assert forall|x: EquivalenceEntry| #[trigger] new.contains(x) <==> (x == e || (table.contains(x)
            && !same_key(x, e))) by {
            if table.contains(x) {
                let i = choose|i: int| 0 <= i < table.len() && table[i] == x;
                assert(new[i] == x);
                if i < table.len() - 1 {
                    assert(entry_less(table[i], table[table.len() - 1]));
                }
            }
        }
    } else {
        let front = table.drop_last();
        let last = table.last();
        assert forall|i: int, j: int| 0 <= i < j < front.len() implies entry_less(
            #[trigger] front[i],
            #[trigger] front[j],
        ) by {
            assert(entry_less(table[i], table[j]));
        }
        lemma_with_entry_sorted(front, e);
        if same_key(last, e) {
            assert(new == front.push(e));
            assert(new[front.len() as int] == e);
            assert forall|i: int| 0 <= i < front.len() implies entry_less(#[trigger] front[i], e) by {
                assert(entry_less(table[i], table[table.len() - 1]));
            }
            assert forall|x: EquivalenceEntry| #[trigger] new.contains(x) <==> (x == e || (
            table.contains(x) && !same_key(x, e))) by {
                if table.contains(x) && !same_key(x, e) {
                    let i = choose|i: int| 0 <= i < table.len() && table[i] == x;
                    assert(i < front.len());
                    assert(new[i] == x);
                }
                if new.contains(x) && x != e {
                    let i = choose|i: int| 0 <= i < new.len() && new[i] == x;
                    assert(table[i] == x);
                    assert(front[i] == x);
                }
            }
        } else {
            let rest = with_entry(front, e);
            assert(new == rest.push(last));
            assert(entry_less(e, last));
            assert forall|i: int| 0 <= i < front.len() implies entry_less(#[trigger] front[i], last) by {
                assert(entry_less(table[i], table[table.len() - 1]));
            }
            assert(forall|i: int| 0 <= i < rest.len() ==> entry_less(#[trigger] rest[i], last));
            assert(rest.contains(e));
            let at = choose|i: int| 0 <= i < rest.len() && rest[i] == e;
            assert(new[at] == e);
            assert forall|x: EquivalenceEntry| #[trigger] new.contains(x) <==> (x == e || (
            table.contains(x) && !same_key(x, e))) by {
                if new.contains(x) {
                    let i = choose|i: int| 0 <= i < new.len() && new[i] == x;
                    if i < rest.len() {
                        assert(rest[i] == x);
                        assert(rest.contains(x));
                        if front.contains(x) {
                            let k = choose|k: int| 0 <= k < front.len() && front[k] == x;
                            assert(table[k] == x);
                        }
                    } else {
                        assert(table[table.len() - 1] == x);
                    }
                }
                if table.contains(x) && !same_key(x, e) {
                    let i = choose|i: int| 0 <= i < table.len() && table[i] == x;
                    if i < front.len() {
                        assert(front[i] == x);
                        assert(rest.contains(x));
                        let k = choose|k: int| 0 <= k < rest.len() && rest[k] == x;
                        assert(new[k] == x);
                    } else {
                        assert(new[rest.len() as int] == x);
                    }
                }
                if x == e {
                    assert(new.contains(e));
                }
            }
            assert forall|x: EquivalenceEntry|
                entry_less(e, x) && (forall|i: int|
                    0 <= i < table.len() ==> entry_less(#[trigger] table[i], x)) implies forall|i: int|
                0 <= i < new.len() ==> entry_less(#[trigger] new[i], x) by {
                assert forall|i: int| 0 <= i < front.len() implies entry_less(#[trigger] front[i], x) by {
                    assert(entry_less(table[i], x));
                }
                assert(entry_less(table[table.len() - 1], x));
            }
        }
    }
}

/// A sorted table stays sorted when an entry is put into it. It then holds
/// that entry, and of the others those with another key.
pub proof fn law_table_is_keyed(m: BuilderModel, e: EquivalenceEntry)
    requires
        m.wf(),
    ensures
        (BuilderModel { equivalence: with_entry(m.equivalence, e), ..m }).wf(),
        forall|x: EquivalenceEntry| #[trigger]
            with_entry(m.equivalence, e).contains(x) <==> (x == e || (m.equivalence.contains(x)
                && !same_key(x, e))),
{
    lemma_with_entry_sorted(m.equivalence, e);
}

/// The entry as it is read back from slot `i`.
pub open spec fn placed_entry(e: EquivalenceEntry, i: int) -> EquivalenceEntry {
    EquivalenceEntry { offset: (12 + 16 * i) as u64, ..e }
}

/// The table as it is read back.
pub open spec fn placed(table: Seq<EquivalenceEntry>) -> Seq<EquivalenceEntry> {
    Seq::new(table.len(), |i: int| placed_entry(table[i], i))
}

/// A patch as it is read back from its payload.
pub open spec fn read_back(payload: Seq<u8>, off: int, table: Seq<EquivalenceEntry>) -> AmdPatchModel {
    let h = PatchHeaderModel::at(payload, 0);
    let signatures = signatures_with(table, h.processor_rev_id);
    AmdPatchModel {
        header: h,
        offset: off as u64,
        size: payload.len() as u32,
        signatures,
        report: patch_report(h, payload.len() as u32, off, signatures),
        sha256: sha256_of(payload),
    }
}

/// Patches as they are read back, the first section of which is at `off`.
pub open spec fn all_read_back(
    patches: Seq<(u16, u32, Seq<u8>)>,
    off: int,
    table: Seq<EquivalenceEntry>,
) -> Seq<AmdPatchModel>
    decreases patches.len(),
{
    if patches.len() == 0 {
        Seq::empty()
    } else {
        seq![read_back(patches[0].2, off + 8, table)] + all_read_back(
            patches.drop_first(),
            off + 8 + patches[0].2.len(),
            table,
        )
    }
}

proof fn lemma_table_bytes(table: Seq<EquivalenceEntry>, i: int)
    requires
        0 <= i < table.len(),
    ensures
        table_bytes(table).len() == 16 * table.len(),
        table_bytes(table).subrange(16 * i, 16 * i + 16) == table[i].encode(),
    decreases table.len(),
{
    let first = table[0].encode();
    let rest = table.drop_first();
    lemma_table_len(table);
    lemma_table_len(rest);
    assert(first.len() == 16);
    if i == 0 {
        assert(table_bytes(table).subrange(0, 16) =~= first);
    } else {
        lemma_table_bytes(rest, i - 1);
        assert(table_bytes(table).subrange(16 * i, 16 * i + 16) =~= table_bytes(rest).subrange(
            16 * (i - 1),
            16 * (i - 1) + 16,
        ));
    }
}

proof fn lemma_table_len(table: Seq<EquivalenceEntry>)
    ensures
        table_bytes(table).len() == 16 * table.len(),
    decreases table.len(),
{
    if table.len() > 0 {
        lemma_table_len(table.drop_first());
    }
}

/// An entry reads back from its bytes.
proof fn lemma_entry_round_trip(b: Seq<u8>, off: int, e: EquivalenceEntry)
    requires
        0 <= off,
        off + 16 <= b.len(),
        b.subrange(off, off + 16) == e.encode(),
    ensures
        EquivalenceEntry::at(b, off) == (EquivalenceEntry { offset: off as u64, ..e }),
{
    let s = b.subrange(off, off + 16);
    assert(b.subrange(off, off + 4) =~= s.subrange(0, 4));
    assert(b.subrange(off + 4, off + 8) =~= s.subrange(4, 8));
    assert(b.subrange(off + 8, off + 12) =~= s.subrange(8, 12));
    assert(b.subrange(off + 12, off + 14) =~= s.subrange(12, 14));
    assert(b.subrange(off + 14, off + 16) =~= s.subrange(14, 16));
    assert(s.subrange(0, 4) =~= le32_bytes(e.installed_cpu.0));
    assert(s.subrange(4, 8) =~= le32_bytes(e.fixed_errata_mask));
    assert(s.subrange(8, 12) =~= le32_bytes(e.fixed_errata_compare));
    assert(s.subrange(12, 14) =~= le16_bytes(e.equiv_id));
    assert(s.subrange(14, 16) =~= le16_bytes(e.reserved));
    law_le32_round_trip(e.installed_cpu.0, b, off);
    law_le32_round_trip(e.fixed_errata_mask, b, off + 4);
    law_le32_round_trip(e.fixed_errata_compare, b, off + 8);
    law_le16_round_trip(e.equiv_id, b, off + 12);
    law_le16_round_trip(e.reserved, b, off + 14);
}

proof fn lemma_entries_read_back(b: Seq<u8>, table: Seq<EquivalenceEntry>, n: nat)
    requires
        n <= table.len(),
        b.len() >= 12 + 16 * table.len(),
        b.subrange(12, (12 + 16 * table.len()) as int) == table_bytes(table),
        forall|i: int| 0 <= i < table.len() ==> !(#[trigger] table[i]).is_terminator(),
    ensures
        entries_in(b, 12, n) == placed(table).take(n as int),
    decreases n,
{
    if n == 0 {
        assert(entries_in(b, 12, n) =~= placed(table).take(0));
    } else {
        let i = n - 1;
        lemma_entries_read_back(b, table, i as nat);
        lemma_table_bytes(table, i);
        assert(b.subrange(12 + 16 * i, 12 + 16 * i + 16) =~= table_bytes(table).subrange(
            16 * i,
            16 * i + 16,
        ));
        lemma_entry_round_trip(b, 12 + 16 * i, table[i]);
        assert(!table[i].is_terminator());
        assert(entries_in(b, 12, n) =~= placed(table).take(n as int));
    }
}

/// The payload holds a patch header and is within the limits, and so is the
/// number of processors that the table gives it.
pub open spec fn readable_payload(
    payload: Seq<u8>,
    table: Seq<EquivalenceEntry>,
    limits: Limits,
) -> bool {
    &&& PATCH_HEADER_SIZE <= payload.len() <= limits.max_patch_bytes
    &&& signatures_with(table, PatchHeaderModel::at(payload, 0).processor_rev_id).len()
        <= limits.max_signatures_per_patch
}

/// Where the entries stand does not matter to what they map.
proof fn lemma_placed_cpus(table: Seq<EquivalenceEntry>, id: u16)
    ensures
        cpus_with(placed(table), id) == cpus_with(table, id),
    decreases table.len(),
{
    if table.len() > 0 {
        let front = table.drop_last();
        lemma_placed_cpus(front, id);
        assert(placed(table).drop_last() =~= placed(front));
    }
}

/// No processor is mapped twice.
pub open spec fn distinct_cpus(table: Seq<EquivalenceEntry>) -> bool {
    forall|i: int, j: int|
        0 <= i < j < table.len() ==> (#[trigger] table[i]).installed_cpu != (
        #[trigger] table[j]).installed_cpu
}

proof fn lemma_no_cpu(table: Seq<EquivalenceEntry>, e: EquivalenceEntry)
    requires
        forall|i: int| 0 <= i < table.len() ==> (#[trigger] table[i]).installed_cpu != e.installed_cpu,
    ensures
        first_cpu(table, e) is None,
        first_same(table, e) is None,
    decreases table.len(),
{
    if table.len() > 0 {
        let rest = table.drop_first();
        assert forall|i: int| 0 <= i < rest.len() implies (#[trigger] rest[i]).installed_cpu
            != e.installed_cpu by {
            assert(rest[i] == table[i + 1]);
        }
        assert(table[0].installed_cpu != e.installed_cpu);
        lemma_no_cpu(rest, e);
    }
}

/// The table that was written is reported on with warnings at most, and not at
/// all where no processor is mapped twice.
proof fn lemma_slots_clean(b: Seq<u8>, table: Seq<EquivalenceEntry>, n: nat)
    requires
        n <= table.len(),
        b.len() >= 12 + 16 * table.len(),
        b.subrange(12, (12 + 16 * table.len()) as int) == table_bytes(table),
        forall|i: int| 0 <= i < table.len() ==> !(#[trigger] table[i]).is_terminator(),
    ensures
        !any_error(slot_findings(b, 12, n)),
        distinct_cpus(table) ==> slot_findings(b, 12, n).len() == 0,
    decreases n,
{
    if n > 0 {
        let i = n - 1;
        lemma_slots_clean(b, table, i as nat);
        lemma_entries_read_back(b, table, i as nat);
        lemma_table_bytes(table, i);
        assert(b.subrange(12 + 16 * i, 12 + 16 * i + 16) =~= table_bytes(table).subrange(
            16 * i,
            16 * i + 16,
        ));
        lemma_entry_round_trip(b, 12 + 16 * i, table[i]);
        let off = 12 + i * 16;
        let e = EquivalenceEntry::at(b, off);
        let before = entries_in(b, 12, i as nat);
        let old = slot_findings(b, 12, i as nat);
        let new = entry_findings(before, e, off);
        assert(forall|k: int| 0 <= k < new.len() ==> (#[trigger] new[k]).severity == Severity::Warning);
        assert(slot_findings(b, 12, n) == old + new);
        assert forall|k: int| 0 <= k < (old + new).len() implies (#[trigger] (old + new)[k]).severity
            != Severity::Error by {
            if k < old.len() {
                assert((old + new)[k] == old[k]);
            } else {
                assert((old + new)[k] == new[k - old.len()]);
            }
        }
        if distinct_cpus(table) {
            assert forall|k: int| 0 <= k < before.len() implies (#[trigger] before[k]).installed_cpu
                != e.installed_cpu by {
                assert(table[k].installed_cpu != table[i].installed_cpu);
            }
            lemma_no_cpu(before, e);
        }
    }
}

proof fn lemma_section_read_back(
    pre: Seq<u8>,
    payload: Seq<u8>,
    tail: Seq<u8>,
    table: Seq<EquivalenceEntry>,
    limits: Limits,
)
    requires
        (pre + section_bytes(payload) + tail).len() <= usize::MAX,
        readable_payload(payload, table, limits),
    ensures
        ({
            let b = pre + section_bytes(payload) + tail;
            let off = pre.len() as int;
            &&& !has_bytes_at(b, off, magic())
            &&& le32(b, off) == SECTION_TYPE_PATCH
            &&& le32(b, off + 4) == payload.len()
            &&& section_at(b, off, table, limits) == Ok::<_, AmdFault>(read_back(payload, off + 8, table))
        }),
{
    let b = pre + section_bytes(payload) + tail;
    let off = pre.len() as int;
    let size = payload.len() as u32;
    assert(b.subrange(off, off + 4) =~= le32_bytes(SECTION_TYPE_PATCH));
    assert(b.subrange(off + 4, off + 8) =~= le32_bytes(size));
    law_le32_round_trip(SECTION_TYPE_PATCH, b, off);
    law_le32_round_trip(size, b, off + 4);
    assert(!has_bytes_at(b, off, magic())) by {
        let s = b.subrange(off, off + 4);
        assert(s[0] == 1);
        assert(magic()[0] == 0x44);
    }
    let start = off + 8;
    assert(b.subrange(start, start + size) =~= payload);
    lemma_patch_header_part(b, start, start + size);
    reveal(section_at);
    assert(patch_at(b, start, size, table) =~= read_back(payload, start, table));
}

proof fn lemma_sections_read_back(
    pre: Seq<u8>,
    patches: Seq<(u16, u32, Seq<u8>)>,
    table: Seq<EquivalenceEntry>,
    limits: Limits,
    done: Seq<AmdPatchModel>,
    report: Seq<FindingModel>,
)
    requires
        (pre + sections_bytes(patches)).len() <= usize::MAX,
        forall|i: int|
            0 <= i < patches.len() ==> readable_payload((#[trigger] patches[i]).2, table, limits),
    ensures
        sections_from(pre + sections_bytes(patches), pre.len() as int, table, limits, done, report) == Ok::<
            _,
            AmdFault,
        >(
            (
                done + all_read_back(patches, pre.len() as int, table),
                report,
                (pre + sections_bytes(patches)).len() as int,
            ),
        ),
    decreases patches.len(),
{
    let b = pre + sections_bytes(patches);
    let off = pre.len() as int;
    if patches.len() == 0 {
        assert(sections_bytes(patches) =~= Seq::empty());
        assert(done + all_read_back(patches, off, table) =~= done);
    } else {
        let payload = patches[0].2;
        let size = payload.len() as u32;
        let section = section_bytes(payload);
        let rest = patches.drop_first();
        assert(readable_payload(patches[0].2, table, limits));
        assert(b =~= (pre + section) + sections_bytes(rest));
        let start = off + 8;
        let patch = read_back(payload, start, table);
        lemma_section_read_back(pre, payload, sections_bytes(rest), table, limits);
        assert forall|i: int| 0 <= i < rest.len() implies readable_payload(
            (#[trigger] rest[i]).2,
            table,
            limits,
        ) by {
            assert(rest[i] == patches[i + 1]);
        }
        lemma_sections_read_back(pre + section, rest, table, limits, done.push(patch), report);
        assert(done.push(patch) + all_read_back(rest, start + size, table) =~= done + all_read_back(
            patches,
            off,
            table,
        ));
    }
}

proof fn lemma_read_back_len(
    patches: Seq<(u16, u32, Seq<u8>)>,
    off: int,
    table: Seq<EquivalenceEntry>,
)
    ensures
        all_read_back(patches, off, table).len() == patches.len(),
    decreases patches.len(),
{
    if patches.len() > 0 {
        lemma_read_back_len(patches.drop_first(), off + 8 + patches[0].2.len(), table);
    }
}

/// A patch that is read back has the bytes of its payload.
proof fn lemma_payload_in_place(
    pre: Seq<u8>,
    patches: Seq<(u16, u32, Seq<u8>)>,
    table: Seq<EquivalenceEntry>,
    limits: Limits,
    i: int,
)
    requires
        (pre + sections_bytes(patches)).len() <= usize::MAX,
        forall|k: int|
            0 <= k < patches.len() ==> readable_payload((#[trigger] patches[k]).2, table, limits),
        0 <= i < patches.len(),
    ensures
        ({
            let p = all_read_back(patches, pre.len() as int, table)[i];
            &&& i < all_read_back(patches, pre.len() as int, table).len()
            &&& slice_of(pre + sections_bytes(patches), p.offset as int, p.size as int) == Some(
                patches[i].2,
            )
        }),
    decreases patches.len(),
{
    let b = pre + sections_bytes(patches);
    let payload = patches[0].2;
    let section = section_bytes(payload);
    let rest = patches.drop_first();
    assert(readable_payload(patches[0].2, table, limits));
    assert(b =~= (pre + section) + sections_bytes(rest));
    lemma_read_back_len(patches, pre.len() as int, table);
    if i == 0 {
        let start = pre.len() + 8;
        assert(b.subrange(start as int, (start + payload.len()) as int) =~= payload);
    } else {
        assert forall|k: int| 0 <= k < rest.len() implies readable_payload(
            (#[trigger] rest[k]).2,
            table,
            limits,
        ) by {
            assert(rest[k] == patches[k + 1]);
        }
        lemma_payload_in_place(pre + section, rest, table, limits, i - 1);
    }
}

/// What is built reads back: one container with the table of the builder, in
/// ascending order of equivalence id and processor and with nothing added, and
/// the emitted patches, each with the payload that was added. The report on the
/// container holds no error, and nothing at all where no processor is mapped
/// twice. The all-zero entry cannot be in the table, since it ends one.
pub proof fn law_built_container_reads_back(m: BuilderModel, limits: Limits)
    requires
        m.patches.len() > 0,
        (m.equivalence.len() + 1) * 16 <= u32::MAX,
        forall|i: int| 0 <= i < m.equivalence.len() ==> !(#[trigger] m.equivalence[i]).is_terminator(),
        forall|i: int|
            0 <= i < emitted(m.patches).len() ==> readable_payload(
                (#[trigger] emitted(m.patches)[i]).2,
                m.equivalence,
                limits,
            ),
        (built(m)->Ok_0).len() <= limits.max_blob_bytes,
        (built(m)->Ok_0).len() <= usize::MAX,
        emitted(m.patches).len() <= limits.max_patches,
    ensures
        built(m) is Ok,
        containers_of(built(m)->Ok_0, limits) matches Ok(cs) && {
            &&& cs.len() == 1
            &&& cs[0].offset == 0
            &&& cs[0].length == (built(m)->Ok_0).len()
            &&& cs[0].equivalence == placed(m.equivalence)
            &&& m.wf() ==> strictly_sorted(cs[0].equivalence)
            &&& cs[0].patches == all_read_back(
                emitted(m.patches),
                (28 + 16 * m.equivalence.len()) as int,
                placed(m.equivalence),
            )
            &&& cs[0].patches.len() == emitted(m.patches).len()
            &&& forall|i: int|
                0 <= i < cs[0].patches.len() ==> slice_of(
                    built(m)->Ok_0,
                    (#[trigger] cs[0].patches[i]).offset as int,
                    cs[0].patches[i].size as int,
                ) == Some(emitted(m.patches)[i].2)
            &&& !any_error(cs[0].report)
            &&& distinct_cpus(m.equivalence) ==> cs[0].report.len() == 0
        },
{
    let table = m.equivalence;
    let n = table.len();
    let patches = emitted(m.patches);
    let head = head_bytes(table);
    let b = head + sections_bytes(patches);
    let size = ((n + 1) * 16) as u32;
    lemma_table_len(table);
    assert(head.len() == 28 + 16 * n);
    assert(b.subrange(0, 4) =~= magic());
    assert(b.subrange(4, 8) =~= le32_bytes(0));
    assert(b.subrange(8, 12) =~= le32_bytes(size));
    law_le32_round_trip(0, b, 4);
    law_le32_round_trip(size, b, 8);
    assert(b.subrange(12, (12 + 16 * n) as int) =~= table_bytes(table));
    lemma_entries_read_back(b, table, n);
    let last = (12 + 16 * n) as int;
    assert(EquivalenceEntry::at(b, last).is_terminator()) by {
        assert(b.subrange(last, last + 4) =~= le32_bytes(0));
        assert(b.subrange(last + 12, last + 14) =~= le16_bytes(0));
        law_le32_round_trip(0, b, last);
        law_le16_round_trip(0, b, last + 12);
    }
    assert(entries_in(b, 12, n + 1) =~= placed(table)) by {
        assert(placed(table).take(n as int) =~= placed(table));
    }
    assert(size / 16 == n + 1);
    assert(size % 16 == 0);
    let report = given(
        size % 16 != 0,
        finding(
            FindingCode::BadTotalSize,
            8,
            "equivalence table length "@ + dec(size as nat) + " is not a multiple of 16"@,
        ),
    ) + table_findings(b, 12, 12 + size);
    assert(terminated_in(b, 12, n + 1));
    lemma_slots_clean(b, table, n);
    assert(slot_findings(b, 12, n + 1) =~= slot_findings(b, 12, n));
    assert(report =~= slot_findings(b, 12, n));
    assert forall|i: int| 0 <= i < patches.len() implies readable_payload(
        (#[trigger] patches[i]).2,
        placed(table),
        limits,
    ) by {
        assert(readable_payload(emitted(m.patches)[i].2, table, limits));
        lemma_placed_cpus(table, PatchHeaderModel::at(patches[i].2, 0).processor_rev_id);
    }
    lemma_sections_read_back(head, patches, placed(table), limits, Seq::empty(), report);
    let expected = all_read_back(patches, head.len() as int, placed(table));
    assert(Seq::<AmdPatchModel>::empty() + expected =~= expected);
    lemma_read_back_len(patches, head.len() as int, placed(table));
    reveal(container_at);
    let c = container_at(b, 0, limits)->Ok_0;
    assert(container_at(b, 0, limits) is Ok);
    assert(c.patches == expected);
    assert(c.length == b.len());
    assert(c.report == report);
    assert forall|i: int| 0 <= i < c.patches.len() implies slice_of(
        b,
        (#[trigger] c.patches[i]).offset as int,
        c.patches[i].size as int,
    ) == Some(patches[i].2) by {
        lemma_payload_in_place(head, patches, placed(table), limits, i);
    }
    reveal_with_fuel(containers_from, 2);
    assert(containers_of(b, limits) == Ok::<_, AmdFault>(Seq::empty().push(c)));
}

} // verus!
