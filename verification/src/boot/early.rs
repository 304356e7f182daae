//! Building the early-load CPIO.

use vstd::prelude::*;
use crate::amd::container::EquivalenceEntry;
use crate::amd::writer::{built, with_entry, AmdContainerBuilder, BuilderModel};
use crate::archive::writer::{
    archive_bytes, dot_problem, name_problem, with_file, ArchiveModel, CpioBuilder,
};
use crate::boot::error::{BootError, BootFault};
use crate::catalog::collection::{zipped, Catalog, CatalogModel, Held};
use crate::digest::{sha256_of, sha256_text};
use crate::model::cpu::{CpuIdentity, CpuSignature, Vendor};
use crate::model::patch::{any_signature, has_signature, primary_of, PatchMeta, PatchModel, ProcessorMatch};
use crate::number::hex_bytes;
use crate::text::{contains_text, find_text, lemma_find_from, occurs_at, split_text, strings};

verus! {

/// Inputs for building an early-load CPIO.
#[derive(Debug)]
pub struct EarlyBuildInput<'a> {
    pub catalog: &'a Catalog,
    /// When set, only emit patches that match these CPUs.
    pub filter_cpus: Option<&'a [CpuIdentity]>,
    /// Emit parent directory records in the CPIO.
    pub emit_parent_dirs: bool,
    /// Prefer highest revision only (default true).
    pub best_only: bool,
}

/// Result of an early CPIO build.
#[derive(Debug)]
pub struct EarlyBuildResult {
    pub bytes: Vec<u8>,
    pub sha256: String,
    pub intel_patches: usize,
    pub amd_patches: usize,
    pub size: u64,
    pub paths: Vec<String>,
}

/// The contents of an [`EarlyBuildResult`].
#[verifier::ext_equal]
pub struct EarlyModel {
    pub bytes: Seq<u8>,
    pub sha256: Seq<char>,
    pub intel_patches: nat,
    pub amd_patches: nat,
    pub size: u64,
    pub paths: Seq<Seq<char>>,
}

impl View for EarlyBuildResult {
    type V = EarlyModel;

    open spec fn view(&self) -> EarlyModel {
        EarlyModel {
            bytes: self.bytes@,
            sha256: self.sha256@,
            intel_patches: self.intel_patches as nat,
            amd_patches: self.amd_patches as nat,
            size: self.size,
            paths: strings(self.paths@),
        }
    }
}

// --- which patches ----------------------------------------------------------------

/// The patch applies to the processor. Where the platform of the processor is
/// not known, as in an offline build, its signature decides alone.
pub open spec fn targets(p: PatchModel, cpu: CpuIdentity) -> bool {
    ||| p.applies(cpu)
    ||| cpu.platform_mask is None && cpu.vendor == p.vendor && any_signature(
        p.matches,
        cpu.signature,
    )
}

/// One of the processors is a target of the patch.
pub open spec fn targets_any(p: PatchModel, cpus: Seq<CpuIdentity>) -> bool {
    exists|i: int| 0 <= i < cpus.len() && targets(p, #[trigger] cpus[i])
}

/// The patch can be loaded, its bytes are there, and the filter lets it in.
pub open spec fn wanted(p: Held, cpus: Option<Seq<CpuIdentity>>) -> bool {
    &&& p.0.loadable()
    &&& p.1.len() > 0
    &&& match cpus {
        Some(list) => targets_any(p.0, list),
        None => true,
    }
}

/// Signature, platform mask and revision.
pub type IntelKey = (u32, u32, u32);

pub open spec fn intel_key(p: PatchModel) -> IntelKey {
    match primary_of(p.matches) {
        Some(m) => (m.signature.0, m.platform_mask.0, p.revision),
        None => (0, 0, p.revision),
    }
}

pub open spec fn intel_before(a: IntelKey, b: IntelKey) -> bool {
    a.0 < b.0 || (a.0 == b.0 && (a.1 < b.1 || (a.1 == b.1 && a.2 < b.2)))
}

/// The two keys differ in the revision at most.
pub open spec fn same_target(a: IntelKey, b: IntelKey) -> bool {
    a.0 == b.0 && a.1 == b.1
}

/// The list with a patch put in its place; it replaces one with its key.
pub open spec fn with_key(list: Seq<(IntelKey, Held)>, key: IntelKey, p: Held) -> Seq<(IntelKey, Held)>
    decreases list.len(),
{
    if list.len() == 0 || intel_before(list.last().0, key) {
        list.push((key, p))
    } else if list.last().0 == key {
        list.drop_last().push((key, p))
    } else {
        with_key(list.drop_last(), key, p).push(list.last())
    }
}

/// A newer patch for the same target is in the list.
pub open spec fn has_newer(list: Seq<(IntelKey, Held)>, key: IntelKey) -> bool {
    exists|i: int| 0 <= i < list.len() && same_target((#[trigger] list[i]).0, key) && list[i].0.2 > key.2
}

/// The list without other revisions for the same target.
pub open spec fn without_others(list: Seq<(IntelKey, Held)>, key: IntelKey) -> Seq<(IntelKey, Held)>
    decreases list.len(),
{
    if list.len() == 0 {
        list
    } else {
        let front = without_others(list.drop_last(), key);
        if same_target(list.last().0, key) && list.last().0.2 != key.2 {
            front
        } else {
            front.push(list.last())
        }
    }
}

/// The Intel list after a wanted patch.
pub open spec fn intel_step(list: Seq<(IntelKey, Held)>, p: Held, best_only: bool) -> Seq<(IntelKey, Held)> {
    let key = intel_key(p.0);
    if !best_only {
        with_key(list, key, p)
    } else if has_newer(list, key) {
        list
    } else {
        with_key(without_others(list, key), key, p)
    }
}

/// The position of the first patch for a signature.
pub open spec fn first_for(list: Seq<Held>, signature: CpuSignature, from: int) -> Option<int>
    decreases list.len() - from,
{
    if from < 0 || from >= list.len() {
        None
    } else if any_signature(list[from].0.matches, signature) {
        Some(from)
    } else {
        first_for(list, signature, from + 1)
    }
}

/// The AMD list after a wanted patch.
pub open spec fn amd_step(list: Seq<Held>, p: Held, best_only: bool) -> Seq<Held> {
    let rival = match primary_of(p.0.matches) {
        Some(m) => if best_only {
            first_for(list, m.signature, 0)
        } else {
            None
        },
        None => None,
    };
    match rival {
        Some(i) => if list[i].0.revision >= p.0.revision {
            list
        } else {
            list.remove(i).push(p)
        },
        None => list.push(p),
    }
}

/// The patches that go into the image.
#[verifier::ext_equal]
pub struct Chosen {
    pub intel: Seq<(IntelKey, Held)>,
    pub amd: Seq<Held>,
}

/// The patches that go into the image, of a list of candidates.
pub open spec fn chosen(s: Seq<Held>, cpus: Option<Seq<CpuIdentity>>, best_only: bool) -> Chosen
    decreases s.len(),
{
    if s.len() == 0 {
        Chosen { intel: Seq::empty(), amd: Seq::empty() }
    } else {
        let c = chosen(s.drop_last(), cpus, best_only);
        let p = s.last();
        if !wanted(p, cpus) {
            c
        } else {
            match p.0.vendor {
                Vendor::Intel => Chosen { intel: intel_step(c.intel, p, best_only), ..c },
                Vendor::Amd => Chosen { amd: amd_step(c.amd, p, best_only), ..c },
            }
        }
    }
}

// --- what is made of them -----------------------------------------------------------

/// The payloads, one behind the other.
pub open spec fn intel_blob(list: Seq<(IntelKey, Held)>) -> Seq<u8>
    decreases list.len(),
{
    if list.len() == 0 {
        Seq::empty()
    } else {
        intel_blob(list.drop_last()) + list.last().1.1
    }
}

/// The first equivalence id among pairs, or zero.
pub open spec fn first_id(m: Seq<ProcessorMatch>) -> u16
    decreases m.len(),
{
    if m.len() == 0 {
        0
    } else {
        match m[0].equivalence_id {
            Some(id) => id,
            None => first_id(m.drop_first()),
        }
    }
}

/// The equivalence id of a pair, with that of the patch standing in.
pub open spec fn id_of(p: PatchModel, i: int) -> u16 {
    match p.matches[i].equivalence_id {
        Some(id) => id,
        None => first_id(p.matches),
    }
}

/// The last entry of a table for an equivalence id.
pub open spec fn last_with_id(table: Seq<EquivalenceEntry>, id: u16) -> Option<EquivalenceEntry>
    decreases table.len(),
{
    if table.len() == 0 {
        None
    } else if table.last().equiv_id == id {
        Some(table.last())
    } else {
        last_with_id(table.drop_last(), id)
    }
}

/// An entry that maps a processor to an id and says nothing else.
pub open spec fn plain_entry(signature: CpuSignature, id: u16) -> EquivalenceEntry {
    EquivalenceEntry {
        installed_cpu: signature,
        fixed_errata_mask: 0,
        fixed_errata_compare: 0,
        equiv_id: id,
        reserved: 0,
        offset: 0,
    }
}

/// The list of entries by id, with an entry put in; it replaces one for its id.
pub open spec fn with_id(used: Seq<(u16, EquivalenceEntry)>, id: u16, e: EquivalenceEntry) -> Seq<
    (u16, EquivalenceEntry),
>
    decreases used.len(),
{
    if used.len() == 0 || used.last().0 < id {
        used.push((id, e))
    } else if used.last().0 == id {
        used.drop_last().push((id, e))
    } else {
        with_id(used.drop_last(), id, e).push(used.last())
    }
}

pub open spec fn has_id(used: Seq<(u16, EquivalenceEntry)>, id: u16) -> bool {
    exists|i: int| 0 <= i < used.len() && (#[trigger] used[i]).0 == id
}

/// The entries by id after a pair: an id takes the last entry that the catalog
/// has for it, and a plain one where the catalog has none.
pub open spec fn used_step(
    used: Seq<(u16, EquivalenceEntry)>,
    id: u16,
    signature: CpuSignature,
    table: Seq<EquivalenceEntry>,
) -> Seq<(u16, EquivalenceEntry)> {
    if id == 0 {
        used
    } else {
        match last_with_id(table, id) {
            Some(e) => with_id(used, id, e),
            None => if has_id(used, id) {
                used
            } else {
                with_id(used, id, plain_entry(signature, id))
            },
        }
    }
}

pub open spec fn used_pairs(
    used: Seq<(u16, EquivalenceEntry)>,
    p: PatchModel,
    n: nat,
    table: Seq<EquivalenceEntry>,
) -> Seq<(u16, EquivalenceEntry)>
    decreases n,
{
    if n == 0 {
        used
    } else {
        used_step(
            used_pairs(used, p, (n - 1) as nat, table),
            id_of(p, n - 1),
            p.matches[n - 1].signature,
            table,
        )
    }
}

/// The entries by id of a list of patches.
pub open spec fn used_entries(list: Seq<Held>, table: Seq<EquivalenceEntry>) -> Seq<(u16, EquivalenceEntry)>
    decreases list.len(),
{
    if list.len() == 0 {
        Seq::empty()
    } else {
        used_pairs(
            used_entries(list.drop_last(), table),
            list.last().0,
            list.last().0.matches.len(),
            table,
        )
    }
}

/// A table with the entries of a list by id.
pub open spec fn with_used(used: Seq<(u16, EquivalenceEntry)>) -> Seq<EquivalenceEntry>
    decreases used.len(),
{
    if used.len() == 0 {
        Seq::empty()
    } else {
        with_entry(with_used(used.drop_last()), used.last().1)
    }
}

/// A table with a plain entry for each of the first `n` pairs that has an id.
pub open spec fn with_mappings(table: Seq<EquivalenceEntry>, p: PatchModel, n: nat) -> Seq<EquivalenceEntry>
    decreases n,
{
    if n == 0 {
        table
    } else {
        let front = with_mappings(table, p, (n - 1) as nat);
        match p.matches[n - 1].equivalence_id {
            Some(id) => with_entry(front, plain_entry(p.matches[n - 1].signature, id)),
            None => front,
        }
    }
}

pub open spec fn with_all_mappings(table: Seq<EquivalenceEntry>, list: Seq<Held>) -> Seq<EquivalenceEntry>
    decreases list.len(),
{
    if list.len() == 0 {
        table
    } else {
        with_mappings(
            with_all_mappings(table, list.drop_last()),
            list.last().0,
            list.last().0.matches.len(),
        )
    }
}

/// The AMD container to be built.
pub open spec fn amd_model(list: Seq<Held>, table: Seq<EquivalenceEntry>) -> BuilderModel {
    BuilderModel {
        equivalence: with_all_mappings(with_used(used_entries(list, table)), list),
        patches: list.map_values(|p: Held| (first_id(p.0.matches), p.0.revision, p.1)),
    }
}

/// The AMD blob, or nothing without patches.
pub open spec fn amd_blob(list: Seq<Held>, table: Seq<EquivalenceEntry>) -> Seq<u8> {
    if list.len() == 0 {
        Seq::empty()
    } else {
        built(amd_model(list, table))->Ok_0
    }
}

/// The archive with a vendor's blob, unless that is empty.
pub open spec fn with_blob(m: ArchiveModel, vendor: Vendor, blob: Seq<u8>) -> ArchiveModel {
    if blob.len() == 0 {
        m
    } else {
        with_file(m, vendor.path_text(), blob)
    }
}

pub open spec fn blob_path(vendor: Vendor, blob: Seq<u8>) -> Seq<Seq<char>> {
    if blob.len() == 0 {
        Seq::empty()
    } else {
        seq![vendor.path_text()]
    }
}

/// The archive with both blobs.
pub open spec fn early_archive(intel: Seq<u8>, amd: Seq<u8>, emit_parent_dirs: bool) -> ArchiveModel {
    let none = ArchiveModel { dirs: Seq::empty(), files: Seq::empty(), emit_parent_dirs };
    with_blob(with_blob(none, Vendor::Intel, intel), Vendor::Amd, amd)
}

/// What building yields.
pub open spec fn early_of(
    m: CatalogModel,
    cpus: Option<Seq<CpuIdentity>>,
    emit_parent_dirs: bool,
    best_only: bool,
) -> Result<EarlyModel, BootFault> {
    let c = chosen(zipped(m.patches, m.payloads), cpus, best_only);
    let intel = intel_blob(c.intel);
    let amd = amd_blob(c.amd, m.amd_equivalence);
    let bytes = archive_bytes(early_archive(intel, amd, emit_parent_dirs));
    if intel.len() == 0 && amd.len() == 0 {
        Err(BootFault::Malformed("no microcode patches selected for early CPIO"@))
    } else {
        Ok(
            EarlyModel {
                bytes,
                sha256: hex_bytes(sha256_of(bytes)),
                intel_patches: c.intel.len(),
                amd_patches: c.amd.len(),
                size: bytes.len() as u64,
                paths: blob_path(Vendor::Intel, intel) + blob_path(Vendor::Amd, amd),
            },
        )
    }
}

// --- choosing -----------------------------------------------------------------------

type Borrowed<'a> = (&'a PatchMeta, &'a [u8]);

type IntelSlot<'a> = (IntelKey, Borrowed<'a>);

pub open spec fn borrowed(p: (&PatchMeta, &[u8])) -> Held {
    (p.0@, p.1@)
}

pub open spec fn borrowed_view(v: Seq<(&PatchMeta, &[u8])>) -> Seq<Held> {
    v.map_values(|p: (&PatchMeta, &[u8])| borrowed(p))
}

pub open spec fn slots_view(v: Seq<(IntelKey, (&PatchMeta, &[u8]))>) -> Seq<(IntelKey, Held)> {
    v.map_values(|s: (IntelKey, (&PatchMeta, &[u8]))| (s.0, borrowed(s.1)))
}

fn is_targeted(p: &PatchMeta, cpus: &[CpuIdentity]) -> (r: bool)
    ensures
        r == targets_any(p@, cpus@),
{
    let mut i: usize = 0;
    while i < cpus.len()
        invariant
            i <= cpus@.len(),
            forall|k: int| 0 <= k < i ==> !targets(p@, #[trigger] cpus@[k]),
        decreases cpus@.len() - i,
    {
        let cpu = cpus[i];
        // When platform is unknown, still allow signature-only match for
        // offline build with explicit filter that lacks platform masks.
        if p.applies_to(&cpu) || (cpu.platform_mask.is_none() && cpu.vendor == p.vendor
            && has_signature(p.matches.as_slice(), cpu.signature)) {
            assert(targets(p@, cpus@[i as int]));
            return true;
        }
        i = i + 1;
    }
    false
}

/// The processors of a filter.
pub open spec fn filter_view(cpus: Option<&[CpuIdentity]>) -> Option<Seq<CpuIdentity>> {
    match cpus {
        Some(list) => Some(list@),
        None => None,
    }
}

fn is_wanted(p: Borrowed<'_>, cpus: Option<&[CpuIdentity]>) -> (r: bool)
    ensures
        r == wanted(borrowed(p), filter_view(cpus)),
{
    if !p.0.is_loadable() {
        return false;
    }
    if p.1.len() == 0 {
        return false;
    }
    match cpus {
        Some(list) => is_targeted(p.0, list),
        None => true,
    }
}

fn key_of(p: &PatchMeta) -> (r: IntelKey)
    ensures
        r == intel_key(p@),
{
    match p.primary_match() {
        Some(m) => (m.signature.raw(), m.platform_mask.raw(), p.revision),
        None => (0, 0, p.revision),
    }
}

fn is_before(a: IntelKey, b: IntelKey) -> (r: bool)
    ensures
        r == intel_before(a, b),
{
    a.0 < b.0 || (a.0 == b.0 && (a.1 < b.1 || (a.1 == b.1 && a.2 < b.2)))
}

fn keys_equal(a: IntelKey, b: IntelKey) -> (r: bool)
    ensures
        r == (a == b),
{
    a.0 == b.0 && a.1 == b.1 && a.2 == b.2
}

fn put_key<'a>(list: Vec<IntelSlot<'a>>, key: IntelKey, p: Borrowed<'a>) -> (r: Vec<IntelSlot<'a>>)
    ensures
        slots_view(r@) == with_key(slots_view(list@), key, borrowed(p)),
{
    let ghost all = slots_view(list@);
    let ghost h = borrowed(p);
    let mut out = list;
    let mut i: usize = out.len();
    assert(all.take(i as int) =~= all);
    assert(with_key(all, key, h) =~= with_key(all.take(i as int), key, h) + all.skip(i as int));
    while i > 0 && !is_before(out[i - 1].0, key) && !keys_equal(out[i - 1].0, key)
        invariant
            i <= out@.len(),
            all == slots_view(out@),
            with_key(all, key, h) =~= with_key(all.take(i as int), key, h) + all.skip(i as int),
        decreases i,
    {
        assert(all.take(i as int).drop_last() =~= all.take(i - 1));
        assert(all.take(i as int).last() == all[i - 1]);
        assert(all.skip(i - 1) =~= seq![all[i - 1]] + all.skip(i as int));
        i = i - 1;
    }
    assert(i > 0 ==> all.take(i as int).drop_last() =~= all.take(i - 1));
    assert(i > 0 ==> all.take(i as int).last() == all[i - 1]);
    if i > 0 && keys_equal(out[i - 1].0, key) {
        out.set(i - 1, (key, p));
        assert(slots_view(out@) =~= all.update(i - 1, (key, h)));
    } else {
        out.insert(i, (key, p));
        assert(slots_view(out@) =~= all.insert(i as int, (key, h)));
    }
    assert(slots_view(out@) =~= with_key(all, key, h));
    out
}

fn newer_in(list: &Vec<IntelSlot<'_>>, key: IntelKey) -> (r: bool)
    ensures
        r == has_newer(slots_view(list@), key),
{
    let ghost all = slots_view(list@);
    let mut i: usize = 0;
    while i < list.len()
        invariant
            i <= list@.len(),
            all == slots_view(list@),
            forall|k: int|
                0 <= k < i ==> !(same_target((#[trigger] all[k]).0, key) && all[k].0.2 > key.2),
        decreases list@.len() - i,
    {
        let other = list[i].0;
        assert(all[i as int].0 == other);
        if other.0 == key.0 && other.1 == key.1 && other.2 > key.2 {
            return true;
        }
        i = i + 1;
    }
    false
}

fn drop_others<'a>(list: Vec<IntelSlot<'a>>, key: IntelKey) -> (r: Vec<IntelSlot<'a>>)
    ensures
        slots_view(r@) == without_others(slots_view(list@), key),
{
    let ghost all = slots_view(list@);
    let mut out: Vec<IntelSlot<'a>> = Vec::new();
    assert(slots_view(out@) =~= without_others(all.take(0), key));
    let mut i: usize = 0;
    while i < list.len()
        invariant
            i <= list@.len(),
            all == slots_view(list@),
            slots_view(out@) == without_others(all.take(i as int), key),
        decreases list@.len() - i,
    {
        let slot = list[i];
        assert(all.take(i + 1).drop_last() =~= all.take(i as int));
        assert(all.take(i + 1).last() == (slot.0, borrowed(slot.1)));
        if slot.0.0 == key.0 && slot.0.1 == key.1 && slot.0.2 != key.2 {
        } else {
            let ghost before = out@;
            out.push(slot);
            assert(slots_view(out@) =~= slots_view(before).push((slot.0, borrowed(slot.1))));
        }
        i = i + 1;
    }
    assert(all.take(i as int) =~= all);
    out
}

fn add_intel<'a>(list: Vec<IntelSlot<'a>>, p: Borrowed<'a>, best_only: bool) -> (r: Vec<IntelSlot<'a>>)
    ensures
        slots_view(r@) == intel_step(slots_view(list@), borrowed(p), best_only),
{
    let key = key_of(p.0);
    if best_only {
        // Keep only highest revision per (sig, pf).
        if newer_in(&list, key) {
            return list;
        }
        // Drop older same-identity entries.
        return put_key(drop_others(list, key), key, p);
    }
    put_key(list, key, p)
}

fn position_for(list: &Vec<Borrowed<'_>>, signature: CpuSignature) -> (r: Option<usize>)
    ensures
        match r {
            Some(i) => i < list@.len() && first_for(borrowed_view(list@), signature, 0) == Some(i as int),
            None => first_for(borrowed_view(list@), signature, 0) is None,
        },
{
    let ghost all = borrowed_view(list@);
    let mut i: usize = 0;
    while i < list.len()
        invariant
            i <= list@.len(),
            all == borrowed_view(list@),
            first_for(all, signature, 0) == first_for(all, signature, i as int),
        decreases list@.len() - i,
    {
        assert(all[i as int] == borrowed(list@[i as int]));
        if has_signature(list[i].0.matches.as_slice(), signature) {
            return Some(i);
        }
        i = i + 1;
    }
    None
}

fn add_amd<'a>(list: Vec<Borrowed<'a>>, p: Borrowed<'a>, best_only: bool) -> (r: Vec<Borrowed<'a>>)
    ensures
        borrowed_view(r@) == amd_step(borrowed_view(list@), borrowed(p), best_only),
{
    let ghost all = borrowed_view(list@);
    let mut out = list;
    if best_only {
        if let Some(m) = p.0.primary_match() {
            if let Some(i) = position_for(&out, m.signature) {
                assert(all[i as int] == borrowed(out@[i as int]));
                if out[i].0.revision >= p.0.revision {
                    return out;
                }
                out.remove(i);
                assert(borrowed_view(out@) =~= all.remove(i as int));
            }
        }
    }
    let ghost before = out@;
    out.push(p);
    assert(borrowed_view(out@) =~= borrowed_view(before).push(borrowed(p)));
    out
}

fn choose_patches<'a>(catalog: &'a Catalog, cpus: Option<&[CpuIdentity]>, best_only: bool) -> (r: (
    Vec<IntelSlot<'a>>,
    Vec<Borrowed<'a>>,
))
    ensures
        ({
            let c = chosen(
                zipped(catalog@.patches, catalog@.payloads),
                filter_view(cpus),
                best_only,
            );
            slots_view(r.0@) == c.intel && borrowed_view(r.1@) == c.amd
        }),
{
    let ghost s = zipped(catalog@.patches, catalog@.payloads);
    let ghost filter = filter_view(cpus);
    let all = catalog.iter();
    let mut intel: Vec<IntelSlot<'a>> = Vec::new();
    let mut amd: Vec<Borrowed<'a>> = Vec::new();
    assert(slots_view(intel@) =~= Seq::empty());
    assert(borrowed_view(amd@) =~= Seq::empty());
    let mut i: usize = 0;
    while i < all.len()
        invariant
            i <= all@.len(),
            all@.len() == s.len(),
            filter == filter_view(cpus),
            forall|k: int| 0 <= k < all@.len() ==> ((#[trigger] all@[k]).0@, all@[k].1@) == s[k],
            slots_view(intel@) == chosen(s.take(i as int), filter, best_only).intel,
            borrowed_view(amd@) == chosen(s.take(i as int), filter, best_only).amd,
        decreases all@.len() - i,
    {
        let p: Borrowed<'a> = all[i];
        assert(s.take(i + 1).drop_last() =~= s.take(i as int));
        assert(s.take(i + 1).last() == borrowed(p));
        if is_wanted(p, cpus) {
            match p.0.vendor {
                Vendor::Intel => {
                    intel = add_intel(intel, p, best_only);
                },
                Vendor::Amd => {
                    amd = add_amd(amd, p, best_only);
                },
            }
        }
        i = i + 1;
    }
    assert(s.take(i as int) =~= s);
    (intel, amd)
}

// --- assembling ---------------------------------------------------------------------

fn concat_intel(list: &Vec<IntelSlot<'_>>) -> (r: Vec<u8>)
    ensures
        r@ == intel_blob(slots_view(list@)),
{
    let ghost all = slots_view(list@);
    let mut out: Vec<u8> = Vec::new();
    let mut i: usize = 0;
    while i < list.len()
        invariant
            i <= list@.len(),
            all == slots_view(list@),
            out@ == intel_blob(all.take(i as int)),
        decreases list@.len() - i,
    {
        assert(all.take(i + 1).drop_last() =~= all.take(i as int));
        assert(all.take(i + 1).last() == (list@[i as int].0, borrowed(list@[i as int].1)));
        let ghost before = out@;
        out.extend_from_slice(list[i].1.1);
        assert(out@ =~= before + all[i as int].1.1);
        i = i + 1;
    }
    assert(all.take(i as int) =~= all);
    out
}

fn find_first_id(m: &[ProcessorMatch]) -> (r: u16)
    ensures
        r == first_id(m@),
{
    let mut i: usize = 0;
    assert(m@.skip(0) =~= m@);
    while i < m.len()
        invariant
            i <= m@.len(),
            first_id(m@) == first_id(m@.skip(i as int)),
        decreases m@.len() - i,
    {
        if let Some(id) = m[i].equivalence_id {
            return id;
        }
        assert(m@.skip(i as int).drop_first() =~= m@.skip(i + 1));
        i = i + 1;
    }
    0
}

fn find_last_with_id(table: &[EquivalenceEntry], id: u16) -> (r: Option<EquivalenceEntry>)
    ensures
        r == last_with_id(table@, id),
{
    let mut n: usize = table.len();
    assert(table@.take(n as int) =~= table@);
    while n > 0
        invariant
            n <= table@.len(),
            last_with_id(table@, id) == last_with_id(table@.take(n as int), id),
        decreases n,
    {
        if table[n - 1].equiv_id == id {
            return Some(table[n - 1]);
        }
        assert(table@.take(n as int).drop_last() =~= table@.take(n - 1));
        n = n - 1;
    }
    None
}

type UsedEntry = (u16, EquivalenceEntry);

fn put_id(used: Vec<UsedEntry>, id: u16, e: EquivalenceEntry) -> (r: Vec<UsedEntry>)
    ensures
        r@ == with_id(used@, id, e),
{
    let ghost all = used@;
    let mut out = used;
    let mut i: usize = out.len();
    assert(all.take(i as int) =~= all);
    assert(with_id(all, id, e) =~= with_id(all.take(i as int), id, e) + all.skip(i as int));
    while i > 0 && out[i - 1].0 > id
        invariant
            i <= out@.len(),
            all == out@,
            with_id(all, id, e) =~= with_id(all.take(i as int), id, e) + all.skip(i as int),
        decreases i,
    {
        assert(all.take(i as int).drop_last() =~= all.take(i - 1));
        assert(all.take(i as int).last() == all[i - 1]);
        assert(all.skip(i - 1) =~= seq![all[i - 1]] + all.skip(i as int));
        i = i - 1;
    }
    assert(i > 0 ==> all.take(i as int).drop_last() =~= all.take(i - 1));
    assert(i > 0 ==> all.take(i as int).last() == all[i - 1]);
    if i > 0 && out[i - 1].0 == id {
        out.set(i - 1, (id, e));
    } else {
        out.insert(i, (id, e));
    }
    assert(out@ =~= with_id(all, id, e));
    out
}

fn id_in(used: &Vec<UsedEntry>, id: u16) -> (r: bool)
    ensures
        r == has_id(used@, id),
{
    let mut i: usize = 0;
    while i < used.len()
        invariant
            i <= used@.len(),
            forall|k: int| 0 <= k < i ==> (#[trigger] used@[k]).0 != id,
        decreases used@.len() - i,
    {
        if used[i].0 == id {
            assert(used@[i as int].0 == id);
            return true;
        }
        i = i + 1;
    }
    false
}

fn use_pair(used: Vec<UsedEntry>, id: u16, signature: CpuSignature, table: &[EquivalenceEntry]) -> (r: Vec<
    UsedEntry,
>)
    ensures
        r@ == used_step(used@, id, signature, table@),
{
    if id == 0 {
        return used;
    }
    match find_last_with_id(table, id) {
        Some(e) => put_id(used, id, e),
        None => {
            if id_in(&used, id) {
                used
            } else {
                put_id(
                    used,
                    id,
                    EquivalenceEntry {
                        installed_cpu: signature,
                        fixed_errata_mask: 0,
                        fixed_errata_compare: 0,
                        equiv_id: id,
                        reserved: 0,
                        offset: 0,
                    },
                )
            }
        },
    }
}

fn use_patch(used: Vec<UsedEntry>, p: &PatchMeta, table: &[EquivalenceEntry]) -> (r: Vec<UsedEntry>)
    ensures
        r@ == used_pairs(used@, p@, p@.matches.len(), table@),
{
    let ghost start = used@;
    let first = find_first_id(p.matches.as_slice());
    let mut out = used;
    let mut i: usize = 0;
    while i < p.matches.len()
        invariant
            i <= p.matches@.len(),
            first == first_id(p@.matches),
            out@ == used_pairs(start, p@, i as nat, table@),
        decreases p.matches@.len() - i,
    {
        let m = p.matches[i];
        let id: u16 = match m.equivalence_id {
            Some(id) => id,
            None => first,
        };
        out = use_pair(out, id, m.signature, table);
        i = i + 1;
    }
    out
}

fn collect_used(list: &Vec<Borrowed<'_>>, table: &[EquivalenceEntry]) -> (r: Vec<UsedEntry>)
    ensures
        r@ == used_entries(borrowed_view(list@), table@),
{
    let ghost all = borrowed_view(list@);
    let mut out: Vec<UsedEntry> = Vec::new();
    let mut i: usize = 0;
    while i < list.len()
        invariant
            i <= list@.len(),
            all == borrowed_view(list@),
            out@ == used_entries(all.take(i as int), table@),
        decreases list@.len() - i,
    {
        assert(all.take(i + 1).drop_last() =~= all.take(i as int));
        assert(all.take(i + 1).last() == borrowed(list@[i as int]));
        out = use_patch(out, list[i].0, table);
        i = i + 1;
    }
    assert(all.take(i as int) =~= all);
    out
}

fn map_patch(builder: &mut AmdContainerBuilder, p: &PatchMeta)
    ensures
        final(builder)@ == (BuilderModel {
            equivalence: with_mappings(old(builder)@.equivalence, p@, p@.matches.len()),
            ..old(builder)@
        }),
{
    let ghost start = builder@;
    let mut i: usize = 0;
    while i < p.matches.len()
        invariant
            i <= p.matches@.len(),
            builder@ =~= (BuilderModel {
                equivalence: with_mappings(start.equivalence, p@, i as nat),
                ..start
            }),
        decreases p.matches@.len() - i,
    {
        if let Some(id) = p.matches[i].equivalence_id {
            builder.add_equivalence_mapping(p.matches[i].signature, id);
        }
        i = i + 1;
    }
}

fn fill_builder(list: &Vec<Borrowed<'_>>, table: &[EquivalenceEntry]) -> (r: AmdContainerBuilder)
    ensures
        r@ == amd_model(borrowed_view(list@), table@),
{
    let ghost all = borrowed_view(list@);
    let ghost model = amd_model(all, table@);
    let mut builder = AmdContainerBuilder::new();
    let mut i: usize = 0;
    while i < list.len()
        invariant
            i <= list@.len(),
            all == borrowed_view(list@),
            model == amd_model(all, table@),
            builder@.equivalence == Seq::<EquivalenceEntry>::empty(),
            builder@.patches =~= model.patches.take(i as int),
        decreases list@.len() - i,
    {
        let p = list[i];
        assert(all[i as int] == borrowed(p));
        builder.add_patch(
            find_first_id(p.0.matches.as_slice()),
            p.0.revision,
            vstd::slice::slice_to_vec(p.1),
        );
        i = i + 1;
    }
    assert(model.patches.take(i as int) =~= model.patches);
    let used = collect_used(list, table);
    let mut k: usize = 0;
    while k < used.len()
        invariant
            k <= used@.len(),
            builder@.equivalence == with_used(used@.take(k as int)),
            builder@.patches == model.patches,
        decreases used@.len() - k,
    {
        assert(used@.take(k + 1).drop_last() =~= used@.take(k as int));
        assert(used@.take(k + 1).last() == used@[k as int]);
        builder.add_equivalence(used[k].1);
        k = k + 1;
    }
    assert(used@.take(k as int) =~= used@);
    let ghost base = builder@.equivalence;
    // Also add any mapping synthesised per match.
    let mut j: usize = 0;
    while j < list.len()
        invariant
            j <= list@.len(),
            all == borrowed_view(list@),
            builder@.equivalence == with_all_mappings(base, all.take(j as int)),
            builder@.patches == model.patches,
        decreases list@.len() - j,
    {
        assert(all.take(j + 1).drop_last() =~= all.take(j as int));
        assert(all.take(j + 1).last() == borrowed(list@[j as int]));
        map_patch(&mut builder, list[j].0);
        j = j + 1;
    }
    assert(all.take(j as int) =~= all);
    assert(builder@ =~= model);
    builder
}

fn build_amd(list: &Vec<Borrowed<'_>>, table: &[EquivalenceEntry]) -> (r: Vec<u8>)
    ensures
        r@ == amd_blob(borrowed_view(list@), table@),
{
    if list.len() == 0 {
        return Vec::new();
    }
    let builder = fill_builder(list, table);
    match builder.build() {
        Ok(b) => b,
        Err(_) => {
            assert(false);
            Vec::new()
        },
    }
}

fn add_blob(cpio: CpioBuilder, paths: Vec<String>, vendor: Vendor, blob: Vec<u8>) -> (r: (
    CpioBuilder,
    Vec<String>,
))
    ensures
        r.0@ == with_blob(cpio@, vendor, blob@),
        strings(r.1@) == strings(paths@) + blob_path(vendor, blob@),
{
    let mut cpio = cpio;
    let mut paths = paths;
    if blob.len() == 0 {
        assert(strings(paths@) =~= strings(paths@) + blob_path(vendor, blob@));
        return (cpio, paths);
    }
    let path = vendor.early_cpio_path();
    proof {
        lemma_early_paths_are_safe(vendor);
    }
    match cpio.add_file(path, blob) {
        Ok(_) => {},
        Err(_) => {
            assert(false);
        },
    }
    let ghost before = paths@;
    let text = path.to_owned();
    paths.push(text);
    assert(strings(paths@) =~= strings(before).push(text@));
    assert(strings(paths@) =~= strings(before) + blob_path(vendor, blob@));
    (cpio, paths)
}

/// Build a deterministic early microcode CPIO from a catalog.
pub fn build_early_cpio(input: EarlyBuildInput<'_>) -> (r: Result<EarlyBuildResult, BootError>)
    ensures
        match r {
            Ok(e) => early_of(
                input.catalog@,
                filter_view(input.filter_cpus),
                input.emit_parent_dirs,
                input.best_only,
            ) == Ok::<_, BootFault>(e@),
            Err(e) => early_of(
                input.catalog@,
                filter_view(input.filter_cpus),
                input.emit_parent_dirs,
                input.best_only,
            ) == Err::<EarlyModel, _>(e@),
        },
{
    let (intel, amd) = choose_patches(input.catalog, input.filter_cpus, input.best_only);
    // Intel: concatenate in deterministic order.
    let intel_bytes = concat_intel(&intel);
    // AMD: rebuild a proper DMA container with equivalence table.
    let amd_bytes = build_amd(&amd, input.catalog.amd_equivalence.as_slice());
    if intel_bytes.len() == 0 && amd_bytes.len() == 0 {
        return Err(
            BootError::Malformed("no microcode patches selected for early CPIO".to_owned()),
        );
    }
    let cpio = CpioBuilder::new().emit_parent_dirs(input.emit_parent_dirs);
    let none: Vec<String> = Vec::new();
    assert(strings(none@) =~= Seq::empty());
    let (cpio, paths) = add_blob(cpio, none, Vendor::Intel, intel_bytes);
    let (cpio, paths) = add_blob(cpio, paths, Vendor::Amd, amd_bytes);
    assert(strings(paths@) =~= blob_path(Vendor::Intel, intel_bytes@) + blob_path(
        Vendor::Amd,
        amd_bytes@,
    ));
    let bytes = match cpio.build() {
        Ok(b) => b,
        Err(e) => {
            assert(false);
            return Err(BootError::Archive(e));
        },
    };
    let sha256 = sha256_text(bytes.as_slice());
    Ok(
        EarlyBuildResult {
            size: bytes.len() as u64,
            bytes,
            sha256,
            intel_patches: intel.len(),
            amd_patches: amd.len(),
            paths,
        },
    )
}

// --- the paths are valid ------------------------------------------------------------

/// A text without a slash, a slash, and the rest: the first component is the
/// text.
proof fn lemma_split_step(s: Seq<char>, head: Seq<char>, rest: Seq<char>)
    requires
        s == head + seq!['/'] + rest,
        forall|i: int| 0 <= i < head.len() ==> head[i] != '/',
    ensures
        split_text(s, '/') == seq![head] + split_text(rest, '/'),
{
    let n = head.len() as int;
    lemma_find_from(s, seq!['/'], 0);
    assert(s.subrange(n, n + 1) =~= seq!['/']);
    assert(occurs_at(s, seq!['/'], n));
    assert forall|k: int| 0 <= k < n implies !occurs_at(s, seq!['/'], k) by {
        assert(s.subrange(k, k + 1)[0] == head[k]);
    }
    assert(find_text(s, seq!['/']) == Some(n));
    assert(s.take(n) =~= head);
    assert(s.skip(n + 1) =~= rest);
}

/// A text without a slash is its only component.
proof fn lemma_split_last(s: Seq<char>)
    requires
        forall|i: int| 0 <= i < s.len() ==> s[i] != '/',
    ensures
        split_text(s, '/') == seq![s],
{
    lemma_find_from(s, seq!['/'], 0);
    assert forall|k: int| 0 <= k implies !occurs_at(s, seq!['/'], k) by {
        if occurs_at(s, seq!['/'], k) {
            assert(s.subrange(k, k + 1)[0] == s[k]);
            assert(seq!['/'][0] == '/');
        }
    }
}

/// Neither NUL nor a double slash occurs.
proof fn lemma_absent(s: Seq<char>)
    requires
        forall|i: int| 0 <= i < s.len() ==> s[i] != '\0',
        forall|i: int| 0 <= i < s.len() - 1 ==> !(#[trigger] s[i] == '/' && s[i + 1] == '/'),
    ensures
        !contains_text(s, seq!['\0']),
        !contains_text(s, "//"@),
{
    reveal_strlit("//");
    lemma_find_from(s, seq!['\0'], 0);
    lemma_find_from(s, "//"@, 0);
    if let Some(i) = find_text(s, seq!['\0']) {
        assert(s.subrange(i, i + 1)[0] == s[i]);
        assert(seq!['\0'][0] == '\0');
    }
    if let Some(i) = find_text(s, "//"@) {
        assert(s.subrange(i, i + 2)[0] == s[i]);
        assert(s.subrange(i, i + 2)[1] == s[i + 1]);
    }
}

/// The names of both blobs are accepted by the archive.
pub proof fn lemma_early_paths_are_safe(vendor: Vendor)
    ensures
        name_problem(vendor.path_text()) is None,
{
    let s = vendor.path_text();
    reveal_strlit("kernel/x86/microcode/GenuineIntel.bin");
    reveal_strlit("kernel/x86/microcode/AuthenticAMD.bin");
    reveal_strlit("kernel");
    reveal_strlit("x86/microcode/GenuineIntel.bin");
    reveal_strlit("x86/microcode/AuthenticAMD.bin");
    reveal_strlit("x86");
    reveal_strlit("microcode/GenuineIntel.bin");
    reveal_strlit("microcode/AuthenticAMD.bin");
    reveal_strlit("microcode");
    reveal_strlit("GenuineIntel.bin");
    reveal_strlit("AuthenticAMD.bin");
    reveal_strlit("..");
    reveal_strlit(".");
    let (tail, last_two, last) = match vendor {
        Vendor::Intel => (
            "x86/microcode/GenuineIntel.bin"@,
            "microcode/GenuineIntel.bin"@,
            "GenuineIntel.bin"@,
        ),
        Vendor::Amd => (
            "x86/microcode/AuthenticAMD.bin"@,
            "microcode/AuthenticAMD.bin"@,
            "AuthenticAMD.bin"@,
        ),
    };
    assert(s =~= "kernel"@ + seq!['/'] + tail);
    assert(tail =~= "x86"@ + seq!['/'] + last_two);
    assert(last_two =~= "microcode"@ + seq!['/'] + last);
    lemma_split_step(s, "kernel"@, tail);
    lemma_split_step(tail, "x86"@, last_two);
    lemma_split_step(last_two, "microcode"@, last);
    lemma_split_last(last);
    let parts = seq!["kernel"@, "x86"@, "microcode"@, last];
    assert(split_text(s, '/') =~= parts);
    reveal_with_fuel(dot_problem, 5);
    assert(parts.drop_first() =~= seq!["x86"@, "microcode"@, last]);
    assert(parts.drop_first().drop_first() =~= seq!["microcode"@, last]);
    assert(parts.drop_first().drop_first().drop_first() =~= seq![last]);
    assert(parts.drop_first().drop_first().drop_first().drop_first() =~= Seq::empty());
    assert(dot_problem(parts) is None);
    assert(vstd::utf8::is_ascii_chars(s));
    vstd::utf8::is_ascii_chars_encode_utf8(s);
    lemma_absent(s);
}

} // verus!
