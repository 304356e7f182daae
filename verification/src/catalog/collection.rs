//! The catalog: a normalised collection of patches.

use vstd::prelude::*;
use crate::amd::container::EquivalenceEntry;
use crate::bytes::bytes_eq;
use crate::catalog::sidecar::AmdSidecar;
use crate::model::cpu::{CpuIdentity, CpuSignature, Vendor};
use crate::model::patch::{metas_view, primary_of, refs_view, PatchMeta, PatchModel};
use crate::model::select::{select_for_cpu, selection, SelectionOutcome};
use crate::model::validate::{FindingModel, ValidationReport};
use crate::order::{lemma_sort_map, order_of, sort, sort_by, Order, Ranking};
use crate::text::{
    lemma_text_less_irreflexive, lemma_text_less_total, lemma_text_less_transitive, str_eq, str_less, text_less,
};

verus! {

#[derive(Debug, Clone, Copy, PartialEq, Eq, Structural)]
pub enum DetectedFormat {
    IntelBinary,
    IntelDat,
    AmdContainer,
    Unknown,
}

/// Provenance record for one ingested file.
#[derive(Debug, PartialEq, Eq)]
pub struct SourceBlob {
    pub path: String,
    pub size: u64,
    pub format: DetectedFormat,
    pub sha256: [u8; 32],
    pub patch_count: usize,
}

/// The contents of a [`SourceBlob`].
#[verifier::ext_equal]
pub struct SourceModel {
    pub path: Seq<char>,
    pub size: u64,
    pub format: DetectedFormat,
    pub sha256: Seq<u8>,
    pub patch_count: usize,
}

impl View for SourceBlob {
    type V = SourceModel;

    open spec fn view(&self) -> SourceModel {
        SourceModel {
            path: self.path@,
            size: self.size,
            format: self.format,
            sha256: self.sha256@,
            patch_count: self.patch_count,
        }
    }
}

impl Clone for SourceBlob {
    fn clone(&self) -> (r: Self)
        ensures
            r@ == self@,
    {
        SourceBlob {
            path: self.path.clone(),
            size: self.size,
            format: self.format,
            sha256: self.sha256,
            patch_count: self.patch_count,
        }
    }
}

/// A normalised collection of patches from one or more sources.
#[derive(Debug)]
pub struct Catalog {
    /// Patches, deterministically ordered by
    /// `(vendor, signature, platform_mask, revision, source, offset)`.
    pub patches: Vec<PatchMeta>,
    /// Raw bytes for each patch, keyed by index into `patches`. Kept separate
    /// so that inspection-only workflows can drop them.
    pub payloads: Vec<Vec<u8>>,
    /// Findings that concern whole files rather than individual patches.
    pub report: ValidationReport,
    /// Every source blob that contributed, in ingestion order.
    pub sources: Vec<SourceBlob>,
    /// Sources that failed to parse, with the reason.
    pub failures: Vec<(String, String)>,
    /// AMD equivalence-table entries collected during ingestion, used when
    /// rebuilding AuthenticAMD.bin containers for early boot.
    pub amd_equivalence: Vec<EquivalenceEntry>,
}

/// The contents of a [`Catalog`].
#[verifier::ext_equal]
pub struct CatalogModel {
    pub patches: Seq<PatchModel>,
    pub payloads: Seq<Seq<u8>>,
    pub report: Seq<FindingModel>,
    pub sources: Seq<SourceModel>,
    pub failures: Seq<(Seq<char>, Seq<char>)>,
    pub amd_equivalence: Seq<EquivalenceEntry>,
}

pub open spec fn payloads_view(v: Seq<Vec<u8>>) -> Seq<Seq<u8>> {
    v.map_values(|p: Vec<u8>| p@)
}

pub open spec fn sources_view(v: Seq<SourceBlob>) -> Seq<SourceModel> {
    v.map_values(|s: SourceBlob| s@)
}

pub open spec fn failures_view(v: Seq<(String, String)>) -> Seq<(Seq<char>, Seq<char>)> {
    v.map_values(|f: (String, String)| (f.0@, f.1@))
}

impl View for Catalog {
    type V = CatalogModel;

    open spec fn view(&self) -> CatalogModel {
        CatalogModel {
            patches: metas_view(self.patches@),
            payloads: payloads_view(self.payloads@),
            report: self.report@,
            sources: sources_view(self.sources@),
            failures: failures_view(self.failures@),
            amd_equivalence: self.amd_equivalence@,
        }
    }
}

impl CatalogModel {
    pub open spec fn empty() -> CatalogModel {
        CatalogModel {
            patches: Seq::empty(),
            payloads: Seq::empty(),
            report: Seq::empty(),
            sources: Seq::empty(),
            failures: Seq::empty(),
            amd_equivalence: Seq::empty(),
        }
    }
}

impl Default for Catalog {
    fn default() -> (r: Self)
        ensures
            r@ == CatalogModel::empty(),
    {
        let r = Catalog {
            patches: Vec::new(),
            payloads: Vec::new(),
            report: ValidationReport::default(),
            sources: Vec::new(),
            failures: Vec::new(),
            amd_equivalence: Vec::new(),
        };
        assert(r@ =~= CatalogModel::empty());
        r
    }
}

// --- canonical order --------------------------------------------------------------

/// A patch with its bytes.
pub type Held = (PatchModel, Seq<u8>);

/// A patch with its bytes, as it is stored.
pub type HeldPatch = (PatchMeta, Vec<u8>);

pub open spec fn held(p: HeldPatch) -> Held {
    (p.0@, p.1@)
}

pub open spec fn held_view(v: Seq<HeldPatch>) -> Seq<Held> {
    v.map_values(|p: HeldPatch| held(p))
}

/// An optional number as an integer; nothing comes first.
pub open spec fn rank_of(v: Option<u32>) -> int {
    match v {
        Some(x) => x as int,
        None => -1,
    }
}

pub open spec fn primary_signature(p: PatchModel) -> Option<u32> {
    match primary_of(p.matches) {
        Some(m) => Some(m.signature.0),
        None => None,
    }
}

pub open spec fn primary_mask(p: PatchModel) -> Option<u32> {
    match primary_of(p.matches) {
        Some(m) => Some(m.platform_mask.0),
        None => None,
    }
}

/// `a` stands before `b` in a catalog: by vendor, signature, platform mask,
/// revision, source and offset.
pub open spec fn patch_before(a: PatchModel, b: PatchModel) -> bool {
    if a.vendor != b.vendor {
        a.vendor.rank() < b.vendor.rank()
    } else if primary_signature(a) != primary_signature(b) {
        rank_of(primary_signature(a)) < rank_of(primary_signature(b))
    } else if primary_mask(a) != primary_mask(b) {
        rank_of(primary_mask(a)) < rank_of(primary_mask(b))
    } else if a.revision != b.revision {
        a.revision < b.revision
    } else if a.origin.source != b.origin.source {
        text_less(a.origin.source, b.origin.source)
    } else {
        a.origin.offset < b.origin.offset
    }
}

/// The canonical order of patches with their bytes.
pub open spec fn canonical() -> spec_fn(Held, Held) -> bool {
    |a: Held, b: Held| patch_before(a.0, b.0)
}

/// The canonical order.
pub struct Canonical;

proof fn lemma_before_transitive(a: PatchModel, b: PatchModel, c: PatchModel)
    requires
        patch_before(a, b),
        patch_before(b, c),
    ensures
        patch_before(a, c),
{
    let (x, y, z) = (a.origin.source, b.origin.source, c.origin.source);
    if text_less(x, y) && text_less(y, z) {
        lemma_text_less_transitive(x, y, z);
        lemma_text_less_irreflexive(x);
    }
}

proof fn lemma_before_weak(a: PatchModel, b: PatchModel, c: PatchModel)
    requires
        !patch_before(a, b),
        !patch_before(b, c),
    ensures
        !patch_before(a, c),
{
    let (x, y, z) = (a.origin.source, b.origin.source, c.origin.source);
    lemma_text_less_total(x, y);
    lemma_text_less_total(y, z);
    lemma_text_less_irreflexive(x);
    lemma_text_less_irreflexive(y);
    lemma_text_less_irreflexive(z);
    if text_less(y, x) && text_less(z, y) {
        lemma_text_less_transitive(z, y, x);
    }
    if text_less(x, z) && text_less(z, x) {
        lemma_text_less_transitive(x, z, x);
    }
}

impl Ranking<HeldPatch> for Canonical {
    open spec fn less(a: HeldPatch, b: HeldPatch) -> bool {
        patch_before(a.0@, b.0@)
    }

    proof fn irreflexive(a: HeldPatch) {
        lemma_text_less_irreflexive(a.0@.origin.source);
    }

    proof fn transitive(a: HeldPatch, b: HeldPatch, c: HeldPatch) {
        lemma_before_transitive(a.0@, b.0@, c.0@);
    }

    proof fn weak(a: HeldPatch, b: HeldPatch, c: HeldPatch) {
        lemma_before_weak(a.0@, b.0@, c.0@);
    }
}

impl Ranking<Held> for Canonical {
    open spec fn less(a: Held, b: Held) -> bool {
        patch_before(a.0, b.0)
    }

    proof fn irreflexive(a: Held) {
        lemma_text_less_irreflexive(a.0.origin.source);
    }

    proof fn transitive(a: Held, b: Held, c: Held) {
        lemma_before_transitive(a.0, b.0, c.0);
    }

    proof fn weak(a: Held, b: Held, c: Held) {
        lemma_before_weak(a.0, b.0, c.0);
    }
}

fn primary_numbers(p: &PatchMeta) -> (r: (Option<u32>, Option<u32>))
    ensures
        r == (primary_signature(p@), primary_mask(p@)),
{
    match p.primary_match() {
        Some(m) => (Some(m.signature.0), Some(m.platform_mask.0)),
        None => (None, None),
    }
}

fn option_eq(a: Option<u32>, b: Option<u32>) -> (r: bool)
    ensures
        r == (a == b),
{
    match (a, b) {
        (Some(x), Some(y)) => x == y,
        (None, None) => true,
        _ => false,
    }
}

fn option_less(a: Option<u32>, b: Option<u32>) -> (r: bool)
    ensures
        r == (rank_of(a) < rank_of(b)),
{
    match (a, b) {
        (Some(x), Some(y)) => x < y,
        (None, Some(_)) => true,
        _ => false,
    }
}

impl Order<HeldPatch> for Canonical {
    fn is_less(a: &HeldPatch, b: &HeldPatch) -> (r: bool) {
        let pa: &PatchMeta = &a.0;
        let pb: &PatchMeta = &b.0;
        if pa.vendor != pb.vendor {
            return pa.vendor == Vendor::Intel;
        }
        let (sa, ma) = primary_numbers(pa);
        let (sb, mb) = primary_numbers(pb);
        if !option_eq(sa, sb) {
            return option_less(sa, sb);
        }
        if !option_eq(ma, mb) {
            return option_less(ma, mb);
        }
        if pa.revision != pb.revision {
            return pa.revision < pb.revision;
        }
        if !str_eq(pa.origin.source.as_str(), pb.origin.source.as_str()) {
            return str_less(pa.origin.source.as_str(), pb.origin.source.as_str());
        }
        pa.origin.offset < pb.origin.offset
    }
}

// --- duplicates -------------------------------------------------------------------

/// What duplicates agree in: the digest, zeros standing for none, and the
/// revision.
pub open spec fn content_key(p: PatchModel) -> (Seq<u8>, u32) {
    (
        match p.sha256 {
            Some(d) => d,
            None => Seq::new(32, |i: int| 0u8),
        },
        p.revision,
    )
}

/// A patch with the key of `p` is among the kept ones.
pub open spec fn kept_before(kept: Seq<Held>, p: PatchModel) -> bool {
    exists|i: int| 0 <= i < kept.len() && content_key((#[trigger] kept[i]).0) == content_key(p)
}

/// The first of each set of patches with the same digest and revision. A
/// patch without a digest is always kept.
pub open spec fn first_copies(s: Seq<Held>) -> Seq<Held>
    decreases s.len(),
{
    if s.len() == 0 {
        s
    } else {
        let kept = first_copies(s.drop_last());
        let p = s.last();
        if p.0.sha256 is Some && kept_before(kept, p.0) {
            kept
        } else {
            kept.push(p)
        }
    }
}

/// The patches and their bytes, as far as there are both.
pub open spec fn zipped(patches: Seq<PatchModel>, payloads: Seq<Seq<u8>>) -> Seq<Held> {
    Seq::new(
        if patches.len() <= payloads.len() {
            patches.len()
        } else {
            payloads.len()
        },
        |i: int| (patches[i], payloads[i]),
    )
}

/// The patches with their bytes in canonical order, without duplicates.
pub open spec fn normal_form(m: CatalogModel) -> Seq<Held> {
    first_copies(sort_by(zipped(m.patches, m.payloads), canonical()))
}

/// The catalog in canonical order, without duplicates.
pub open spec fn normalised(m: CatalogModel) -> CatalogModel {
    CatalogModel {
        patches: normal_form(m).map_values(|p: Held| p.0),
        payloads: normal_form(m).map_values(|p: Held| p.1),
        ..m
    }
}

fn same_key(a: &PatchMeta, b: &PatchMeta) -> (r: bool)
    ensures
        r == (content_key(a@) == content_key(b@)),
{
    if a.revision != b.revision {
        return false;
    }
    let zero = [0u8; 32];
    assert(zero@ =~= Seq::new(32, |i: int| 0u8));
    let x: [u8; 32] = match a.sha256 {
        Some(d) => d,
        None => zero,
    };
    let y: [u8; 32] = match b.sha256 {
        Some(d) => d,
        None => zero,
    };
    bytes_eq(x.as_slice(), y.as_slice())
}

fn is_kept(patches: &Vec<PatchMeta>, p: &PatchMeta, Ghost(kept): Ghost<Seq<Held>>) -> (r: bool)
    requires
        kept.len() == patches@.len(),
        forall|i: int| 0 <= i < kept.len() ==> (#[trigger] kept[i]).0 == patches@[i]@,
    ensures
        r == kept_before(kept, p@),
{
    let mut i: usize = 0;
    while i < patches.len()
        invariant
            i <= patches@.len(),
            kept.len() == patches@.len(),
            forall|i: int| 0 <= i < kept.len() ==> (#[trigger] kept[i]).0 == patches@[i]@,
            forall|k: int| 0 <= k < i ==> content_key((#[trigger] kept[k]).0) != content_key(p@),
        decreases patches@.len() - i,
    {
        if same_key(&patches[i], p) {
            assert(content_key(kept[i as int].0) == content_key(p@));
            return true;
        }
        i = i + 1;
    }
    false
}

/// The vendors among patches: each at most once, Intel first.
pub open spec fn vendors_of(patches: Seq<PatchModel>) -> Seq<Vendor> {
    let intel = exists|i: int| 0 <= i < patches.len() && (#[trigger] patches[i]).vendor == Vendor::Intel;
    let amd = exists|i: int| 0 <= i < patches.len() && (#[trigger] patches[i]).vendor == Vendor::Amd;
    (if intel {
        seq![Vendor::Intel]
    } else {
        Seq::empty()
    }) + (if amd {
        seq![Vendor::Amd]
    } else {
        Seq::empty()
    })
}

/// The two patches come from the same place and are the same revision of the
/// same vendor's microcode.
pub open spec fn same_identity(a: PatchModel, b: PatchModel) -> bool {
    a.origin == b.origin && a.revision == b.revision && a.vendor == b.vendor
}

/// The position of the first patch with the identity of `p`.
pub open spec fn position_of(patches: Seq<PatchModel>, p: PatchModel, from: int) -> Option<int>
    decreases patches.len() - from,
{
    if from < 0 || from >= patches.len() {
        None
    } else if same_identity(patches[from], p) {
        Some(from)
    } else {
        position_of(patches, p, from + 1)
    }
}

/// The bytes of the first patch with the identity of `p`.
pub open spec fn payload_of(m: CatalogModel, p: PatchModel) -> Option<Seq<u8>> {
    match position_of(m.patches, p, 0) {
        Some(i) => if i < m.payloads.len() {
            Some(m.payloads[i])
        } else {
            None
        },
        None => None,
    }
}

fn is_same(a: &PatchMeta, b: &PatchMeta) -> (r: bool)
    ensures
        r == same_identity(a@, b@),
{
    a.origin.offset == b.origin.offset && a.origin.length == b.origin.length && a.revision == b.revision
        && a.vendor == b.vendor && str_eq(a.origin.source.as_str(), b.origin.source.as_str())
}

// --- groups -----------------------------------------------------------------------

/// A target and the patches for it.
pub type Group = ((Vendor, CpuSignature), Seq<PatchModel>);

pub open spec fn target_before(a: (Vendor, CpuSignature), b: (Vendor, CpuSignature)) -> bool {
    a.0.rank() < b.0.rank() || (a.0 == b.0 && a.1.0 < b.1.0)
}

/// The groups with one more patch for a target.
pub open spec fn grouped(groups: Seq<Group>, key: (Vendor, CpuSignature), p: PatchModel) -> Seq<Group>
    decreases groups.len(),
{
    if groups.len() == 0 || target_before(groups.last().0, key) {
        groups.push((key, seq![p]))
    } else if groups.last().0 == key {
        groups.drop_last().push((key, groups.last().1.push(p)))
    } else {
        grouped(groups.drop_last(), key, p).push(groups.last())
    }
}

/// The groups with a patch added for the first `n` of its pairs.
pub open spec fn grouped_pairs(groups: Seq<Group>, p: PatchModel, n: nat) -> Seq<Group>
    decreases n,
{
    if n == 0 {
        groups
    } else {
        grouped(
            grouped_pairs(groups, p, (n - 1) as nat),
            (p.vendor, p.matches[n - 1].signature),
            p,
        )
    }
}

/// The patches by target, in ascending order of vendor and signature.
pub open spec fn groups_of(patches: Seq<PatchModel>) -> Seq<Group>
    decreases patches.len(),
{
    if patches.len() == 0 {
        Seq::empty()
    } else {
        grouped_pairs(
            groups_of(patches.drop_last()),
            patches.last(),
            patches.last().matches.len(),
        )
    }
}

/// A target and the patches for it, borrowed from a catalog.
pub type PatchGroup<'a> = ((Vendor, CpuSignature), Vec<&'a PatchMeta>);

pub open spec fn groups_view(v: Seq<PatchGroup>) -> Seq<Group> {
    v.map_values(|g: PatchGroup| (g.0, refs_view(g.1@)))
}

fn is_target_before(a: (Vendor, CpuSignature), b: (Vendor, CpuSignature)) -> (r: bool)
    ensures
        r == target_before(a, b),
{
    (a.0 == Vendor::Intel && b.0 == Vendor::Amd) || (a.0 == b.0 && a.1.0 < b.1.0)
}

fn add_to_groups<'a>(groups: Vec<PatchGroup<'a>>, key: (Vendor, CpuSignature), p: &'a PatchMeta) -> (r: Vec<
    PatchGroup<'a>,
>)
    ensures
        groups_view(r@) == grouped(groups_view(groups@), key, p@),
{
    let ghost all = groups_view(groups@);
    let mut out = groups;
    let mut i: usize = out.len();
    assert(all.take(i as int) =~= all);
    assert(grouped(all, key, p@) =~= grouped(all.take(i as int), key, p@) + all.skip(i as int));
    while i > 0 && !is_target_before(out[i - 1].0, key) && !(out[i - 1].0.0 == key.0 && out[i - 1].0.1
        == key.1)
        invariant
            i <= out@.len(),
            out@ == groups@,
            all == groups_view(out@),
            grouped(all, key, p@) =~= grouped(all.take(i as int), key, p@) + all.skip(i as int),
        decreases i,
    {
        assert(all.take(i as int).drop_last() =~= all.take(i - 1));
        assert(all.take(i as int).last() == all[i - 1]);
        assert(all.skip(i - 1) =~= seq![all[i - 1]] + all.skip(i as int));
        i = i - 1;
    }
    assert(i > 0 ==> all.take(i as int).drop_last() =~= all.take(i - 1));
    assert(i > 0 ==> all.take(i as int).last() == all[i - 1]);
    if i > 0 && out[i - 1].0.0 == key.0 && out[i - 1].0.1 == key.1 {
        let (k, list) = out.remove(i - 1);
        let ghost old_list = list@;
        let mut more = list;
        more.push(p);
        assert(refs_view(more@) =~= refs_view(old_list).push(p@));
        out.insert(i - 1, (k, more));
        assert(groups_view(out@) =~= all.update(i - 1, (k, refs_view(more@))));
    } else {
        let mut list: Vec<&'a PatchMeta> = Vec::new();
        list.push(p);
        assert(refs_view(list@) =~= seq![p@]);
        out.insert(i, (key, list));
        assert(groups_view(out@) =~= all.insert(i as int, (key, seq![p@])));
    }
    assert(groups_view(out@) =~= grouped(all, key, p@));
    out
}

// --- sidecar ----------------------------------------------------------------------

/// The patch with the minimum base revision that was published for it.
pub open spec fn with_minimum(p: PatchModel, minimums: Map<u32, u32>) -> PatchModel {
    if p.vendor == Vendor::Amd && minimums.contains_key(p.revision) {
        PatchModel { min_base_revision: Some(minimums[p.revision]), ..p }
    } else {
        p
    }
}

/// How many patches have a published minimum.
pub open spec fn minimum_count(patches: Seq<PatchModel>, minimums: Map<u32, u32>) -> nat
    decreases patches.len(),
{
    if patches.len() == 0 {
        0
    } else {
        minimum_count(patches.drop_last(), minimums) + if patches.last().vendor == Vendor::Amd
            && minimums.contains_key(patches.last().revision) {
            1nat
        } else {
            0nat
        }
    }
}

impl Catalog {
    pub fn len(&self) -> (r: usize)
        ensures
            r == self@.patches.len(),
    {
        self.patches.len()
    }

    pub fn is_empty(&self) -> (r: bool)
        ensures
            r == (self@.patches.len() == 0),
    {
        self.patches.len() == 0
    }

    /// Every patch with its bytes.
    pub fn iter(&self) -> (r: Vec<(&PatchMeta, &[u8])>)
        ensures
            r@.len() == zipped(self@.patches, self@.payloads).len(),
            forall|i: int|
                0 <= i < r@.len() ==> ((#[trigger] r@[i]).0@, r@[i].1@) == zipped(
                    self@.patches,
                    self@.payloads,
                )[i],
    {
        let mut out: Vec<(&PatchMeta, &[u8])> = Vec::new();
        let mut i: usize = 0;
        while i < self.patches.len() && i < self.payloads.len()
            invariant
                i <= self.patches@.len(),
                i <= self.payloads@.len(),
                out@.len() == i,
                forall|k: int|
                    0 <= k < i ==> (#[trigger] out@[k]).0@ == self@.patches[k] && out@[k].1@
                        == self@.payloads[k],
            decreases self.patches@.len() - i,
        {
            out.push((&self.patches[i], self.payloads[i].as_slice()));
            i = i + 1;
        }
        out
    }

    pub fn vendors(&self) -> (r: Vec<Vendor>)
        ensures
            r@ == vendors_of(self@.patches),
    {
        let mut intel = false;
        let mut amd = false;
        let mut i: usize = 0;
        while i < self.patches.len()
            invariant
                i <= self.patches@.len(),
                intel <==> exists|k: int|
                    0 <= k < i && (#[trigger] self@.patches[k]).vendor == Vendor::Intel,
                amd <==> exists|k: int|
                    0 <= k < i && (#[trigger] self@.patches[k]).vendor == Vendor::Amd,
            decreases self.patches@.len() - i,
        {
            assert(self@.patches[i as int].vendor == self.patches@[i as int].vendor);
            match self.patches[i].vendor {
                Vendor::Intel => {
                    intel = true;
                },
                Vendor::Amd => {
                    amd = true;
                },
            }
            i = i + 1;
        }
        let mut out: Vec<Vendor> = Vec::new();
        if intel {
            out.push(Vendor::Intel);
        }
        if amd {
            out.push(Vendor::Amd);
        }
        assert(out@ =~= vendors_of(self@.patches));
        out
    }

    /// Sort into the canonical order and drop byte-identical duplicates.
    pub fn normalise(&mut self)
        ensures
            final(self)@ == normalised(old(self)@),
    {
        let ghost before = self@;
        let mut metas: Vec<PatchMeta> = Vec::new();
        let mut blobs: Vec<Vec<u8>> = Vec::new();
        std::mem::swap(&mut metas, &mut self.patches);
        std::mem::swap(&mut blobs, &mut self.payloads);
        let pairs = zip(metas, blobs);
        let ghost unsorted = pairs@;
        let sorted = sort::<HeldPatch, Canonical>(pairs);
        proof {
            lemma_sort_map(
                unsorted,
                |p: HeldPatch| held(p),
                order_of::<HeldPatch, Canonical>(),
                canonical(),
            );
            assert(held_view(unsorted) =~= zipped(before.patches, before.payloads));
        }
        // Deduplicate on content hash + identity. Keeps the first occurrence,
        // which after sorting is the lexicographically smallest source.
        let (patches, payloads) = drop_copies(sorted);
        self.patches = patches;
        self.payloads = payloads;
        assert(self@ =~= normalised(before));
    }

    /// All patches applicable to a given CPU, best first.
    pub fn select(&self, cpu: &CpuIdentity) -> (r: SelectionOutcome<'_>)
        ensures
            r@ == selection(self@.patches, *cpu),
    {
        select_for_cpu(self.patches.as_slice(), cpu)
    }

    /// Index of a patch by identity, for payload retrieval.
    pub fn payload_for(&self, meta: &PatchMeta) -> (r: Option<&[u8]>)
        ensures
            match r {
                Some(b) => payload_of(self@, meta@) == Some(b@),
                None => payload_of(self@, meta@) is None,
            },
    {
        let mut i: usize = 0;
        while i < self.patches.len()
            invariant
                i <= self.patches@.len(),
                position_of(self@.patches, meta@, 0) == position_of(self@.patches, meta@, i as int),
            decreases self.patches@.len() - i,
        {
            assert(self@.patches[i as int] == self.patches@[i as int]@);
            if is_same(&self.patches[i], meta) {
                if i < self.payloads.len() {
                    return Some(self.payloads[i].as_slice());
                } else {
                    return None;
                }
            }
            i = i + 1;
        }
        None
    }

    /// Group patches by target signature. Useful for `list` output.
    pub fn by_signature(&self) -> (r: Vec<PatchGroup<'_>>)
        ensures
            groups_view(r@) == groups_of(self@.patches),
    {
        let mut out: Vec<PatchGroup<'_>> = Vec::new();
        assert(groups_view(out@) =~= groups_of(self@.patches.take(0)));
        let mut i: usize = 0;
        while i < self.patches.len()
            invariant
                i <= self.patches@.len(),
                groups_view(out@) == groups_of(self@.patches.take(i as int)),
            decreases self.patches@.len() - i,
        {
            let p: &PatchMeta = &self.patches[i];
            let ghost groups = groups_view(out@);
            assert(self@.patches.take(i + 1).drop_last() =~= self@.patches.take(i as int));
            assert(self@.patches.take(i + 1).last() == p@);
            let mut k: usize = 0;
            while k < p.matches.len()
                invariant
                    k <= p.matches@.len(),
                    groups_view(out@) == grouped_pairs(groups, p@, k as nat),
                decreases p.matches@.len() - k,
            {
                out = add_to_groups(out, (p.vendor, p.matches[k].signature), p);
                k = k + 1;
            }
            i = i + 1;
        }
        assert(self@.patches.take(i as int) =~= self@.patches);
        out
    }

    /// Apply out-of-band AMD minimum-base-revision metadata.
    pub fn apply_sidecar(&mut self, sidecar: &AmdSidecar) -> (r: usize)
        ensures
            final(self)@ == (CatalogModel {
                patches: old(self)@.patches.map_values(
                    |p: PatchModel| with_minimum(p, sidecar@.minimums),
                ),
                ..old(self)@
            }),
            r == minimum_count(old(self)@.patches, sidecar@.minimums),
    {
        let ghost before = self@;
        let ghost minimums = sidecar@.minimums;
        let mut metas: Vec<PatchMeta> = Vec::new();
        std::mem::swap(&mut metas, &mut self.patches);
        let ghost given = metas@;
        let mut out: Vec<PatchMeta> = Vec::new();
        let mut applied: usize = 0;
        let n: usize = metas.len();
        for p in it: metas
            invariant
                it.seq() == given,
                n == given.len(),
                before.patches == metas_view(given),
                minimums == sidecar@.minimums,
                applied <= it.index(),
                out@.len() == it.index(),
                applied == minimum_count(before.patches.take(it.index() as int), minimums),
                forall|k: int|
                    0 <= k < it.index() ==> (#[trigger] out@[k])@ == with_minimum(
                        before.patches[k],
                        minimums,
                    ),
        {
            let ghost k = it.index() as int;
            assert(before.patches.take(k + 1).drop_last() =~= before.patches.take(k));
            assert(before.patches.take(k + 1).last() == p@);
            let mut q = p;
            if q.vendor == Vendor::Amd {
                if let Some(min) = sidecar.min_base_revision(q.revision) {
                    q.min_base_revision = Some(min);
                    applied = applied + 1;
                }
            }
            out.push(q);
        }
        assert(before.patches.take(before.patches.len() as int) =~= before.patches);
        self.patches = out;
        assert(self@.patches =~= before.patches.map_values(
            |p: PatchModel| with_minimum(p, sidecar@.minimums),
        ));
        applied
    }
}

fn zip(metas: Vec<PatchMeta>, blobs: Vec<Vec<u8>>) -> (r: Vec<HeldPatch>)
    ensures
        held_view(r@) == zipped(metas_view(metas@), payloads_view(blobs@)),
{
    let ghost a = metas@;
    let ghost b = blobs@;
    let n: usize = if metas.len() <= blobs.len() {
        metas.len()
    } else {
        blobs.len()
    };
    let mut metas = metas;
    let mut blobs = blobs;
    metas.truncate(n);
    blobs.truncate(n);
    let mut out: Vec<HeldPatch> = Vec::new();
    // Taken from the back, so that nothing is moved twice.
    while metas.len() > 0
        invariant
            n <= a.len(),
            n <= b.len(),
            metas@.len() == blobs@.len(),
            metas@.len() + out@.len() == n,
            metas@ == a.take(metas@.len() as int),
            blobs@ == b.take(blobs@.len() as int),
            forall|k: int| 0 <= k < out@.len() ==> #[trigger] out@[k] == (a[n - 1 - k], b[n - 1 - k]),
        decreases metas@.len(),
    {
        let ghost len = metas@.len() as int;
        match (metas.pop(), blobs.pop()) {
            (Some(m), Some(p)) => {
                out.push((m, p));
            },
            _ => {
                assert(false);
            },
        }
        assert(metas@ =~= a.take(len - 1));
        assert(blobs@ =~= b.take(len - 1));
    }
    let mut r: Vec<HeldPatch> = Vec::new();
    while out.len() > 0
        invariant
            n <= a.len(),
            n <= b.len(),
            out@.len() + r@.len() == n,
            forall|k: int| 0 <= k < out@.len() ==> #[trigger] out@[k] == (a[n - 1 - k], b[n - 1 - k]),
            forall|k: int| 0 <= k < r@.len() ==> #[trigger] r@[k] == (a[k], b[k]),
        decreases out@.len(),
    {
        if let Some(p) = out.pop() {
            r.push(p);
        }
    }
    assert(held_view(r@) =~= zipped(metas_view(a), payloads_view(b)));
    r
}

fn drop_copies(sorted: Vec<HeldPatch>) -> (r: (Vec<PatchMeta>, Vec<Vec<u8>>))
    ensures
        metas_view(r.0@) == first_copies(held_view(sorted@)).map_values(|p: Held| p.0),
        payloads_view(r.1@) == first_copies(held_view(sorted@)).map_values(|p: Held| p.1),
{
    let ghost all = held_view(sorted@);
    let mut patches: Vec<PatchMeta> = Vec::new();
    let mut payloads: Vec<Vec<u8>> = Vec::new();
    for p in it: sorted
        invariant
            it.seq() == sorted@,
            all == held_view(sorted@),
            patches@.len() == first_copies(all.take(it.index() as int)).len(),
            payloads@.len() == patches@.len(),
            forall|k: int|
                0 <= k < patches@.len() ==> (#[trigger] first_copies(all.take(it.index() as int))[k]).0
                    == patches@[k]@ && first_copies(all.take(it.index() as int))[k].1 == payloads@[k]@,
    {
        let ghost k = it.index() as int;
        let ghost kept = first_copies(all.take(k));
        assert(all.take(k + 1).drop_last() =~= all.take(k));
        assert(all.take(k + 1).last() == held(p));
        let (meta, payload) = p;
        if meta.sha256.is_some() && is_kept(&patches, &meta, Ghost(kept)) {
        } else {
            patches.push(meta);
            payloads.push(payload);
        }
    }
    assert(all.take(all.len() as int) =~= all);
    assert(metas_view(patches@) =~= first_copies(all).map_values(|p: Held| p.0));
    assert(payloads_view(payloads@) =~= first_copies(all).map_values(|p: Held| p.1));
    (patches, payloads)
}

} // verus!
