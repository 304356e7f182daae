//! Laws of what a catalog holds and how it shows it.

use vstd::prelude::*;
use vstd::utf8::{decode_utf8, valid_utf8};
use crate::amd::container::{containers_of, AmdPatchModel, ContainerModel};
use crate::catalog::collection::{
    canonical, content_key, first_copies, grouped, grouped_pairs, groups_of, kept_before, minimum_count,
    normal_form, payload_of, position_of, same_identity, target_before, vendors_of, with_minimum, zipped,
    Canonical, CatalogModel, DetectedFormat, Group, Held,
};
use crate::catalog::ingest::{
    format_of, ingested, intel_ingested, length32, with_amds, with_containers, with_intels, IngestOptions,
};
use crate::catalog::law::law_normalised_is_sorted;
use crate::catalog::manifest::{describe, extra_pairs, revision_text, size_total, Manifest};
use crate::catalog::sidecar::{
    after_line, after_lines, hex_literal, literal_after, literal_char, readme, trim_literal, ReadmeState,
};
use crate::intel::bundle::{bundle_of, in_place, law_bundle_layout, BundleModel, EntryModel};
use crate::intel::dat::dat_bytes;
use crate::model::cpu::{CpuSignature, Vendor};
use crate::model::patch::{primary_of, PatchModel, ProcessorMatch, RuntimeUpdatePolicy};
use crate::number::{hex, hex_bytes, read_u32};
use crate::order::{is_sorted, law_sort_sorts, lemma_sort_members, order_of, sort_by};
use crate::text::{first_word, lemma_find_from, lines_text, occurs_at, starts_with, text_less, trim_text};

verus! {

// --- what is taken in ---------------------------------------------------------------

/// The catalog holds the entry as its patch `k`: as the entry describes it, and
/// with its bytes where they are kept.
pub open spec fn holds_entry(d: CatalogModel, k: int, e: EntryModel, b: Seq<u8>, path: Seq<char>, keep: bool) -> bool {
    &&& d.patches[k] == e.meta(path)
    &&& keep ==> d.payloads[k] == b.subrange(e.offset as int, e.offset + e.size)
    &&& !keep ==> d.payloads[k].len() == 0
}

proof fn lemma_entries_held(
    d: CatalogModel,
    entries: Seq<EntryModel>,
    b: Seq<u8>,
    path: Seq<char>,
    keep: bool,
)
    requires
        d.patches.len() == 0,
        d.payloads.len() == 0,
        forall|i: int|
            0 <= i < entries.len() ==> (#[trigger] entries[i]).offset + entries[i].size <= b.len(),
    ensures
        ({
            let n = with_intels(d, entries, b, path, keep);
            &&& n.patches.len() == entries.len()
            &&& n.payloads.len() == entries.len()
            &&& forall|k: int|
                0 <= k < entries.len() ==> holds_entry(n, k, #[trigger] entries[k], b, path, keep)
            &&& n.report.len() >= d.report.len()
            &&& n.report.take(d.report.len() as int) == d.report
        }),
    decreases entries.len(),
{
    let n = with_intels(d, entries, b, path, keep);
    if entries.len() > 0 {
        let front = entries.drop_last();
        assert forall|i: int| 0 <= i < front.len() implies (#[trigger] front[i]).offset + front[i].size
            <= b.len() by {
            assert(front[i] == entries[i]);
        }
        lemma_entries_held(d, front, b, path, keep);
        let m = with_intels(d, front, b, path, keep);
        let e = entries[entries.len() - 1];
        assert(e.offset + e.size <= b.len());
        assert(length32(e.size as nat) == e.size);
        assert forall|k: int| 0 <= k < entries.len() implies holds_entry(
            n,
            k,
            #[trigger] entries[k],
            b,
            path,
            keep,
        ) by {
            if k < front.len() {
                assert(front[k] == entries[k]);
                assert(holds_entry(m, k, front[k], b, path, keep));
                assert(n.patches[k] == m.patches[k] && n.payloads[k] == m.payloads[k]);
            } else {
                assert(n.patches[k] =~= e.meta(path));
            }
        }
        assert(n.report.take(d.report.len() as int) =~= m.report.take(d.report.len() as int));
    } else {
        assert(d.report.take(d.report.len() as int) =~= d.report);
    }
}

/// The entries of a bundle are held one by one, in their order.
pub open spec fn holds_all(d: CatalogModel, bundle: BundleModel, b: Seq<u8>, path: Seq<char>, keep: bool) -> bool {
    &&& d.patches.len() == bundle.entries.len()
    &&& d.payloads.len() == bundle.entries.len()
    &&& forall|k: int|
        0 <= k < bundle.entries.len() ==> holds_entry(d, k, #[trigger] bundle.entries[k], b, path, keep)
    &&& d.amd_equivalence.len() == 0
}

/// An Intel blob adds the entries that it is made of, each with its own bytes,
/// and a text the entries of the binary form that it stands for. A blob that
/// cannot be parsed, or a text that cannot be read, adds nothing and is refused.
pub proof fn law_intel_blobs_add_their_entries(path: Seq<char>, b: Seq<u8>, opts: IngestOptions)
    requires
        opts.only_vendor != Some(Vendor::Amd),
    ensures
        format_of(b) == DetectedFormat::IntelBinary ==> match bundle_of(b, opts.mode, opts.limits) {
            Ok(bundle) => (ingested(CatalogModel::empty(), path, b, opts) matches Ok(d) && holds_all(
                d,
                bundle,
                b,
                path,
                opts.keep_payloads,
            )),
            Err(_) => ingested(CatalogModel::empty(), path, b, opts) is Err,
        },
        format_of(b) == DetectedFormat::IntelDat ==> match dat_bytes(decode_utf8(b)) {
            Ok(binary) => match bundle_of(binary, opts.mode, opts.limits) {
                Ok(bundle) => valid_utf8(b) ==> (ingested(CatalogModel::empty(), path, b, opts) matches Ok(d)
                    && holds_all(d, bundle, binary, path, opts.keep_payloads)),
                Err(_) => ingested(CatalogModel::empty(), path, b, opts) is Err,
            },
            Err(_) => ingested(CatalogModel::empty(), path, b, opts) is Err,
        },
        format_of(b) == DetectedFormat::Unknown ==> ingested(CatalogModel::empty(), path, b, opts) is Err,
{
    lemma_bundle_held(path, b, opts);
    if let Ok(binary) = dat_bytes(decode_utf8(b)) {
        lemma_bundle_held(path, binary, opts);
    }
}

proof fn lemma_bundle_held(path: Seq<char>, b: Seq<u8>, opts: IngestOptions)
    ensures
        intel_ingested(CatalogModel::empty(), path, b, opts) matches Ok(d) ==> holds_all(
            d,
            bundle_of(b, opts.mode, opts.limits)->Ok_0,
            b,
            path,
            opts.keep_payloads,
        ),
{
    if let Ok(bundle) = bundle_of(b, opts.mode, opts.limits) {
        law_bundle_layout(b, opts.mode, opts.limits);
        assert forall|i: int| 0 <= i < bundle.entries.len() implies (#[trigger] bundle.entries[i]).offset
            + bundle.entries[i].size <= b.len() by {
            assert(in_place(b, bundle.entries[i], opts.limits));
        }
        let e = CatalogModel::empty();
        let d = CatalogModel { report: e.report + bundle.report, ..e };
        lemma_entries_held(d, bundle.entries, b, path, opts.keep_payloads);
        lemma_no_table(d, bundle.entries, b, path, opts.keep_payloads);
    }
}

proof fn lemma_no_table(d: CatalogModel, entries: Seq<EntryModel>, b: Seq<u8>, path: Seq<char>, keep: bool)
    ensures
        with_intels(d, entries, b, path, keep).amd_equivalence == d.amd_equivalence,
    decreases entries.len(),
{
    if entries.len() > 0 {
        lemma_no_table(d, entries.drop_last(), b, path, keep);
    }
}

/// The catalog holds the patch as its patch `k`.
pub open spec fn holds_amd(d: CatalogModel, k: int, p: AmdPatchModel, b: Seq<u8>, path: Seq<char>, keep: bool) -> bool {
    &&& d.patches[k] == p.meta(path)
    &&& keep && p.offset + p.size <= b.len() ==> d.payloads[k] == b.subrange(
        p.offset as int,
        p.offset + p.size,
    )
    &&& !keep ==> d.payloads[k].len() == 0
}

/// The patches of all containers, one container behind the other.
pub open spec fn all_patches(cs: Seq<ContainerModel>) -> Seq<AmdPatchModel> {
    cs.map_values(|c: ContainerModel| c.patches).flatten()
}

proof fn lemma_amds_held(
    d: CatalogModel,
    before: Seq<AmdPatchModel>,
    ps: Seq<AmdPatchModel>,
    b: Seq<u8>,
    path: Seq<char>,
    keep: bool,
)
    requires
        d.patches.len() == before.len(),
        d.payloads.len() == before.len(),
        forall|k: int| 0 <= k < before.len() ==> holds_amd(d, k, #[trigger] before[k], b, path, keep),
    ensures
        ({
            let n = with_amds(d, ps, b, path, keep);
            let all = before + ps;
            &&& n.patches.len() == all.len()
            &&& n.payloads.len() == all.len()
            &&& forall|k: int| 0 <= k < all.len() ==> holds_amd(n, k, #[trigger] all[k], b, path, keep)
            &&& n.amd_equivalence == d.amd_equivalence
        }),
    decreases ps.len(),
{
    let n = with_amds(d, ps, b, path, keep);
    let all = before + ps;
    if ps.len() > 0 {
        lemma_amds_held(d, before, ps.drop_last(), b, path, keep);
        let m = with_amds(d, ps.drop_last(), b, path, keep);
        let front = before + ps.drop_last();
        assert forall|k: int| 0 <= k < all.len() implies holds_amd(n, k, #[trigger] all[k], b, path, keep) by {
            if k < front.len() {
                assert(front[k] == all[k]);
                assert(holds_amd(m, k, front[k], b, path, keep));
                assert(n.patches[k] == m.patches[k] && n.payloads[k] == m.payloads[k]);
            }
        }
    } else {
        assert(all =~= before);
    }
}

proof fn lemma_containers_held(cs: Seq<ContainerModel>, b: Seq<u8>, path: Seq<char>, keep: bool)
    ensures
        ({
            let n = with_containers(CatalogModel::empty(), cs, b, path, keep);
            let all = all_patches(cs);
            &&& n.patches.len() == all.len()
            &&& n.payloads.len() == all.len()
            &&& forall|k: int| 0 <= k < all.len() ==> holds_amd(n, k, #[trigger] all[k], b, path, keep)
            &&& n.amd_equivalence == cs.map_values(|c: ContainerModel| c.equivalence).flatten()
        }),
    decreases cs.len(),
{
    let lists = cs.map_values(|c: ContainerModel| c.patches);
    let tables = cs.map_values(|c: ContainerModel| c.equivalence);
    if cs.len() > 0 {
        let front = cs.drop_last();
        let c = cs.last();
        lemma_containers_held(front, b, path, keep);
        let m = with_containers(CatalogModel::empty(), front, b, path, keep);
        let start = CatalogModel { report: m.report + c.report, ..m };
        assert forall|k: int| 0 <= k < all_patches(front).len() implies holds_amd(
            start,
            k,
            #[trigger] all_patches(front)[k],
            b,
            path,
            keep,
        ) by {
            assert(holds_amd(m, k, all_patches(front)[k], b, path, keep));
        }
        lemma_amds_held(start, all_patches(front), c.patches, b, path, keep);
        assert(lists.drop_last() =~= front.map_values(|c: ContainerModel| c.patches));
        assert(tables.drop_last() =~= front.map_values(|c: ContainerModel| c.equivalence));
        lists.lemma_flatten_and_flatten_alt_are_equivalent();
        lists.drop_last().lemma_flatten_and_flatten_alt_are_equivalent();
        tables.lemma_flatten_and_flatten_alt_are_equivalent();
        tables.drop_last().lemma_flatten_and_flatten_alt_are_equivalent();
        assert(all_patches(cs) =~= all_patches(front) + c.patches);
    } else {
        assert(lists =~= Seq::empty());
        assert(tables =~= Seq::empty());
    }
}

/// An AMD blob adds the patches of all its containers in order, each with its
/// own bytes, and the entries of all their tables.
pub proof fn law_amd_blobs_add_their_containers(path: Seq<char>, b: Seq<u8>, opts: IngestOptions)
    requires
        opts.only_vendor != Some(Vendor::Intel),
        format_of(b) == DetectedFormat::AmdContainer,
    ensures
        match containers_of(b, opts.limits) {
            Ok(cs) => (ingested(CatalogModel::empty(), path, b, opts) matches Ok(d) && ({
                let all = all_patches(cs);
                &&& d.patches.len() == all.len()
                &&& d.payloads.len() == all.len()
                &&& forall|k: int|
                    0 <= k < all.len() ==> holds_amd(d, k, #[trigger] all[k], b, path, opts.keep_payloads)
                &&& d.amd_equivalence == cs.map_values(|c: ContainerModel| c.equivalence).flatten()
            })),
            Err(_) => ingested(CatalogModel::empty(), path, b, opts) is Err,
        },
{
    if let Ok(cs) = containers_of(b, opts.limits) {
        lemma_containers_held(cs, b, path, opts.keep_payloads);
    }
}

// --- order and lookup ---------------------------------------------------------------

/// An optional number is at most another, and nothing is less than any.
pub open spec fn at_most(a: Option<u32>, b: Option<u32>) -> bool {
    match (a, b) {
        (None, _) => true,
        (Some(_), None) => false,
        (Some(x), Some(y)) => x <= y,
    }
}

/// The signature and the platform mask of the pair that a patch is filed under.
pub open spec fn file_key(p: PatchModel) -> (Option<u32>, Option<u32>) {
    match primary_of(p.matches) {
        Some(m) => (Some(m.signature.0), Some(m.platform_mask.0)),
        None => (None, None),
    }
}

/// A patch may stand before another: Intel before AMD, then by signature,
/// platform mask, revision, source and offset.
pub open spec fn may_precede(a: PatchModel, b: PatchModel) -> bool {
    let (sa, ma) = file_key(a);
    let (sb, mb) = file_key(b);
    ||| a.vendor == Vendor::Intel && b.vendor == Vendor::Amd
    ||| a.vendor == b.vendor && sa != sb && at_most(sa, sb)
    ||| a.vendor == b.vendor && sa == sb && ma != mb && at_most(ma, mb)
    ||| a.vendor == b.vendor && sa == sb && ma == mb && a.revision < b.revision
    ||| a.vendor == b.vendor && sa == sb && ma == mb && a.revision == b.revision && (a.origin.source
        == b.origin.source && a.origin.offset <= b.origin.offset || a.origin.source != b.origin.source
        && !text_less(b.origin.source, a.origin.source))
}

/// The patches of a normalised catalog stand in their order.
pub proof fn law_catalogs_are_in_order(m: CatalogModel, i: int, j: int)
    requires
        0 <= i < j < normal_form(m).len(),
    ensures
        may_precede(normal_form(m)[i].0, normal_form(m)[j].0),
{
    law_normalised_is_sorted(m);
    let s = normal_form(m);
    assert(is_sorted(s, canonical()));
    assert(!(canonical())(s[j], s[i]));
}

proof fn lemma_first_copy(s: Seq<Held>, k: int)
    requires
        0 <= k < s.len(),
    ensures
        exists|j: int, i: int|
            0 <= j < first_copies(s).len() && 0 <= i <= k && #[trigger] first_copies(s)[j] == #[trigger] s[i]
                && content_key(s[i].0) == content_key(s[k].0),
    decreases s.len(),
{
    let front = s.drop_last();
    let kept = first_copies(front);
    let all = first_copies(s);
    if k < front.len() {
        lemma_first_copy(front, k);
        let (j, i) = choose|j: int, i: int|
            0 <= j < kept.len() && 0 <= i <= k && #[trigger] kept[j] == #[trigger] front[i] && content_key(front[i].0)
                == content_key(front[k].0);
        assert(all[j] == kept[j]);
        assert(s[i] == front[i] && s[k] == front[k]);
    } else if s.last().0.sha256 is Some && kept_before(kept, s.last().0) {
        let j = choose|j: int|
            0 <= j < kept.len() && content_key((#[trigger] kept[j]).0) == content_key(s.last().0);
        lemma_kept_is_given(front, j);
        let i = choose|i: int| 0 <= i < front.len() && front[i] == kept[j];
        assert(all[j] == s[i]);
    } else {
        assert(all[kept.len() as int] == s[k]);
    }
}

proof fn lemma_kept_is_given(s: Seq<Held>, j: int)
    requires
        0 <= j < first_copies(s).len(),
    ensures
        exists|i: int| 0 <= i < s.len() && s[i] == first_copies(s)[j],
    decreases s.len(),
{
    let front = s.drop_last();
    let kept = first_copies(front);
    if j < kept.len() {
        lemma_kept_is_given(front, j);
        let i = choose|i: int| 0 <= i < front.len() && front[i] == kept[j];
        assert(s[i] == first_copies(s)[j]);
    } else {
        assert(s[s.len() - 1] == first_copies(s)[j]);
    }
}

/// Of the patches with the same digest and revision the one that comes first in
/// the order is kept: no other may precede it.
pub proof fn law_the_first_copy_is_kept(m: CatalogModel, p: Held)
    requires
        zipped(m.patches, m.payloads).contains(p),
        p.0.sha256 is Some,
    ensures
        exists|j: int|
            0 <= j < normal_form(m).len() && content_key((#[trigger] normal_form(m)[j]).0) == content_key(p.0)
                && may_precede(normal_form(m)[j].0, p.0),
{
    let given = zipped(m.patches, m.payloads);
    let s = sort_by(given, canonical());
    lemma_sort_members(given, canonical());
    assert(canonical() =~= order_of::<Held, Canonical>());
    law_sort_sorts::<Held, Canonical>(given);
    assert(s.contains(p));
    let k = choose|k: int| 0 <= k < s.len() && s[k] == p;
    lemma_first_copy(s, k);
    let (j, i) = choose|j: int, i: int|
        0 <= j < first_copies(s).len() && 0 <= i <= k && #[trigger] first_copies(s)[j] == #[trigger] s[i]
            && content_key(s[i].0) == content_key(s[k].0);
    assert(normal_form(m)[j] == s[i]);
    if i < k {
        assert(!(canonical())(s[k], s[i]));
    }
}

proof fn lemma_position(patches: Seq<PatchModel>, p: PatchModel, from: int)
    requires
        0 <= from <= patches.len(),
    ensures
        match position_of(patches, p, from) {
            Some(i) => from <= i < patches.len() && is_same_patch(patches[i], p) && forall|j: int|
                from <= j < i ==> !is_same_patch(#[trigger] patches[j], p),
            None => forall|j: int| from <= j < patches.len() ==> !is_same_patch(#[trigger] patches[j], p),
        },
    decreases patches.len() - from,
{
    if from < patches.len() {
        assert(same_identity(patches[from], p) <==> is_same_patch(
            patches[from],
            p,
        ));
        if !is_same_patch(patches[from], p) {
            lemma_position(patches, p, from + 1);
        }
    }
}

/// The two come from the same place and are the same revision of one vendor.
pub open spec fn is_same_patch(a: PatchModel, b: PatchModel) -> bool {
    a.vendor == b.vendor && a.revision == b.revision && a.origin.source == b.origin.source && a.origin.offset
        == b.origin.offset && a.origin.length == b.origin.length
}

/// The bytes of a patch are those at the side of the first patch of its
/// vendor and revision from its place, and there are none without one.
pub proof fn law_payloads_are_looked_up(m: CatalogModel, p: PatchModel)
    requires
        m.patches.len() == m.payloads.len(),
    ensures
        match payload_of(m, p) {
            Some(b) => exists|i: int|
                0 <= i < m.patches.len() && is_same_patch(#[trigger] m.patches[i], p) && b == m.payloads[i] && forall|
                    j: int,
                |
                    0 <= j < i ==> !is_same_patch(#[trigger] m.patches[j], p),
            None => forall|j: int| 0 <= j < m.patches.len() ==> !is_same_patch(#[trigger] m.patches[j], p),
        },
{
    lemma_position(m.patches, p, 0);
    if let Some(i) = position_of(m.patches, p, 0) {
        assert(is_same_patch(m.patches[i], p));
    }
}

/// The vendors of patches are those that occur, Intel before AMD.
pub proof fn law_vendors_occur(patches: Seq<PatchModel>, v: Vendor)
    ensures
        vendors_of(patches).contains(v) <==> exists|i: int|
            0 <= i < patches.len() && (#[trigger] patches[i]).vendor == v,
        vendors_of(patches).len() <= 2,
        vendors_of(patches).len() == 2 ==> vendors_of(patches)[0] == Vendor::Intel && vendors_of(patches)[1]
            == Vendor::Amd,
{
    let list = vendors_of(patches);
    let intel = exists|i: int| 0 <= i < patches.len() && (#[trigger] patches[i]).vendor == Vendor::Intel;
    let amd = exists|i: int| 0 <= i < patches.len() && (#[trigger] patches[i]).vendor == Vendor::Amd;
    if intel && amd {
        assert(list =~= seq![Vendor::Intel, Vendor::Amd]);
        assert(list[0] == Vendor::Intel && list[1] == Vendor::Amd);
    } else if intel {
        assert(list =~= seq![Vendor::Intel]);
        assert(list[0] == Vendor::Intel);
    } else if amd {
        assert(list =~= seq![Vendor::Amd]);
        assert(list[0] == Vendor::Amd);
    } else {
        assert(list =~= Seq::empty());
    }
}

// --- groups -------------------------------------------------------------------------

/// The targets of the groups ascend: Intel before AMD, then by signature.
pub open spec fn targets_ascend(groups: Seq<Group>) -> bool {
    forall|i: int, j: int|
        0 <= i < j < groups.len() ==> is_lower((#[trigger] groups[i]).0, (#[trigger] groups[j]).0)
}

pub open spec fn is_lower(a: (Vendor, CpuSignature), b: (Vendor, CpuSignature)) -> bool {
    ||| a.0 == Vendor::Intel && b.0 == Vendor::Amd
    ||| a.0 == b.0 && a.1.0 < b.1.0
}

/// The patch stands in the group of the target.
pub open spec fn is_grouped(groups: Seq<Group>, key: (Vendor, CpuSignature), p: PatchModel) -> bool {
    exists|i: int| 0 <= i < groups.len() && (#[trigger] groups[i]).0 == key && groups[i].1.contains(p)
}

proof fn lemma_grouped(groups: Seq<Group>, key: (Vendor, CpuSignature), p: PatchModel)
    requires
        targets_ascend(groups),
    ensures
        targets_ascend(grouped(groups, key, p)),
        forall|i: int|
            0 <= i < grouped(groups, key, p).len() ==> (#[trigger] grouped(groups, key, p)[i]).0 == key || exists|
                j: int,
            |
                0 <= j < groups.len() && (#[trigger] groups[j]).0 == grouped(groups, key, p)[i].0,
    decreases groups.len(),
{
    let all = grouped(groups, key, p);
    if groups.len() == 0 || target_before(groups.last().0, key) {
        assert(all == groups.push((key, seq![p])));
        assert forall|i: int, j: int| 0 <= i < j < all.len() implies is_lower(
            (#[trigger] all[i]).0,
            (#[trigger] all[j]).0,
        ) by {
            if j < groups.len() {
                assert(all[i] == groups[i] && all[j] == groups[j]);
            } else if i < groups.len() - 1 {
                assert(is_lower(groups[i].0, groups[groups.len() - 1].0));
            }
        }
        assert forall|i: int| 0 <= i < all.len() implies (#[trigger] all[i]).0 == key || exists|j: int|
            0 <= j < groups.len() && (#[trigger] groups[j]).0 == all[i].0 by {
            if i < groups.len() {
                assert(groups[i].0 == all[i].0);
            }
        }
    } else if groups.last().0 == key {
        let n = groups.len() - 1;
        assert forall|i: int, j: int| 0 <= i < j < all.len() implies is_lower(
            (#[trigger] all[i]).0,
            (#[trigger] all[j]).0,
        ) by {
            assert(all[i].0 == groups[i].0 && all[j].0 == groups[j].0);
        }
        assert forall|i: int| 0 <= i < all.len() implies (#[trigger] all[i]).0 == key || exists|j: int|
            0 <= j < groups.len() && (#[trigger] groups[j]).0 == all[i].0 by {
            assert(groups[i].0 == all[i].0);
        }
    } else {
        let front = groups.drop_last();
        let n = groups.len() - 1;
        assert forall|i: int, j: int| 0 <= i < j < front.len() implies is_lower(
            (#[trigger] front[i]).0,
            (#[trigger] front[j]).0,
        ) by {
            assert(front[i] == groups[i] && front[j] == groups[j]);
        }
        lemma_grouped(front, key, p);
        let less = grouped(front, key, p);
        assert(all == less.push(groups[n]));
        assert forall|i: int, j: int| 0 <= i < j < all.len() implies is_lower(
            (#[trigger] all[i]).0,
            (#[trigger] all[j]).0,
        ) by {
            if j < less.len() {
                assert(all[i] == less[i] && all[j] == less[j]);
            } else {
                assert(all[i] == less[i]);
                if less[i].0 != key {
                    let k = choose|k: int| 0 <= k < front.len() && (#[trigger] front[k]).0 == less[i].0;
                    assert(groups[k] == front[k]);
                    assert(is_lower(groups[k].0, groups[n].0));
                }
            }
        }
        assert forall|i: int| 0 <= i < all.len() implies (#[trigger] all[i]).0 == key || exists|j: int|
            0 <= j < groups.len() && (#[trigger] groups[j]).0 == all[i].0 by {
            if i < less.len() {
                assert(all[i] == less[i]);
                if less[i].0 != key {
                    let k = choose|k: int| 0 <= k < front.len() && (#[trigger] front[k]).0 == less[i].0;
                    assert(groups[k] == front[k]);
                }
            } else {
                assert(groups[n].0 == all[i].0);
            }
        }
    }
}

proof fn lemma_grouped_holds(
    groups: Seq<Group>,
    key: (Vendor, CpuSignature),
    p: PatchModel,
    k: (Vendor, CpuSignature),
    q: PatchModel,
)
    ensures
        is_grouped(grouped(groups, key, p), k, q) <==> is_grouped(groups, k, q) || (k == key && q == p),
    decreases groups.len(),
{
    let all = grouped(groups, key, p);
    if groups.len() == 0 || target_before(groups.last().0, key) {
        let g: Group = (key, seq![p]);
        assert(all == groups.push(g));
        assert(g.1[0] == p);
        if is_grouped(groups, k, q) {
            let i = choose|i: int| 0 <= i < groups.len() && (#[trigger] groups[i]).0 == k && groups[i].1.contains(q);
            assert(all[i] == groups[i]);
        }
        if k == key && q == p {
            assert(all[groups.len() as int].1.contains(p));
        }
        if is_grouped(all, k, q) {
            let i = choose|i: int| 0 <= i < all.len() && (#[trigger] all[i]).0 == k && all[i].1.contains(q);
            if i < groups.len() {
                assert(groups[i] == all[i]);
            }
        }
    } else if groups.last().0 == key {
        let n = groups.len() - 1;
        let list = groups[n].1;
        let more = list.push(p);
        assert(all == groups.drop_last().push((key, more)));
        assert(more.contains(q) <==> list.contains(q) || q == p) by {
            if list.contains(q) {
                let x = choose|x: int| 0 <= x < list.len() && list[x] == q;
                assert(more[x] == q);
            }
            assert(more[list.len() as int] == p);
            if more.contains(q) {
                let x = choose|x: int| 0 <= x < more.len() && more[x] == q;
                if x < list.len() {
                    assert(list[x] == q);
                }
            }
        }
        if is_grouped(groups, k, q) {
            let i = choose|i: int| 0 <= i < groups.len() && (#[trigger] groups[i]).0 == k && groups[i].1.contains(q);
            assert(all[i].0 == groups[i].0);
            if i < n {
                assert(all[i] == groups[i]);
            }
        }
        if k == key && q == p {
            assert(all[n].1.contains(p));
        }
        if is_grouped(all, k, q) {
            let i = choose|i: int| 0 <= i < all.len() && (#[trigger] all[i]).0 == k && all[i].1.contains(q);
            assert(groups[i].0 == k);
            if i < n {
                assert(groups[i] == all[i]);
            }
        }
    } else {
        let front = groups.drop_last();
        let n = groups.len() - 1;
        lemma_grouped_holds(front, key, p, k, q);
        let less = grouped(front, key, p);
        assert(all == less.push(groups[n]));
        assert(is_grouped(groups, k, q) <==> is_grouped(front, k, q) || (groups[n].0 == k && groups[n].1.contains(
            q,
        ))) by {
            if is_grouped(groups, k, q) {
                let i = choose|i: int| 0 <= i < groups.len() && (#[trigger] groups[i]).0 == k && groups[i].1.contains(q);
                if i < n {
                    assert(front[i] == groups[i]);
                }
            }
            if is_grouped(front, k, q) {
                let i = choose|i: int| 0 <= i < front.len() && (#[trigger] front[i]).0 == k && front[i].1.contains(q);
                assert(groups[i] == front[i]);
            }
        }
        assert(is_grouped(all, k, q) <==> is_grouped(less, k, q) || (groups[n].0 == k && groups[n].1.contains(q)))
            by {
            if is_grouped(all, k, q) {
                let i = choose|i: int| 0 <= i < all.len() && (#[trigger] all[i]).0 == k && all[i].1.contains(q);
                if i < less.len() {
                    assert(less[i] == all[i]);
                }
            }
            if is_grouped(less, k, q) {
                let i = choose|i: int| 0 <= i < less.len() && (#[trigger] less[i]).0 == k && less[i].1.contains(q);
                assert(all[i] == less[i]);
            }
            if groups[n].0 == k && groups[n].1.contains(q) {
                assert(all[less.len() as int] == groups[n]);
            }
        }
    }
}

/// The patch has the target.
pub open spec fn is_for_target(p: PatchModel, key: (Vendor, CpuSignature), n: nat) -> bool {
    p.vendor == key.0 && exists|i: int| 0 <= i < n && (#[trigger] p.matches[i]).signature == key.1
}

proof fn lemma_pairs_grouped(
    groups: Seq<Group>,
    p: PatchModel,
    n: nat,
    k: (Vendor, CpuSignature),
    q: PatchModel,
)
    requires
        targets_ascend(groups),
        n <= p.matches.len(),
    ensures
        targets_ascend(grouped_pairs(groups, p, n)),
        is_grouped(grouped_pairs(groups, p, n), k, q) <==> is_grouped(groups, k, q) || (q == p && is_for_target(
            p,
            k,
            n,
        )),
    decreases n,
{
    if n > 0 {
        let m = (n - 1) as nat;
        lemma_pairs_grouped(groups, p, m, k, q);
        let key = (p.vendor, p.matches[n - 1].signature);
        lemma_grouped(grouped_pairs(groups, p, m), key, p);
        lemma_grouped_holds(grouped_pairs(groups, p, m), key, p, k, q);
        if k == key {
            assert(p.matches[n - 1].signature == k.1);
        }
    }
}

/// The groups of a catalog are its targets in ascending order, each once, and a
/// patch stands in the group of a target exactly if it is in the catalog and has
/// a pair for it.
pub proof fn law_groups_hold_every_target(patches: Seq<PatchModel>, key: (Vendor, CpuSignature), p: PatchModel)
    ensures
        targets_ascend(groups_of(patches)),
        is_grouped(groups_of(patches), key, p) <==> patches.contains(p) && is_for_target(p, key, p.matches.len()),
    decreases patches.len(),
{
    if patches.len() > 0 {
        let front = patches.drop_last();
        let last = patches.last();
        law_groups_hold_every_target(front, key, p);
        lemma_pairs_grouped(groups_of(front), last, last.matches.len(), key, p);
        assert(patches.contains(p) <==> front.contains(p) || p == last) by {
            if front.contains(p) {
                let i = choose|i: int| 0 <= i < front.len() && front[i] == p;
                assert(patches[i] == p);
            }
            assert(patches[patches.len() - 1] == last);
            if patches.contains(p) {
                let i = choose|i: int| 0 <= i < patches.len() && patches[i] == p;
                if i < front.len() {
                    assert(front[i] == p);
                }
            }
        }
    }
}

// --- published minimums -------------------------------------------------------------

/// A published minimum reaches every AMD patch of its revision and nothing
/// else, and no other part of a patch; as many are counted as are reached.
pub proof fn law_minimums_reach_their_patches(patches: Seq<PatchModel>, p: PatchModel, minimums: Map<u32, u32>)
    ensures
        ({
            let n = with_minimum(p, minimums);
            let reached = p.vendor == Vendor::Amd && minimums.dom().contains(p.revision);
            &&& reached ==> n.min_base_revision == Some(minimums[p.revision])
            &&& !reached ==> n.min_base_revision == p.min_base_revision
            &&& n == (PatchModel { min_base_revision: n.min_base_revision, ..p })
        }),
        minimum_count(patches, minimums) == patches.filter(
            |q: PatchModel| q.vendor == Vendor::Amd && minimums.dom().contains(q.revision),
        ).len(),
    decreases patches.len(),
{
    reveal(Seq::filter);
    if patches.len() > 0 {
        law_minimums_reach_their_patches(patches.drop_last(), p, minimums);
    }
}

/// What a line of the published list does: a patch line names the patch that
/// the next lines are about; a minimum sets that of this patch and of no other,
/// and is refused before any patch or without a number; a note is kept with
/// this patch; and every other line tells nothing.
pub proof fn law_lists_are_read_line_by_line(st: ReadmeState, raw: Seq<char>)
    ensures
        ({
            let line = trim_text(raw);
            let prefix = "Minimum base ucode version for loading:"@;
            let names = line.len() > 0 && literal_after(line, "Patch="@) is Some;
            let sets = line.len() > 0 && !names && starts_with(line, prefix);
            let value = hex_literal(trim_text(line.skip(prefix.len() as int)));
            let notes = line.len() > 0 && !names && !sets && starts_with(line, "Note"@) && st.current is Some;
            &&& after_line(st, raw) is Err <==> sets && (value is None || st.current is None)
            &&& after_line(st, raw) matches Ok(n) ==> {
                &&& n.current == if names {
                    literal_after(line, "Patch="@)
                } else {
                    st.current
                }
                &&& sets ==> n.data.minimums == st.data.minimums.insert(st.current->0, value->0)
                &&& !sets ==> n.data.minimums == st.data.minimums
                &&& notes ==> n.data.notes == st.data.notes.insert(st.current->0, line)
                &&& !notes ==> n.data.notes == st.data.notes
            }
        }),
{
}

proof fn lemma_trim_literal(s: Seq<char>)
    ensures
        ({
            let t = trim_literal(s);
            &&& t.len() <= s.len()
            &&& t == s.take(t.len() as int)
            &&& t.len() > 0 ==> ends_a_literal(t.last())
            &&& forall|i: int| t.len() <= i < s.len() ==> !ends_a_literal(#[trigger] s[i])
        }),
    decreases s.len(),
{
    if s.len() > 0 && !literal_char(s.last()) {
        let front = s.drop_last();
        lemma_trim_literal(front);
        let t = trim_literal(s);
        assert(s.take(t.len() as int) =~= front.take(t.len() as int));
        assert forall|i: int| t.len() <= i < s.len() implies !ends_a_literal(#[trigger] s[i]) by {
            if i < front.len() {
                assert(front[i] == s[i]);
            }
        }
    } else {
        assert(s.take(s.len() as int) =~= s);
    }
}

/// A hexadecimal digit, or the mark of the prefix.
pub open spec fn ends_a_literal(c: char) -> bool {
    '0' <= c <= '9' || 'a' <= c <= 'f' || 'A' <= c <= 'F' || c == 'x' || c == 'X'
}

/// A literal is a number behind its prefix, with any punctuation at its end; the
/// one behind a key is the first word behind the first occurrence of the key.
pub proof fn law_literals_are_read(digits: Seq<char>, tail: Seq<char>, line: Seq<char>, key: Seq<char>, i: int)
    requires
        digits.len() > 0,
        ends_a_literal(digits.last()),
        forall|k: int| 0 <= k < tail.len() ==> !ends_a_literal(#[trigger] tail[k]),
        trim_text("0x"@ + digits + tail) == "0x"@ + digits + tail,
        occurs_at(line, key, i),
        forall|k: int| 0 <= k < i ==> !occurs_at(line, key, k),
    ensures
        hex_literal("0x"@ + digits + tail) == match read_u32(digits, 16) {
            Ok(v) => Some(v as u32),
            Err(_) => None,
        },
        literal_after(line, key) == match first_word(line.skip(i + key.len())) {
            Some(w) => hex_literal(w),
            None => None,
        },
{
    let s = "0x"@ + digits + tail;
    let t = trim_literal(s);
    lemma_trim_literal(s);
    let n = 2 + digits.len();
    reveal_strlit("0x");
    assert(s[n - 1] == digits.last());
    if t.len() > n {
        assert(t.last() == s[t.len() - 1]);
        assert(s[t.len() - 1] == tail[t.len() - 1 - n]);
    }
    if t.len() < n {
        assert(!ends_a_literal(s[n - 1]));
    }
    assert(t =~= "0x"@ + digits);
    assert(t.subrange(0, 2) =~= "0x"@);
    assert(t.skip(2) =~= digits);
    lemma_find_from(line, key, 0);
}

/// The lines of a list are read in order from nothing, each with what those
/// before it left; a list with a line that is refused is refused.
pub proof fn law_lists_are_read_to_the_end(all: Seq<Seq<char>>, line: Seq<char>, text: Seq<char>)
    ensures
        after_lines(Seq::empty()) matches Ok(st) && st.current is None
            && st.data.minimums == Map::<u32, u32>::empty() && st.data.notes == Map::<u32, Seq<char>>::empty(),
        after_lines(all) matches Ok(st) ==> after_lines(
            all.push(line),
        ) == after_line(st, line),
        after_lines(all) is Err ==> after_lines(all.push(line))
            == after_lines(all),
        readme(text) is Ok <==> after_lines(lines_text(text)) is Ok,
        readme(text) matches Ok(d) ==> d == (after_lines(lines_text(text))->Ok_0).data,
{
    assert(all.push(line).drop_last() =~= all);
}

// --- manifests ----------------------------------------------------------------------

proof fn lemma_extra(m: Seq<ProcessorMatch>)
    ensures
        extra_pairs(m) == m.filter(|x: ProcessorMatch| !x.primary).map_values(
            |x: ProcessorMatch| x.signature.signature_text() + ":"@ + x.platform_mask.mask_text(),
        ),
    decreases m.len(),
{
    reveal(Seq::filter);
    let p = |x: ProcessorMatch| !x.primary;
    let f = |x: ProcessorMatch| x.signature.signature_text() + ":"@ + x.platform_mask.mask_text();
    if m.len() > 0 {
        lemma_extra(m.drop_last());
        let front = m.drop_last().filter(p);
        assert(front.push(m.last()).map_values(f) =~= front.map_values(f).push(f(m.last())));
    } else {
        assert(m.filter(p).map_values(f) =~= Seq::empty());
    }
}

/// A manifest entry tells of its patch the vendor, the pair that it is filed
/// under, every other pair that is not primary, and everything else in its
/// written form.
pub proof fn law_manifest_entries_describe_their_patch(p: PatchModel)
    ensures
        ({
            let d = describe(p);
            &&& d.vendor == p.vendor
            &&& primary_of(p.matches) matches Some(m) ==> d.signature == "0x"@ + hex(m.signature.0 as nat, 8)
                && d.platform_mask == m.platform_mask.mask_text()
            &&& primary_of(p.matches) is None ==> d.signature.len() == 0 && d.platform_mask.len() == 0
            &&& d.revision == "0x"@ + hex(p.revision as nat, 8)
            &&& d.date is Some <==> p.date is Some
            &&& p.date matches Some(x) ==> d.date == Some(x.date_text())
            &&& d.size == p.total_size
            &&& d.sha256 is Some <==> p.sha256 is Some
            &&& p.sha256 matches Some(x) ==> d.sha256 == Some(hex_bytes(x))
            &&& d.source == p.origin.source
            &&& d.offset == p.origin.offset
            &&& d.additional_signatures == p.matches.filter(|x: ProcessorMatch| !x.primary).map_values(
                |x: ProcessorMatch| x.signature.signature_text() + ":"@ + x.platform_mask.mask_text(),
            )
            &&& d.min_base_revision is Some <==> p.min_base_revision is Some
            &&& p.min_base_revision matches Some(x) ==> d.min_base_revision == Some("0x"@ + hex(x as nat, 8))
            &&& d.min_runtime_revision is Some <==> p.runtime_update is RequiresBaseRevision
            &&& p.runtime_update matches RuntimeUpdatePolicy::RequiresBaseRevision(x) ==> d.min_runtime_revision
                == Some("0x"@ + hex(x as nat, 8))
        }),
{
    reveal_strlit("");
    lemma_extra(p.matches);
    assert forall|v: u32| #[trigger] revision_text(v) == "0x"@ + hex(v as nat, 8) by {
        assert("0x"@ + hex(v as nat, 8) + ""@ =~= "0x"@ + hex(v as nat, 8));
    }
}

/// A manifest lists every patch of the catalog in order and adds up their
/// number and their sizes.
pub proof fn law_manifests_list_every_patch(m: CatalogModel, p: PatchModel, generator: Seq<char>)
    ensures
        ({
            let a = Manifest::of(m, generator);
            let b = Manifest::of(CatalogModel { patches: m.patches.push(p), ..m }, generator);
            &&& a.manifest_version == 1
            &&& a.generator == generator
            &&& a.vendors == vendors_of(m.patches)
            &&& a.patch_count == m.patches.len()
            &&& b.entries == a.entries.push(describe(p))
            &&& b.patch_count == a.patch_count + 1
            &&& b.byte_count == a.byte_count + p.total_size
            &&& m.patches.len() == 0 ==> a.byte_count == 0 && a.entries.len() == 0
        }),
{
    let f = |q: PatchModel| describe(q);
    assert(m.patches.push(p).map_values(f) =~= m.patches.map_values(f).push(describe(p)));
    assert(m.patches.push(p).drop_last() =~= m.patches);
    assert(size_total(m.patches.push(p)) == size_total(m.patches) + p.total_size);
}

} // verus!
