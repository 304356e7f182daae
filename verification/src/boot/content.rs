//! What an early image holds, seen from the catalog that it was built from.

use vstd::prelude::*;
use crate::amd::container::{
    containers_of, law_signatures_of_an_id, ContainerModel, EquivalenceEntry,
};
use crate::amd::law::law_patches_are_emitted_in_order;
use crate::amd::writer::{
    all_read_back, built, emitted, law_built_container_reads_back, law_table_is_keyed, placed,
    read_back, readable_payload, same_key, strictly_sorted, with_entry, BuilderModel,
};
use crate::archive::reader::{member_limit, scan_of};
use crate::archive::layout::law_files_bring_their_parents;
use crate::archive::writer::{archive_bytes, members_of, ArchiveModel, FileModel};
use crate::boot::early::{
    amd_blob, amd_model, chosen, early_archive, early_of, has_id, id_of, intel_blob, intel_key,
    last_with_id, plain_entry, targets, targets_any, used_entries, used_pairs, used_step, wanted,
    with_all_mappings, with_blob, with_id, without_others, with_key, with_mappings, with_used, Chosen, EarlyModel, IntelKey,
};
use crate::boot::rivals::{grouped, is_for, law_best_only_keeps_the_newest_amd, supersedes};
use crate::boot::law::{
    ascending, candidate, covers, holds_blob, is_blob, law_best_only_keeps_the_newest, law_built_updates_read_back,
    law_chosen_are_candidates, law_early_image_holds_the_blobs, lemma_blob_is_concatenated, lemma_first_for,
    lemma_with_key, lemma_with_key_keeps, lemma_without_others, payloads_of,
};
use crate::bytes::slice_of;
use crate::catalog::collection::{zipped, CatalogModel, Held};
use crate::catalog::law::holds_updates;
use crate::digest::sha256_of;
use crate::intel::bundle::bundle_of;
use crate::intel::law::{lemma_concatenated, stands_for, start_of};
use crate::intel::validate::IntelValidationMode;
use crate::model::cpu::{CpuIdentity, CpuSignature, Vendor};
use crate::model::law::names;
use crate::model::limits::Limits;
use crate::model::patch::{primary_of, HeaderKind, PatchModel};
use crate::model::validate::any_error;
use crate::number::hex_bytes;
use crate::order::{dedup_by, equal, lemma_sort_len, sort_by};

verus! {

// --- which patches ------------------------------------------------------------------

/// The patch can serve the processor: it is of its vendor, and one of its pairs
/// has its signature and, where the platform of an Intel processor is known, one
/// of its platforms.
pub open spec fn serves(p: PatchModel, cpu: CpuIdentity) -> bool {
    &&& p.vendor == cpu.vendor
    &&& exists|i: int|
        0 <= i < p.matches.len() && (#[trigger] p.matches[i]).signature == cpu.signature && (match cpu.platform_mask {
            Some(mask) => cpu.vendor == Vendor::Amd || p.matches[i].platform_mask.0 & mask.0 != 0 || (
            p.matches[i].platform_mask.0 == 0 && mask.0 == 0),
            None => true,
        })
}

/// The patch is microcode with its bytes at hand, and serves one of the
/// processors of the filter, if there is a filter.
pub open spec fn is_asked_for(p: Held, cpus: Option<Seq<CpuIdentity>>) -> bool {
    &&& p.0.kind == HeaderKind::Microcode
    &&& p.1.len() > 0
    &&& cpus matches Some(list) ==> exists|i: int| 0 <= i < list.len() && serves(p.0, #[trigger] list[i])
}

proof fn lemma_targets(p: PatchModel, cpu: CpuIdentity)
    ensures
        targets(p, cpu) <==> serves(p, cpu),
{
    if p.applies(cpu) {
        let i = choose|i: int| 0 <= i < p.matches.len() && (#[trigger] p.matches[i]).covers(cpu);
        assert(p.matches[i].signature == cpu.signature);
    }
    if targets(p, cpu) && !p.applies(cpu) {
        let i = choose|i: int| 0 <= i < p.matches.len() && (#[trigger] p.matches[i]).signature == cpu.signature;
        assert(p.matches[i].signature == cpu.signature);
    }
    if serves(p, cpu) {
        let i = choose|i: int|
            0 <= i < p.matches.len() && (#[trigger] p.matches[i]).signature == cpu.signature && (match cpu.platform_mask {
                Some(mask) => cpu.vendor == Vendor::Amd || p.matches[i].platform_mask.0 & mask.0 != 0 || (
                p.matches[i].platform_mask.0 == 0 && mask.0 == 0),
                None => true,
            });
        if cpu.platform_mask is Some || cpu.vendor == Vendor::Amd {
            assert(p.matches[i].covers(cpu));
        }
    }
}

proof fn lemma_wanted(p: Held, cpus: Option<Seq<CpuIdentity>>)
    ensures
        wanted(p, cpus) <==> is_asked_for(p, cpus),
{
    if let Some(list) = cpus {
        if targets_any(p.0, list) {
            let i = choose|i: int| 0 <= i < list.len() && targets(p.0, #[trigger] list[i]);
            lemma_targets(p.0, list[i]);
        }
        if exists|i: int| 0 <= i < list.len() && serves(p.0, #[trigger] list[i]) {
            let i = choose|i: int| 0 <= i < list.len() && serves(p.0, #[trigger] list[i]);
            lemma_targets(p.0, list[i]);
        }
    }
}

/// Only what was asked for goes into an image: every patch in it is one of the
/// catalog, is microcode with its bytes, and serves one of the processors of the
/// filter.
pub proof fn law_only_what_was_asked_for_is_chosen(
    s: Seq<Held>,
    cpus: Option<Seq<CpuIdentity>>,
    best_only: bool,
)
    ensures
        ({
            let c = chosen(s, cpus, best_only);
            &&& forall|i: int|
                0 <= i < c.intel.len() ==> s.contains((#[trigger] c.intel[i]).1) && is_asked_for(
                    c.intel[i].1,
                    cpus,
                ) && c.intel[i].1.0.vendor == Vendor::Intel
            &&& forall|i: int|
                0 <= i < c.amd.len() ==> s.contains(#[trigger] c.amd[i]) && is_asked_for(c.amd[i], cpus)
                    && c.amd[i].0.vendor == Vendor::Amd
        }),
{
    let c = chosen(s, cpus, best_only);
    law_chosen_are_candidates(s, cpus, best_only);
    assert forall|i: int| 0 <= i < c.intel.len() implies s.contains((#[trigger] c.intel[i]).1)
        && is_asked_for(c.intel[i].1, cpus) && c.intel[i].1.0.vendor == Vendor::Intel by {
        assert(candidate(s, cpus, Vendor::Intel, c.intel[i].1));
        lemma_wanted(c.intel[i].1, cpus);
    }
    assert forall|i: int| 0 <= i < c.amd.len() implies s.contains(#[trigger] c.amd[i]) && is_asked_for(
        c.amd[i],
        cpus,
    ) && c.amd[i].0.vendor == Vendor::Amd by {
        assert(candidate(s, cpus, Vendor::Amd, c.amd[i]));
        lemma_wanted(c.amd[i], cpus);
    }
}

/// The target that an Intel patch is filed under: signature and platform mask of
/// its first pair marked primary, or of its first pair.
pub open spec fn filed_under(p: PatchModel) -> (u32, u32) {
    match primary_of(p.matches) {
        Some(m) => (m.signature.0, m.platform_mask.0),
        None => (0, 0),
    }
}

/// Where only the best are wanted, every Intel patch that was asked for has one
/// in the image for its target that is at least as new, and the image holds no
/// two for one target.
pub proof fn law_the_newest_is_chosen(s: Seq<Held>, cpus: Option<Seq<CpuIdentity>>, i: int)
    requires
        0 <= i < s.len(),
        s[i].0.vendor == Vendor::Intel,
        is_asked_for(s[i], cpus),
    ensures
        ({
            let list = chosen(s, cpus, true).intel;
            &&& exists|k: int|
                0 <= k < list.len() && filed_under((#[trigger] list[k]).1.0) == filed_under(s[i].0)
                    && list[k].1.0.revision >= s[i].0.revision
            &&& forall|j: int, k: int|
                0 <= j < list.len() && 0 <= k < list.len() && filed_under((#[trigger] list[j]).1.0)
                    == filed_under((#[trigger] list[k]).1.0) ==> list[j] == list[k]
        }),
{
    lemma_wanted(s[i], cpus);
    law_best_only_keeps_the_newest(s, cpus, i);
    lemma_keyed(s, cpus, true);
    let list = chosen(s, cpus, true).intel;
    let x = choose|x: (IntelKey, Held)| #[trigger] list.contains(x) && covers(x, intel_key(s[i].0));
    let k = choose|k: int| 0 <= k < list.len() && list[k] == x;
    assert(list[k].0 == intel_key(list[k].1.0));
    assert forall|j: int, k: int|
        0 <= j < list.len() && 0 <= k < list.len() && filed_under((#[trigger] list[j]).1.0) == filed_under(
            (#[trigger] list[k]).1.0,
        ) implies list[j] == list[k] by {
        assert(list.contains(list[j]) && list.contains(list[k]));
        assert(list[j].0 == intel_key(list[j].1.0));
        assert(list[k].0 == intel_key(list[k].1.0));
    }
}

/// Every entry of the list is under the key of its patch.
proof fn lemma_keyed(s: Seq<Held>, cpus: Option<Seq<CpuIdentity>>, best_only: bool)
    ensures
        forall|i: int|
            0 <= i < chosen(s, cpus, best_only).intel.len() ==> (#[trigger] chosen(s, cpus, best_only).intel[i]).0
                == intel_key(chosen(s, cpus, best_only).intel[i].1.0),
    decreases s.len(),
{
    if s.len() > 0 {
        lemma_keyed(s.drop_last(), cpus, best_only);
        let p = s.last();
        let c = chosen(s.drop_last(), cpus, best_only);
        if wanted(p, cpus) && p.0.vendor == Vendor::Intel {
            let key = intel_key(p.0);
            let good = |x: (IntelKey, Held)| x.0 == intel_key(x.1.0);
            assert(good((key, p)));
            assert forall|i: int| 0 <= i < c.intel.len() implies good(#[trigger] c.intel[i]) by {
                assert(c.intel[i].0 == intel_key(c.intel[i].1.0));
            }
            lemma_with_key_keeps(c.intel, key, p, good);
            let new = chosen(s, cpus, best_only).intel;
            assert forall|i: int| 0 <= i < new.len() implies (#[trigger] new[i]).0 == intel_key(new[i].1.0) by {
                assert(good(new[i]));
            }
        }
    }
}

/// Without the restriction to the best, every AMD patch that was asked for is
/// in the image, and of every Intel patch one with its target and revision.
pub proof fn law_everything_asked_for_is_chosen(s: Seq<Held>, cpus: Option<Seq<CpuIdentity>>, i: int)
    requires
        0 <= i < s.len(),
        is_asked_for(s[i], cpus),
    ensures
        s[i].0.vendor == Vendor::Amd ==> chosen(s, cpus, false).amd.contains(s[i]),
        s[i].0.vendor == Vendor::Intel ==> exists|k: int|
            0 <= k < chosen(s, cpus, false).intel.len() && filed_under(
                (#[trigger] chosen(s, cpus, false).intel[k]).1.0,
            ) == filed_under(s[i].0) && chosen(s, cpus, false).intel[k].1.0.revision == s[i].0.revision,
{
    lemma_wanted(s[i], cpus);
    lemma_all_chosen(s, cpus, i);
    lemma_keyed(s, cpus, false);
    if s[i].0.vendor == Vendor::Intel {
        let list = chosen(s, cpus, false).intel;
        let k = choose|k: int| 0 <= k < list.len() && (#[trigger] list[k]).0 == intel_key(s[i].0);
        assert(list[k].0 == intel_key(list[k].1.0));
    }
}

proof fn lemma_all_chosen(s: Seq<Held>, cpus: Option<Seq<CpuIdentity>>, i: int)
    requires
        0 <= i < s.len(),
        wanted(s[i], cpus),
    ensures
        s[i].0.vendor == Vendor::Amd ==> chosen(s, cpus, false).amd.contains(s[i]),
        s[i].0.vendor == Vendor::Intel ==> exists|k: int|
            0 <= k < chosen(s, cpus, false).intel.len() && (#[trigger] chosen(s, cpus, false).intel[k]).0
                == intel_key(s[i].0),
    decreases s.len(),
{
    let front = s.drop_last();
    let p = s.last();
    let c = chosen(front, cpus, false);
    let new = chosen(s, cpus, false);
    if i < front.len() {
        assert(front[i] == s[i]);
        lemma_all_chosen(front, cpus, i);
        if wanted(p, cpus) && p.0.vendor == Vendor::Amd && s[i].0.vendor == Vendor::Amd {
            let k = choose|k: int| 0 <= k < c.amd.len() && c.amd[k] == s[i];
            assert(new.amd[k] == s[i]);
        }
        if wanted(p, cpus) && p.0.vendor == Vendor::Intel && s[i].0.vendor == Vendor::Intel {
            let k = choose|k: int| 0 <= k < c.intel.len() && (#[trigger] c.intel[k]).0 == intel_key(s[i].0);
            lemma_key_stays(c.intel, intel_key(p.0), p, k);
            assert(new.intel == with_key(c.intel, intel_key(p.0), p));
            let n = choose|n: int| 0 <= n < new.intel.len() && (#[trigger] new.intel[n]).0 == c.intel[k].0;
            assert(new.intel[n].0 == intel_key(s[i].0));
        } else if s[i].0.vendor == Vendor::Intel {
            assert(new.intel == c.intel);
        }
    } else {
        assert(s[i] == p);
        if p.0.vendor == Vendor::Amd {
            assert(new.amd[new.amd.len() - 1] == p);
        } else {
            lemma_key_added(c.intel, intel_key(p.0), p);
            assert(new.intel == with_key(c.intel, intel_key(p.0), p));
        }
    }
}

proof fn lemma_key_added(list: Seq<(IntelKey, Held)>, key: IntelKey, p: Held)
    ensures
        exists|k: int|
            0 <= k < with_key(list, key, p).len() && (#[trigger] with_key(list, key, p)[k]).0 == key,
    decreases list.len(),
{
    let new = with_key(list, key, p);
    if new.last().0 == key && new.len() > 0 {
        assert(new[new.len() - 1].0 == key);
    } else if list.len() > 0 {
        lemma_key_added(list.drop_last(), key, p);
        let rest = with_key(list.drop_last(), key, p);
        let k = choose|k: int| 0 <= k < rest.len() && (#[trigger] rest[k]).0 == key;
        assert(new[k].0 == key);
    }
}

proof fn lemma_key_stays(list: Seq<(IntelKey, Held)>, key: IntelKey, p: Held, i: int)
    requires
        0 <= i < list.len(),
    ensures
        exists|k: int|
            0 <= k < with_key(list, key, p).len() && (#[trigger] with_key(list, key, p)[k]).0 == list[i].0,
    decreases list.len(),
{
    let new = with_key(list, key, p);
    if list.last().0 == key {
        if i == list.len() - 1 {
            assert(new[i].0 == key);
        } else {
            assert(new[i].0 == list[i].0);
        }
    } else if new == list.push((key, p)) {
        assert(new[i].0 == list[i].0);
    } else {
        let front = list.drop_last();
        let rest = with_key(front, key, p);
        if i == list.len() - 1 {
            assert(new[rest.len() as int].0 == list[i].0);
        } else {
            assert(front[i] == list[i]);
            lemma_key_stays(front, key, p, i);
            let k = choose|k: int| 0 <= k < rest.len() && (#[trigger] rest[k]).0 == front[i].0;
            assert(new[k].0 == list[i].0);
        }
    }
}

/// Where only the best are wanted and no two AMD patches overlap in some
/// processors and differ in others, every processor of a patch that was asked
/// for has one in the image that is at least as new, and no two.
pub proof fn law_the_newest_amd_patch_is_chosen(
    s: Seq<Held>,
    cpus: Option<Seq<CpuIdentity>>,
    i: int,
    pair: int,
)
    requires
        grouped(s, cpus),
        0 <= i < s.len(),
        s[i].0.vendor == Vendor::Amd,
        is_asked_for(s[i], cpus),
        0 <= pair < s[i].0.matches.len(),
    ensures
        ({
            let list = chosen(s, cpus, true).amd;
            let x = s[i].0.matches[pair].signature;
            &&& exists|k: int|
                0 <= k < list.len() && names((#[trigger] list[k]).0, x) && list[k].0.revision
                    >= s[i].0.revision
            &&& forall|j: int, k: int|
                0 <= j < k < list.len() && names((#[trigger] list[j]).0, x) ==> !names(
                    (#[trigger] list[k]).0,
                    x,
                )
        }),
{
    lemma_wanted(s[i], cpus);
    law_best_only_keeps_the_newest_amd(s, cpus, i);
    let list = chosen(s, cpus, true).amd;
    let x = s[i].0.matches[pair].signature;
    assert(is_for(s[i], x));
    let k = choose|k: int| supersedes(list, k, s[i]);
    assert(is_for(list[k], x));
    assert forall|k: int| 0 <= k < list.len() implies (is_for(list[k], x) <==> names((#[trigger] list[k]).0, x)) by {
        lemma_names(list[k], x);
    }
    assert(names(list[k].0, x));
    assert forall|j: int, k: int|
        0 <= j < k < list.len() && names((#[trigger] list[j]).0, x) implies !names((#[trigger] list[k]).0, x) by {
        assert(is_for(list[j], x));
        assert(!is_for(list[k], x));
    }
}

proof fn lemma_names(p: Held, x: CpuSignature)
    ensures
        is_for(p, x) <==> names(p.0, x),
{
    if is_for(p, x) {
        let i = choose|i: int| 0 <= i < p.0.matches.len() && (#[trigger] p.0.matches[i]).signature == x;
        assert(p.0.matches[i].signature == x);
    }
    if names(p.0, x) {
        let i = choose|i: int| 0 <= i < p.0.matches.len() && (#[trigger] p.0.matches[i]).signature == x;
        assert(p.0.matches[i].signature == x);
    }
}

// --- the equivalence table ----------------------------------------------------------

/// The table maps the processor to the id.
pub open spec fn maps(table: Seq<EquivalenceEntry>, cpu: CpuSignature, id: u16) -> bool {
    exists|i: int|
        0 <= i < table.len() && (#[trigger] table[i]).installed_cpu == cpu && table[i].equiv_id == id
}

/// The mapping is one of the patch: a pair of it has the processor and the id.
pub open spec fn is_pair(p: PatchModel, cpu: CpuSignature, id: u16) -> bool {
    exists|k: int|
        0 <= k < p.matches.len() && (#[trigger] p.matches[k]).signature == cpu && p.matches[k].equivalence_id
            == Some(id)
}

/// The id is one of the patch, its own or that of a pair.
pub open spec fn uses_id(p: PatchModel, id: u16) -> bool {
    exists|k: int| 0 <= k < p.matches.len() && #[trigger] id_of(p, k) == id
}

proof fn lemma_maps_entry(table: Seq<EquivalenceEntry>, e: EquivalenceEntry, cpu: CpuSignature, id: u16)
    requires
        strictly_sorted(table),
    ensures
        strictly_sorted(with_entry(table, e)),
        maps(with_entry(table, e), cpu, id) <==> maps(table, cpu, id) || (e.installed_cpu == cpu && e.equiv_id
            == id),
{
    let m = BuilderModel { equivalence: table, patches: Seq::empty() };
    law_table_is_keyed(m, e);
    let new = with_entry(table, e);
    if maps(new, cpu, id) {
        let i = choose|i: int|
            0 <= i < new.len() && (#[trigger] new[i]).installed_cpu == cpu && new[i].equiv_id == id;
        assert(new.contains(new[i]));
        if new[i] != e {
            let k = choose|k: int| 0 <= k < table.len() && table[k] == new[i];
            assert(table[k].installed_cpu == cpu);
        }
    }
    if e.installed_cpu == cpu && e.equiv_id == id {
        assert(new.contains(e));
        let i = choose|i: int| 0 <= i < new.len() && new[i] == e;
        assert(new[i].installed_cpu == cpu);
    } else if maps(table, cpu, id) {
        let k = choose|k: int|
            0 <= k < table.len() && (#[trigger] table[k]).installed_cpu == cpu && table[k].equiv_id == id;
        assert(table.contains(table[k]));
        assert(!same_key(table[k], e));
        assert(new.contains(table[k]));
        let i = choose|i: int| 0 <= i < new.len() && new[i] == table[k];
        assert(new[i].installed_cpu == cpu);
    }
}

proof fn lemma_maps_patch(table: Seq<EquivalenceEntry>, p: PatchModel, n: nat, cpu: CpuSignature, id: u16)
    requires
        strictly_sorted(table),
        n <= p.matches.len(),
    ensures
        strictly_sorted(with_mappings(table, p, n)),
        maps(with_mappings(table, p, n), cpu, id) <==> maps(table, cpu, id) || exists|k: int|
            0 <= k < n && (#[trigger] p.matches[k]).signature == cpu && p.matches[k].equivalence_id == Some(id),
    decreases n,
{
    if n > 0 {
        let m = (n - 1) as nat;
        lemma_maps_patch(table, p, m, cpu, id);
        let front = with_mappings(table, p, m);
        let pair = p.matches[m as int];
        if let Some(x) = pair.equivalence_id {
            lemma_maps_entry(front, plain_entry(pair.signature, x), cpu, id);
        }
        if exists|k: int|
            0 <= k < n && (#[trigger] p.matches[k]).signature == cpu && p.matches[k].equivalence_id == Some(id) {
            let k = choose|k: int|
                0 <= k < n && (#[trigger] p.matches[k]).signature == cpu && p.matches[k].equivalence_id == Some(
                    id,
                );
            if k < m {
                assert(p.matches[k].signature == cpu);
            }
        }
        if exists|k: int|
            0 <= k < m && (#[trigger] p.matches[k]).signature == cpu && p.matches[k].equivalence_id == Some(id) {
            let k = choose|k: int|
                0 <= k < m && (#[trigger] p.matches[k]).signature == cpu && p.matches[k].equivalence_id == Some(
                    id,
                );
            assert(p.matches[k].signature == cpu);
        }
    }
}

proof fn lemma_maps_list(table: Seq<EquivalenceEntry>, list: Seq<Held>, cpu: CpuSignature, id: u16)
    requires
        strictly_sorted(table),
    ensures
        strictly_sorted(with_all_mappings(table, list)),
        maps(with_all_mappings(table, list), cpu, id) <==> maps(table, cpu, id) || exists|i: int|
            0 <= i < list.len() && is_pair((#[trigger] list[i]).0, cpu, id),
    decreases list.len(),
{
    if list.len() > 0 {
        let front = list.drop_last();
        let p = list.last().0;
        lemma_maps_list(table, front, cpu, id);
        lemma_maps_patch(with_all_mappings(table, front), p, p.matches.len(), cpu, id);
        assert(list[list.len() - 1].0 == p);
        if exists|i: int| 0 <= i < list.len() && is_pair((#[trigger] list[i]).0, cpu, id) {
            let i = choose|i: int| 0 <= i < list.len() && is_pair((#[trigger] list[i]).0, cpu, id);
            if i < front.len() {
                assert(is_pair(front[i].0, cpu, id));
            }
        }
        if exists|i: int| 0 <= i < front.len() && is_pair((#[trigger] front[i]).0, cpu, id) {
            let i = choose|i: int| 0 <= i < front.len() && is_pair((#[trigger] front[i]).0, cpu, id);
            assert(is_pair(list[i].0, cpu, id));
        }
    }
}

/// An entry that was put aside for an id: it is one of the catalog, or maps a
/// processor of a patch in the list.
spec fn is_used(list: Seq<Held>, table: Seq<EquivalenceEntry>, x: (u16, EquivalenceEntry)) -> bool {
    &&& x.1.equiv_id == x.0
    &&& exists|i: int| 0 <= i < list.len() && uses_id((#[trigger] list[i]).0, x.0)
    &&& table.contains(x.1) || exists|i: int, k: int|
        #![trigger list[i].0.matches[k]]
        0 <= i < list.len() && 0 <= k < list[i].0.matches.len() && list[i].0.matches[k].signature
            == x.1.installed_cpu && id_of(list[i].0, k) == x.0
}

proof fn lemma_with_id(
    used: Seq<(u16, EquivalenceEntry)>,
    id: u16,
    e: EquivalenceEntry,
    good: spec_fn((u16, EquivalenceEntry)) -> bool,
)
    requires
        forall|i: int| 0 <= i < used.len() ==> good(#[trigger] used[i]),
        good((id, e)),
    ensures
        forall|i: int| 0 <= i < with_id(used, id, e).len() ==> good(#[trigger] with_id(used, id, e)[i]),
    decreases used.len(),
{
    if used.len() > 0 {
        let front = used.drop_last();
        assert forall|i: int| 0 <= i < front.len() implies good(#[trigger] front[i]) by {
            assert(good(used[i]));
        }
        assert(good(used[used.len() - 1]));
        lemma_with_id(front, id, e, good);
        let new = with_id(used, id, e);
        let rest = with_id(front, id, e);
        assert forall|i: int| 0 <= i < new.len() implies good(#[trigger] new[i]) by {
            if used.last().0 < id {
                assert(i < used.len() ==> new[i] == used[i]);
            } else if used.last().0 == id {
                assert(i < front.len() ==> new[i] == front[i]);
            } else {
                assert(i < rest.len() ==> new[i] == rest[i]);
            }
        }
    }
}

proof fn lemma_last_with_id(table: Seq<EquivalenceEntry>, id: u16)
    ensures
        last_with_id(table, id) matches Some(e) ==> e.equiv_id == id && table.contains(e),
    decreases table.len(),
{
    if table.len() > 0 {
        lemma_last_with_id(table.drop_last(), id);
        assert(table[table.len() - 1] == table.last());
        if let Some(e) = last_with_id(table.drop_last(), id) {
            let i = choose|i: int| 0 <= i < table.drop_last().len() && table.drop_last()[i] == e;
            assert(table[i] == e);
        }
    }
}

proof fn lemma_used_pairs(
    used: Seq<(u16, EquivalenceEntry)>,
    list: Seq<Held>,
    at: int,
    n: nat,
    table: Seq<EquivalenceEntry>,
)
    requires
        0 <= at < list.len(),
        n <= list[at].0.matches.len(),
        forall|i: int| 0 <= i < used.len() ==> is_used(list, table, #[trigger] used[i]),
    ensures
        forall|i: int|
            0 <= i < used_pairs(used, list[at].0, n, table).len() ==> is_used(
                list,
                table,
                #[trigger] used_pairs(used, list[at].0, n, table)[i],
            ),
    decreases n,
{
    if n > 0 {
        let m = (n - 1) as nat;
        let p = list[at].0;
        lemma_used_pairs(used, list, at, m, table);
        let before = used_pairs(used, p, m, table);
        let id = id_of(p, m as int);
        let pair = p.matches[m as int];
        let good = |x: (u16, EquivalenceEntry)| is_used(list, table, x);
        assert(uses_id(list[at].0, id));
        lemma_last_with_id(table, id);
        let e = match last_with_id(table, id) {
            Some(e) => e,
            None => plain_entry(pair.signature, id),
        };
        assert(list[at].0.matches[m as int].signature == pair.signature);
        assert(good((id, e)));
        assert forall|i: int| 0 <= i < before.len() implies good(#[trigger] before[i]) by {
            assert(is_used(list, table, before[i]));
        }
        lemma_with_id(before, id, e, good);
        let new = used_pairs(used, p, n, table);
        assert(new == before || new == with_id(before, id, e));
        assert forall|i: int| 0 <= i < new.len() implies is_used(list, table, #[trigger] new[i]) by {
            assert(good(new[i]));
        }
    }
}

proof fn lemma_used_entries(list: Seq<Held>, table: Seq<EquivalenceEntry>, n: int)
    requires
        0 <= n <= list.len(),
    ensures
        forall|i: int|
            0 <= i < used_entries(list.take(n), table).len() ==> is_used(
                list,
                table,
                #[trigger] used_entries(list.take(n), table)[i],
            ),
    decreases n,
{
    if n > 0 {
        lemma_used_entries(list, table, n - 1);
        assert(list.take(n).drop_last() =~= list.take(n - 1));
        assert(list.take(n).last() == list[n - 1]);
        lemma_used_pairs(
            used_entries(list.take(n - 1), table),
            list,
            n - 1,
            list[n - 1].0.matches.len(),
            table,
        );
    }
}

proof fn lemma_with_used(used: Seq<(u16, EquivalenceEntry)>, cpu: CpuSignature, id: u16)
    ensures
        strictly_sorted(with_used(used)),
        maps(with_used(used), cpu, id) <==> exists|i: int|
            0 <= i < used.len() && (#[trigger] used[i]).1.installed_cpu == cpu && used[i].1.equiv_id == id,
    decreases used.len(),
{
    if used.len() > 0 {
        let front = used.drop_last();
        lemma_with_used(front, cpu, id);
        lemma_maps_entry(with_used(front), used.last().1, cpu, id);
        assert(used[used.len() - 1] == used.last());
        if exists|i: int|
            0 <= i < used.len() && (#[trigger] used[i]).1.installed_cpu == cpu && used[i].1.equiv_id == id {
            let i = choose|i: int|
                0 <= i < used.len() && (#[trigger] used[i]).1.installed_cpu == cpu && used[i].1.equiv_id == id;
            if i < front.len() {
                assert(front[i].1.installed_cpu == cpu);
            }
        }
        if exists|i: int|
            0 <= i < front.len() && (#[trigger] front[i]).1.installed_cpu == cpu && front[i].1.equiv_id == id {
            let i = choose|i: int|
                0 <= i < front.len() && (#[trigger] front[i]).1.installed_cpu == cpu && front[i].1.equiv_id
                    == id;
            assert(used[i].1.installed_cpu == cpu);
        }
    }
}

/// The table of a container for a list of patches maps every processor of every
/// patch to its equivalence id, and nothing else but what the catalog maps to an
/// id of the patches. It is in order, no pair twice.
pub proof fn law_the_table_maps_every_processor(
    list: Seq<Held>,
    table: Seq<EquivalenceEntry>,
    cpu: CpuSignature,
    id: u16,
)
    ensures
        ({
            let made = amd_model(list, table).equivalence;
            &&& strictly_sorted(made)
            &&& forall|i: int|
                0 <= i < list.len() && is_pair((#[trigger] list[i]).0, cpu, id) ==> maps(made, cpu, id)
            &&& maps(made, cpu, id) ==> exists|i: int|
                0 <= i < list.len() && uses_id((#[trigger] list[i]).0, id)
            &&& maps(made, cpu, id) ==> maps(table, cpu, id) || exists|i: int|
                0 <= i < list.len() && names((#[trigger] list[i]).0, cpu)
        }),
{
    let used = used_entries(list, table);
    let made = amd_model(list, table).equivalence;
    assert(list.take(list.len() as int) =~= list);
    lemma_used_entries(list, table, list.len() as int);
    lemma_with_used(used, cpu, id);
    lemma_maps_list(with_used(used), list, cpu, id);
    if maps(made, cpu, id) {
        if maps(with_used(used), cpu, id) {
            let i = choose|i: int|
                0 <= i < used.len() && (#[trigger] used[i]).1.installed_cpu == cpu && used[i].1.equiv_id == id;
            assert(is_used(list, table, used[i]));
            if table.contains(used[i].1) {
                let k = choose|k: int| 0 <= k < table.len() && table[k] == used[i].1;
                assert(table[k].installed_cpu == cpu);
            } else {
                let (j, k) = choose|j: int, k: int|
                    #![trigger list[j].0.matches[k]]
                    0 <= j < list.len() && 0 <= k < list[j].0.matches.len()
                        && list[j].0.matches[k].signature == used[i].1.installed_cpu && id_of(list[j].0, k)
                        == used[i].0;
                assert(names(list[j].0, cpu));
            }
        } else {
            let i = choose|i: int| 0 <= i < list.len() && is_pair((#[trigger] list[i]).0, cpu, id);
            let k = choose|k: int|
                0 <= k < list[i].0.matches.len() && (#[trigger] list[i].0.matches[k]).signature == cpu
                    && list[i].0.matches[k].equivalence_id == Some(id);
            assert(id_of(list[i].0, k) == id);
            assert(uses_id(list[i].0, id));
            assert(names(list[i].0, cpu));
        }
    }
}

// --- reading the image back ---------------------------------------------------------

/// The blob is one container without an error in its report, whose patches are
/// those of the list, byte for byte, none added. Its table maps every processor
/// of every patch to its equivalence id, and a patch that carries that id in its
/// header is read back for the processor.
pub open spec fn holds_patches(b: Seq<u8>, list: Seq<Held>, limits: Limits) -> bool {
    containers_of(b, limits) matches Ok(cs) && {
        &&& cs.len() == 1
        &&& cs[0].length == b.len()
        &&& !any_error(cs[0].report)
        &&& forall|i: int| 0 <= i < list.len() ==> holds_patch(b, cs[0], #[trigger] list[i])
        &&& forall|j: int|
            0 <= j < cs[0].patches.len() ==> exists|i: int|
                0 <= i < list.len() && slice_of(
                    b,
                    (#[trigger] cs[0].patches[j]).offset as int,
                    cs[0].patches[j].size as int,
                ) == Some((#[trigger] list[i]).1)
    }
}

/// The container holds the patch, for all the processors that it is for.
pub open spec fn holds_patch(b: Seq<u8>, c: ContainerModel, p: Held) -> bool {
    &&& forall|cpu: CpuSignature, id: u16| #[trigger]
        is_pair(p.0, cpu, id) ==> maps(c.equivalence, cpu, id)
    &&& exists|j: int|
        0 <= j < c.patches.len() && {
            let x = #[trigger] c.patches[j];
            &&& slice_of(b, x.offset as int, x.size as int) == Some(p.1)
            &&& forall|cpu: CpuSignature, id: u16| #[trigger]
                is_pair(p.0, cpu, id) && x.header.processor_rev_id == id ==> x.signatures.contains(cpu)
        }
}

/// The limits admit the container for a list of patches, and no entry of its
/// table is the one that ends a table.
pub open spec fn container_fits(list: Seq<Held>, table: Seq<EquivalenceEntry>, limits: Limits) -> bool {
    let m = amd_model(list, table);
    &&& list.len() > 0
    &&& (m.equivalence.len() + 1) * 16 <= u32::MAX
    &&& forall|i: int| 0 <= i < m.equivalence.len() ==> !(#[trigger] m.equivalence[i]).is_terminator()
    &&& forall|i: int| 0 <= i < list.len() ==> readable_payload((#[trigger] list[i]).1, m.equivalence, limits)
    &&& amd_blob(list, table).len() <= limits.max_blob_bytes
    &&& amd_blob(list, table).len() <= usize::MAX
    &&& list.len() <= limits.max_patches
}

proof fn lemma_read_back_at(
    patches: Seq<(u16, u32, Seq<u8>)>,
    off: int,
    table: Seq<EquivalenceEntry>,
    j: int,
)
    requires
        0 <= j < patches.len(),
    ensures
        all_read_back(patches, off, table).len() == patches.len(),
        exists|o: int| all_read_back(patches, off, table)[j] == #[trigger] read_back(patches[j].2, o, table),
    decreases patches.len(),
{
    let rest = patches.drop_first();
    let next = off + 8 + patches[0].2.len();
    let all = all_read_back(patches, off, table);
    if rest.len() > 0 {
        lemma_read_back_at(rest, next, table, if j > 0 { j - 1 } else { 0 });
    } else {
        assert(all_read_back(rest, next, table).len() == 0);
    }
    if j == 0 {
        assert(all[0] == read_back(patches[0].2, off + 8, table));
    } else {
        let o = choose|o: int|
            all_read_back(rest, next, table)[j - 1] == #[trigger] read_back(rest[j - 1].2, o, table);
        assert(all[j] == all_read_back(rest, next, table)[j - 1]);
        assert(rest[j - 1] == patches[j]);
        assert(all[j] == read_back(patches[j].2, o, table));
    }
}

proof fn lemma_placed_maps(table: Seq<EquivalenceEntry>, cpu: CpuSignature, id: u16)
    requires
        maps(table, cpu, id),
    ensures
        maps(placed(table), cpu, id),
{
    let i = choose|i: int|
        0 <= i < table.len() && (#[trigger] table[i]).installed_cpu == cpu && table[i].equiv_id == id;
    assert(placed(table)[i].installed_cpu == cpu);
}

proof fn lemma_emitted_short(patches: Seq<(u16, u32, Seq<u8>)>)
    ensures
        emitted(patches).len() <= patches.len(),
{
    lemma_sort_len(
        patches,
        |a: (u16, u32, Seq<u8>), b: (u16, u32, Seq<u8>)| crate::amd::writer::patch_less(a, b),
    );
    lemma_dedup_len(
        sort_by(
            patches,
            |a: (u16, u32, Seq<u8>), b: (u16, u32, Seq<u8>)| crate::amd::writer::patch_less(a, b),
        ),
    );
}

proof fn lemma_dedup_len(s: Seq<(u16, u32, Seq<u8>)>)
    ensures
        dedup_by(s, equal::<(u16, u32, Seq<u8>)>()).len() <= s.len(),
    decreases s.len(),
{
    if s.len() > 0 {
        lemma_dedup_len(s.drop_last());
    }
}

/// The AMD blob of a list of patches reads back whole: parsing it gives one
/// container with every patch, for at least all the processors that the patch
/// had in the catalog.
pub proof fn law_the_amd_blob_reads_back(list: Seq<Held>, table: Seq<EquivalenceEntry>, limits: Limits)
    requires
        container_fits(list, table, limits),
    ensures
        holds_patches(amd_blob(list, table), list, limits),
{
    let m = amd_model(list, table);
    let b = amd_blob(list, table);
    assert(m.patches.len() == list.len());
    law_patches_are_emitted_in_order(m.patches);
    let all = emitted(m.patches);
    assert forall|j: int| 0 <= j < all.len() implies exists|i: int|
        0 <= i < list.len() && (#[trigger] list[i]).1 == (#[trigger] all[j]).2 by {
        assert(all.contains(all[j]));
        let i = choose|i: int| 0 <= i < m.patches.len() && m.patches[i] == all[j];
        assert(list[i].1 == all[j].2);
    }
    assert forall|j: int| 0 <= j < all.len() implies readable_payload((#[trigger] all[j]).2, m.equivalence, limits) by {
        let i = choose|i: int| 0 <= i < list.len() && (#[trigger] list[i]).1 == all[j].2;
        assert(readable_payload(list[i].1, m.equivalence, limits));
    }
    lemma_emitted_short(m.patches);
    law_built_container_reads_back(m, limits);
    let cs = containers_of(b, limits)->Ok_0;
    let c = cs[0];
    assert forall|i: int| 0 <= i < list.len() implies holds_patch(b, c, #[trigger] list[i]) by {
        let p = list[i];
        assert forall|cpu: CpuSignature, id: u16| #[trigger] is_pair(p.0, cpu, id) implies maps(
            c.equivalence,
            cpu,
            id,
        ) by {
            law_the_table_maps_every_processor(list, table, cpu, id);
            lemma_placed_maps(m.equivalence, cpu, id);
        }
        assert(m.patches.contains(m.patches[i]));
        assert(all.contains(m.patches[i]));
        let j = choose|j: int| 0 <= j < all.len() && all[j] == m.patches[i];
        let x = c.patches[j];
        assert(slice_of(b, x.offset as int, x.size as int) == Some(p.1));
        lemma_read_back_at(all, (28 + 16 * m.equivalence.len()) as int, placed(m.equivalence), j);
        assert forall|cpu: CpuSignature, id: u16| #[trigger]
            is_pair(p.0, cpu, id) && x.header.processor_rev_id == id implies x.signatures.contains(cpu) by {
            assert(maps(c.equivalence, cpu, id));
            law_signatures_of_an_id(c.equivalence, id, cpu);
            let k = choose|k: int|
                0 <= k < c.equivalence.len() && (#[trigger] c.equivalence[k]).installed_cpu == cpu
                    && c.equivalence[k].equiv_id == id;
            assert(c.equivalence[k].equiv_id == id && c.equivalence[k].installed_cpu == cpu);
        }
    }
    assert forall|j: int| 0 <= j < c.patches.len() implies exists|i: int|
        0 <= i < list.len() && slice_of(
            b,
            (#[trigger] c.patches[j]).offset as int,
            c.patches[j].size as int,
        ) == Some((#[trigger] list[i]).1) by {
        let i = choose|i: int| 0 <= i < list.len() && (#[trigger] list[i]).1 == all[j].2;
        assert(slice_of(b, c.patches[j].offset as int, c.patches[j].size as int) == Some(list[i].1));
    }
}

/// The blob is a sequence of updates that strict parsing accepts without a
/// finding: the patches of the list, byte for byte and in order.
pub open spec fn holds_bundle(b: Seq<u8>, list: Seq<(IntelKey, Held)>, limits: Limits) -> bool {
    bundle_of(b, IntelValidationMode::Strict, limits) matches Ok(bundle) && {
        &&& bundle.report.len() == 0
        &&& bundle.entries.len() == list.len()
        &&& forall|k: int|
            0 <= k < list.len() ==> slice_of(
                b,
                (#[trigger] bundle.entries[k]).offset as int,
                bundle.entries[k].size as int,
            ) == Some(list[k].1.1)
    }
}

/// A member of the image has the name and contents of a kind.
pub open spec fn has_member(
    image: Seq<u8>,
    limits: Limits,
    name: Seq<char>,
    good: spec_fn(Seq<u8>) -> bool,
) -> bool {
    scan_of(image, limits) matches Ok(Some(scan)) && scan.archive_count == 1 && scan.end_offset == image.len()
        && exists|k: int|
        0 <= k < scan.entries.len() && (#[trigger] scan.entries[k]).name == name && (scan.entries[k].content(
            image,
        ) matches Some(b) && good(b))
}

proof fn lemma_blob_length(list: Seq<(IntelKey, Held)>)
    requires
        list.len() > 0,
        list.last().1.1.len() > 0,
    ensures
        intel_blob(list).len() > 0,
{
}

proof fn lemma_bundle_slices(
    m: CatalogModel,
    cpus: Option<Seq<CpuIdentity>>,
    best_only: bool,
    limits: Limits,
)
    requires
        holds_updates(m, limits),
        0 < chosen(zipped(m.patches, m.payloads), cpus, best_only).intel.len() <= limits.max_patches,
        intel_blob(chosen(zipped(m.patches, m.payloads), cpus, best_only).intel).len()
            <= limits.max_blob_bytes,
    ensures
        holds_bundle(
            intel_blob(chosen(zipped(m.patches, m.payloads), cpus, best_only).intel),
            chosen(zipped(m.patches, m.payloads), cpus, best_only).intel,
            limits,
        ),
{
    let list = chosen(zipped(m.patches, m.payloads), cpus, best_only).intel;
    let b = intel_blob(list);
    law_built_updates_read_back(m, cpus, best_only, limits);
    let bundle = bundle_of(b, IntelValidationMode::Strict, limits)->Ok_0;
    lemma_blob_is_concatenated(list);
    let ps = payloads_of(list);
    assert forall|k: int| 0 <= k < list.len() implies slice_of(
        b,
        (#[trigger] bundle.entries[k]).offset as int,
        bundle.entries[k].size as int,
    ) == Some(list[k].1.1) by {
        assert(stands_for(bundle.entries[k], list[k].1.1, start_of(ps, k), limits));
        lemma_concatenated(ps, k);
        assert(ps[k] == list[k].1.1);
    }
}

/// The limits admit the image that is built from a catalog, and the catalog was
/// ingested strictly.
pub open spec fn image_fits(
    m: CatalogModel,
    c: Chosen,
    emit_parent_dirs: bool,
    limits: Limits,
) -> bool {
    let amd = amd_blob(c.amd, m.amd_equivalence);
    let intel = intel_blob(c.intel);
    let archive = early_archive(intel, amd, emit_parent_dirs);
    &&& holds_updates(m, limits)
    &&& c.intel.len() <= limits.max_patches
    &&& intel.len() <= limits.max_blob_bytes
    &&& intel.len() <= member_limit(limits)
    &&& c.amd.len() > 0 ==> container_fits(c.amd, m.amd_equivalence, limits)
    &&& amd.len() <= member_limit(limits)
    &&& members_of(archive).len() <= limits.max_archive_entries
    &&& archive_bytes(archive).len() <= usize::MAX
}

proof fn lemma_intel_member(
    m: CatalogModel,
    cpus: Option<Seq<CpuIdentity>>,
    emit_parent_dirs: bool,
    best_only: bool,
    limits: Limits,
)
    requires
        image_fits(m, chosen(zipped(m.patches, m.payloads), cpus, best_only), emit_parent_dirs, limits),
        chosen(zipped(m.patches, m.payloads), cpus, best_only).intel.len() > 0,
    ensures
        ({
            let c = chosen(zipped(m.patches, m.payloads), cpus, best_only);
            let amd = amd_blob(c.amd, m.amd_equivalence);
            &&& intel_blob(c.intel).len() > 0
            &&& has_member(
                archive_bytes(early_archive(intel_blob(c.intel), amd, emit_parent_dirs)),
                limits,
                "kernel/x86/microcode/GenuineIntel.bin"@,
                |b: Seq<u8>| holds_bundle(b, c.intel, limits),
            )
        }),
{
    let all = zipped(m.patches, m.payloads);
    let c = chosen(all, cpus, best_only);
    let amd = amd_blob(c.amd, m.amd_equivalence);
    let intel = intel_blob(c.intel);
    law_only_what_was_asked_for_is_chosen(all, cpus, best_only);
    assert(is_asked_for(c.intel[c.intel.len() - 1].1, cpus));
    lemma_blob_length(c.intel);
    lemma_bundle_slices(m, cpus, best_only, limits);
    law_early_image_holds_the_blobs(intel, amd, emit_parent_dirs, limits, Vendor::Intel);
    let good = |b: Seq<u8>| holds_bundle(b, c.intel, limits);
    assert(good(intel));
    lemma_has_member(
        archive_bytes(early_archive(intel, amd, emit_parent_dirs)),
        limits,
        Vendor::Intel,
        intel,
        good,
    );
}

proof fn lemma_amd_member(m: CatalogModel, c: Chosen, emit_parent_dirs: bool, limits: Limits)
    requires
        image_fits(m, c, emit_parent_dirs, limits),
        c.amd.len() > 0,
    ensures
        amd_blob(c.amd, m.amd_equivalence).len() > 0,
        has_member(
            archive_bytes(
                early_archive(
                    intel_blob(c.intel),
                    amd_blob(c.amd, m.amd_equivalence),
                    emit_parent_dirs,
                ),
            ),
            limits,
            "kernel/x86/microcode/AuthenticAMD.bin"@,
            |b: Seq<u8>| holds_patches(b, c.amd, limits),
        ),
{
    let amd = amd_blob(c.amd, m.amd_equivalence);
    let intel = intel_blob(c.intel);
    law_the_amd_blob_reads_back(c.amd, m.amd_equivalence, limits);
    law_early_image_holds_the_blobs(intel, amd, emit_parent_dirs, limits, Vendor::Amd);
    let good = |b: Seq<u8>| holds_patches(b, c.amd, limits);
    assert(good(amd));
    lemma_has_member(
        archive_bytes(early_archive(intel, amd, emit_parent_dirs)),
        limits,
        Vendor::Amd,
        amd,
        good,
    );
}

/// What an early image is for: it is one archive, and under the path that the
/// loader of each vendor looks at it holds the chosen patches of that vendor,
/// byte for byte, the AMD ones with a table for all their processors. The
/// result counts them, names the members and the size, and carries the digest
/// of the bytes.
pub proof fn law_the_image_reads_back(
    m: CatalogModel,
    cpus: Option<Seq<CpuIdentity>>,
    emit_parent_dirs: bool,
    best_only: bool,
    limits: Limits,
)
    requires
        image_fits(m, chosen(zipped(m.patches, m.payloads), cpus, best_only), emit_parent_dirs, limits),
        chosen(zipped(m.patches, m.payloads), cpus, best_only).intel.len() > 0 || chosen(
            zipped(m.patches, m.payloads),
            cpus,
            best_only,
        ).amd.len() > 0,
    ensures
        ({
            let c = chosen(zipped(m.patches, m.payloads), cpus, best_only);
            early_of(m, cpus, emit_parent_dirs, best_only) matches Ok(image) && {
                &&& c.intel.len() > 0 ==> has_member(
                    image.bytes,
                    limits,
                    "kernel/x86/microcode/GenuineIntel.bin"@,
                    |b: Seq<u8>| holds_bundle(b, c.intel, limits),
                )
                &&& c.amd.len() > 0 ==> has_member(
                    image.bytes,
                    limits,
                    "kernel/x86/microcode/AuthenticAMD.bin"@,
                    |b: Seq<u8>| holds_patches(b, c.amd, limits),
                )
                &&& is_described(image, c.intel.len(), c.amd.len())
            }
        }),
{
    let c = chosen(zipped(m.patches, m.payloads), cpus, best_only);
    if c.intel.len() > 0 {
        lemma_intel_member(m, cpus, emit_parent_dirs, best_only, limits);
    }
    if c.amd.len() > 0 {
        lemma_amd_member(m, c, emit_parent_dirs, limits);
    }
    lemma_described(m, cpus, emit_parent_dirs, best_only);
}

/// The result counts the patches, names the members and the size, and carries
/// the digest of the bytes.
pub open spec fn is_described(image: EarlyModel, intel: nat, amd: nat) -> bool {
    &&& image.intel_patches == intel
    &&& image.amd_patches == amd
    &&& image.size == image.bytes.len() as u64
    &&& image.sha256 == hex_bytes(sha256_of(image.bytes))
    &&& image.paths == (if intel > 0 {
        seq!["kernel/x86/microcode/GenuineIntel.bin"@]
    } else {
        Seq::empty()
    }) + (if amd > 0 {
        seq!["kernel/x86/microcode/AuthenticAMD.bin"@]
    } else {
        Seq::empty()
    })
}

proof fn lemma_described(
    m: CatalogModel,
    cpus: Option<Seq<CpuIdentity>>,
    emit_parent_dirs: bool,
    best_only: bool,
)
    requires
        ({
            let c = chosen(zipped(m.patches, m.payloads), cpus, best_only);
            &&& c.intel.len() > 0 ==> intel_blob(c.intel).len() > 0
            &&& c.amd.len() > 0 ==> amd_blob(c.amd, m.amd_equivalence).len() > 0
            &&& c.intel.len() > 0 || c.amd.len() > 0
        }),
    ensures
        ({
            let c = chosen(zipped(m.patches, m.payloads), cpus, best_only);
            early_of(m, cpus, emit_parent_dirs, best_only) matches Ok(image) && image.bytes == archive_bytes(
                early_archive(
                    intel_blob(c.intel),
                    amd_blob(c.amd, m.amd_equivalence),
                    emit_parent_dirs,
                ),
            ) && is_described(image, c.intel.len(), c.amd.len())
        }),
{
}

proof fn lemma_has_member(
    image: Seq<u8>,
    limits: Limits,
    vendor: Vendor,
    blob: Seq<u8>,
    good: spec_fn(Seq<u8>) -> bool,
)
    requires
        holds_blob(image, limits, vendor, blob),
        good(blob),
    ensures
        has_member(
            image,
            limits,
            (match vendor {
                Vendor::Intel => "kernel/x86/microcode/GenuineIntel.bin"@,
                Vendor::Amd => "kernel/x86/microcode/AuthenticAMD.bin"@,
            }),
            good,
        ),
{
    let scan = scan_of(image, limits)->Ok_0->Some_0;
    let k = choose|k: int| 0 <= k < scan.entries.len() && is_blob(#[trigger] scan.entries[k], image, vendor, blob);
    assert(scan.entries[k].content(image) == Some(blob));
}

proof fn lemma_amd_stays(s: Seq<Held>, cpus: Option<Seq<CpuIdentity>>, best_only: bool, i: int)
    requires
        0 <= i < s.len(),
        wanted(s[i], cpus),
        s[i].0.vendor == Vendor::Amd,
    ensures
        chosen(s, cpus, best_only).amd.len() > 0,
    decreases s.len(),
{
    let front = s.drop_last();
    let p = s.last();
    let list = chosen(front, cpus, best_only).amd;
    if i < front.len() {
        assert(front[i] == s[i]);
        lemma_amd_stays(front, cpus, best_only, i);
    }
    if wanted(p, cpus) && p.0.vendor == Vendor::Amd {
        if let Some(m) = primary_of(p.0.matches) {
            lemma_first_for(list, m.signature, 0);
        }
    }
}

/// An image is built exactly if there is something that was asked for.
pub proof fn law_an_image_needs_a_patch(
    m: CatalogModel,
    cpus: Option<Seq<CpuIdentity>>,
    emit_parent_dirs: bool,
    best_only: bool,
)
    ensures
        ({
            let s = zipped(m.patches, m.payloads);
            early_of(m, cpus, emit_parent_dirs, best_only) is Ok <==> exists|i: int|
                0 <= i < s.len() && is_asked_for(#[trigger] s[i], cpus)
        }),
{
    let s = zipped(m.patches, m.payloads);
    let c = chosen(s, cpus, best_only);
    law_only_what_was_asked_for_is_chosen(s, cpus, best_only);
    if c.intel.len() > 0 {
        let k = choose|k: int| 0 <= k < s.len() && s[k] == c.intel[0].1;
        assert(s.contains(c.intel[0].1));
        assert(is_asked_for(s[k], cpus));
    }
    if c.amd.len() > 0 {
        let k = choose|k: int| 0 <= k < s.len() && s[k] == c.amd[0];
        assert(s.contains(c.amd[0]));
        assert(is_asked_for(s[k], cpus));
    }
    if exists|i: int| 0 <= i < s.len() && is_asked_for(#[trigger] s[i], cpus) {
        let i = choose|i: int| 0 <= i < s.len() && is_asked_for(#[trigger] s[i], cpus);
        lemma_wanted(s[i], cpus);
        if s[i].0.vendor == Vendor::Amd {
            lemma_amd_stays(s, cpus, best_only, i);
            assert(amd_blob(c.amd, m.amd_equivalence).len() > 0);
        } else {
            if best_only {
                law_the_newest_is_chosen(s, cpus, i);
            } else {
                law_everything_asked_for_is_chosen(s, cpus, i);
            }
            assert(c.intel.len() > 0);
            assert(is_asked_for(c.intel[c.intel.len() - 1].1, cpus));
            lemma_blob_length(c.intel);
        }
    }
}

// --- order and verbatim parts -------------------------------------------------------

/// The ids of the entries ascend.
spec fn ids_ascend(used: Seq<(u16, EquivalenceEntry)>) -> bool {
    forall|i: int, j: int| 0 <= i < j < used.len() ==> (#[trigger] used[i]).0 < (#[trigger] used[j]).0
}

/// The entry stands in the list for its id.
spec fn stands_in(used: Seq<(u16, EquivalenceEntry)>, id: u16, e: EquivalenceEntry) -> bool {
    exists|i: int| 0 <= i < used.len() && #[trigger] used[i] == (id, e)
}

proof fn lemma_id_placed(used: Seq<(u16, EquivalenceEntry)>, id: u16, e: EquivalenceEntry)
    requires
        ids_ascend(used),
    ensures
        ids_ascend(with_id(used, id, e)),
        stands_in(with_id(used, id, e), id, e),
        forall|i: int|
            0 <= i < with_id(used, id, e).len() ==> (#[trigger] with_id(used, id, e)[i]).0 == id || exists|j: int|
                0 <= j < used.len() && #[trigger] used[j] == with_id(used, id, e)[i],
        forall|j: int|
            0 <= j < used.len() && (#[trigger] used[j]).0 != id ==> stands_in(
                with_id(used, id, e),
                used[j].0,
                used[j].1,
            ),
    decreases used.len(),
{
    let all = with_id(used, id, e);
    if used.len() == 0 || used.last().0 < id {
        assert(all[used.len() as int] == (id, e));
        assert forall|i: int, j: int| 0 <= i < j < all.len() implies (#[trigger] all[i]).0 < (#[trigger] all[j]).0 by {
            if j < used.len() {
                assert(all[i] == used[i] && all[j] == used[j]);
            } else if i < used.len() - 1 {
                assert(used[i].0 < used[used.len() - 1].0);
            }
        }
        assert forall|j: int| 0 <= j < used.len() && (#[trigger] used[j]).0 != id implies stands_in(
            all,
            used[j].0,
            used[j].1,
        ) by {
            assert(all[j] == (used[j].0, used[j].1));
        }
        assert forall|i: int| 0 <= i < all.len() implies (#[trigger] all[i]).0 == id || exists|j: int|
            0 <= j < used.len() && #[trigger] used[j] == all[i] by {
            if i < used.len() {
                assert(used[i] == all[i]);
            }
        }
    } else if used.last().0 == id {
        let n = used.len() - 1;
        assert(all[n] == (id, e));
        assert forall|i: int, j: int| 0 <= i < j < all.len() implies (#[trigger] all[i]).0 < (#[trigger] all[j]).0 by {
            assert(all[i].0 == used[i].0 && all[j].0 == used[j].0);
        }
        assert forall|j: int| 0 <= j < used.len() && (#[trigger] used[j]).0 != id implies stands_in(
            all,
            used[j].0,
            used[j].1,
        ) by {
            assert(j < n);
            assert(all[j] == (used[j].0, used[j].1));
        }
        assert forall|i: int| 0 <= i < all.len() implies (#[trigger] all[i]).0 == id || exists|j: int|
            0 <= j < used.len() && #[trigger] used[j] == all[i] by {
            if i < n {
                assert(used[i] == all[i]);
            }
        }
    } else {
        let n = used.len() - 1;
        let front = used.drop_last();
        assert forall|i: int, j: int| 0 <= i < j < front.len() implies (#[trigger] front[i]).0 < (
        #[trigger] front[j]).0 by {
            assert(front[i] == used[i] && front[j] == used[j]);
        }
        lemma_id_placed(front, id, e);
        let less = with_id(front, id, e);
        assert(all == less.push(used[n]));
        assert forall|i: int, j: int| 0 <= i < j < all.len() implies (#[trigger] all[i]).0 < (#[trigger] all[j]).0 by {
            if j < less.len() {
                assert(all[i] == less[i] && all[j] == less[j]);
            } else {
                assert(all[i] == less[i]);
                if less[i].0 != id {
                    let k = choose|k: int| 0 <= k < front.len() && #[trigger] front[k] == less[i];
                    assert(used[k] == front[k]);
                    assert(used[k].0 < used[n].0);
                }
            }
        }
        assert(stands_in(all, id, e)) by {
            let k = choose|k: int| 0 <= k < less.len() && #[trigger] less[k] == (id, e);
            assert(all[k] == (id, e));
        }
        assert forall|j: int| 0 <= j < used.len() && (#[trigger] used[j]).0 != id implies stands_in(
            all,
            used[j].0,
            used[j].1,
        ) by {
            if j < n {
                assert(front[j] == used[j]);
                assert(stands_in(less, front[j].0, front[j].1));
                let k = choose|k: int| 0 <= k < less.len() && #[trigger] less[k] == (front[j].0, front[j].1);
                assert(all[k] == (used[j].0, used[j].1));
            } else {
                assert(all[less.len() as int] == (used[j].0, used[j].1));
            }
        }
        assert forall|i: int| 0 <= i < all.len() implies (#[trigger] all[i]).0 == id || exists|j: int|
            0 <= j < used.len() && #[trigger] used[j] == all[i] by {
            if i < less.len() {
                assert(all[i] == less[i]);
                if less[i].0 != id {
                    let k = choose|k: int| 0 <= k < front.len() && #[trigger] front[k] == less[i];
                    assert(used[k] == front[k]);
                }
            } else {
                assert(used[n] == all[i]);
            }
        }
    }
}

proof fn lemma_used_stays(
    used: Seq<(u16, EquivalenceEntry)>,
    id: u16,
    signature: CpuSignature,
    table: Seq<EquivalenceEntry>,
    x: u16,
    e: EquivalenceEntry,
)
    requires
        ids_ascend(used),
        last_with_id(table, x) == Some(e),
        x != 0,
        stands_in(used, x, e) || x == id,
    ensures
        ids_ascend(used_step(used, id, signature, table)),
        stands_in(used_step(used, id, signature, table), x, e),
{
    if id != 0 {
        match last_with_id(table, id) {
            Some(f) => {
                lemma_id_placed(used, id, f);
                if x != id {
                    let i = choose|i: int| 0 <= i < used.len() && #[trigger] used[i] == (x, e);
                    assert(stands_in(with_id(used, id, f), used[i].0, used[i].1));
                }
            },
            None => {
                if !has_id(used, id) {
                    lemma_id_placed(used, id, plain_entry(signature, id));
                    let i = choose|i: int| 0 <= i < used.len() && #[trigger] used[i] == (x, e);
                    assert(stands_in(
                        with_id(used, id, plain_entry(signature, id)),
                        used[i].0,
                        used[i].1,
                    ));
                }
            },
        }
    }
}

proof fn lemma_step_ascends(
    used: Seq<(u16, EquivalenceEntry)>,
    id: u16,
    signature: CpuSignature,
    table: Seq<EquivalenceEntry>,
)
    requires
        ids_ascend(used),
    ensures
        ids_ascend(used_step(used, id, signature, table)),
{
    match last_with_id(table, id) {
        Some(f) => {
            lemma_id_placed(used, id, f);
        },
        None => {
            lemma_id_placed(used, id, plain_entry(signature, id));
        },
    }
}

proof fn lemma_pairs_hold(
    used: Seq<(u16, EquivalenceEntry)>,
    p: PatchModel,
    n: nat,
    table: Seq<EquivalenceEntry>,
    x: u16,
    e: EquivalenceEntry,
)
    requires
        ids_ascend(used),
        last_with_id(table, x) == Some(e),
        x != 0,
    ensures
        ids_ascend(used_pairs(used, p, n, table)),
        stands_in(used, x, e) || (exists|k: int| 0 <= k < n && #[trigger] id_of(p, k) == x) ==> stands_in(
            used_pairs(used, p, n, table),
            x,
            e,
        ),
    decreases n,
{
    if n > 0 {
        let m = (n - 1) as nat;
        lemma_pairs_hold(used, p, m, table, x, e);
        let before = used_pairs(used, p, m, table);
        let id = id_of(p, n - 1);
        let sig = p.matches[n - 1].signature;
        lemma_step_ascends(before, id, sig, table);
        if stands_in(before, x, e) || id == x {
            lemma_used_stays(before, id, sig, table, x, e);
        }
    }
}

proof fn lemma_entries_hold(list: Seq<Held>, table: Seq<EquivalenceEntry>, x: u16, e: EquivalenceEntry)
    requires
        last_with_id(table, x) == Some(e),
        x != 0,
    ensures
        ids_ascend(used_entries(list, table)),
        (exists|i: int| 0 <= i < list.len() && uses_id((#[trigger] list[i]).0, x)) ==> stands_in(
            used_entries(list, table),
            x,
            e,
        ),
    decreases list.len(),
{
    if list.len() > 0 {
        let front = list.drop_last();
        let p = list.last().0;
        lemma_entries_hold(front, table, x, e);
        lemma_pairs_hold(used_entries(front, table), p, p.matches.len(), table, x, e);
        if exists|i: int| 0 <= i < list.len() && uses_id((#[trigger] list[i]).0, x) {
            let i = choose|i: int| 0 <= i < list.len() && uses_id((#[trigger] list[i]).0, x);
            if i < front.len() {
                assert(front[i] == list[i]);
            } else {
                let k = choose|k: int| 0 <= k < p.matches.len() && #[trigger] id_of(p, k) == x;
                assert(id_of(p, k) == x);
            }
        }
    }
}

proof fn lemma_table_holds(used: Seq<(u16, EquivalenceEntry)>, x: u16, e: EquivalenceEntry)
    requires
        ids_ascend(used),
        forall|i: int| 0 <= i < used.len() ==> (#[trigger] used[i]).1.equiv_id == used[i].0,
        stands_in(used, x, e),
    ensures
        strictly_sorted(with_used(used)),
        with_used(used).contains(e),
    decreases used.len(),
{
    let front = used.drop_last();
    let n = used.len() - 1;
    let i = choose|i: int| 0 <= i < used.len() && #[trigger] used[i] == (x, e);
    lemma_with_used(used, e.installed_cpu, x);
    lemma_with_used(front, e.installed_cpu, x);
    let m = BuilderModel { equivalence: with_used(front), patches: Seq::empty() };
    law_table_is_keyed(m, used.last().1);
    assert(used[n] == used.last());
    if i < n {
        assert(front[i] == (x, e));
        assert forall|a: int, b: int| 0 <= a < b < front.len() implies (#[trigger] front[a]).0 < (
        #[trigger] front[b]).0 by {
            assert(front[a] == used[a] && front[b] == used[b]);
        }
        assert forall|a: int| 0 <= a < front.len() implies (#[trigger] front[a]).1.equiv_id == front[a].0 by {
            assert(front[a] == used[a]);
        }
        lemma_table_holds(front, x, e);
        assert(used[i].0 < used[n].0);
        assert(e.equiv_id == x);
    }
}

proof fn lemma_entry_stays(table: Seq<EquivalenceEntry>, p: PatchModel, n: nat, e: EquivalenceEntry)
    requires
        strictly_sorted(table),
        table.contains(e),
        n <= p.matches.len(),
        !is_pair(p, e.installed_cpu, e.equiv_id),
    ensures
        strictly_sorted(with_mappings(table, p, n)),
        with_mappings(table, p, n).contains(e),
    decreases n,
{
    if n > 0 {
        let front = with_mappings(table, p, (n - 1) as nat);
        lemma_entry_stays(table, p, (n - 1) as nat, e);
        if let Some(id) = p.matches[n - 1].equivalence_id {
            let m = BuilderModel { equivalence: front, patches: Seq::empty() };
            let x = plain_entry(p.matches[n - 1].signature, id);
            law_table_is_keyed(m, x);
            assert(!same_key(e, x));
        }
    }
}

proof fn lemma_entry_stays_over(table: Seq<EquivalenceEntry>, list: Seq<Held>, e: EquivalenceEntry)
    requires
        strictly_sorted(table),
        table.contains(e),
        forall|i: int| 0 <= i < list.len() ==> !is_pair((#[trigger] list[i]).0, e.installed_cpu, e.equiv_id),
    ensures
        strictly_sorted(with_all_mappings(table, list)),
        with_all_mappings(table, list).contains(e),
    decreases list.len(),
{
    if list.len() > 0 {
        let front = list.drop_last();
        assert forall|i: int| 0 <= i < front.len() implies !is_pair(
            (#[trigger] front[i]).0,
            e.installed_cpu,
            e.equiv_id,
        ) by {
            assert(front[i] == list[i]);
        }
        lemma_entry_stays_over(table, front, e);
        assert(!is_pair(list[list.len() - 1].0, e.installed_cpu, e.equiv_id));
        lemma_entry_stays(with_all_mappings(table, front), list.last().0, list.last().0.matches.len(), e);
    }
}

proof fn lemma_last_at(table: Seq<EquivalenceEntry>, id: u16, k: int)
    requires
        0 <= k < table.len(),
        table[k].equiv_id == id,
        forall|j: int| k < j < table.len() ==> (#[trigger] table[j]).equiv_id != id,
    ensures
        last_with_id(table, id) == Some(table[k]),
    decreases table.len(),
{
    if k < table.len() - 1 {
        assert(table[table.len() - 1].equiv_id != id);
        let front = table.drop_last();
        assert forall|j: int| k < j < front.len() implies (#[trigger] front[j]).equiv_id != id by {
            assert(front[j] == table[j]);
        }
        lemma_last_at(front, id, k);
    }
}

/// The catalog's own entries are taken over: for every id of a patch the last
/// entry that the catalog has for it is in the table, as it stands there, unless
/// a pair of a patch has its processor and its id and says the same of them.
pub proof fn law_the_catalogs_entries_are_taken_over(
    list: Seq<Held>,
    table: Seq<EquivalenceEntry>,
    i: int,
    k: int,
)
    requires
        0 <= i < list.len(),
        0 <= k < table.len(),
        table[k].equiv_id != 0,
        uses_id(list[i].0, table[k].equiv_id),
        forall|j: int| k < j < table.len() ==> (#[trigger] table[j]).equiv_id != table[k].equiv_id,
    ensures
        maps(amd_model(list, table).equivalence, table[k].installed_cpu, table[k].equiv_id),
        (forall|j: int|
            0 <= j < list.len() ==> !is_pair((#[trigger] list[j]).0, table[k].installed_cpu, table[k].equiv_id))
            ==> amd_model(list, table).equivalence.contains(table[k]),
{
    let e = table[k];
    let x = e.equiv_id;
    let used = used_entries(list, table);
    lemma_last_at(table, x, k);
    lemma_entries_hold(list, table, x, e);
    assert(list.take(list.len() as int) =~= list);
    lemma_used_entries(list, table, list.len() as int);
    assert forall|a: int| 0 <= a < used.len() implies (#[trigger] used[a]).1.equiv_id == used[a].0 by {
        assert(is_used(list, table, used[a]));
    }
    lemma_table_holds(used, x, e);
    lemma_maps_list(with_used(used), list, e.installed_cpu, x);
    let n = choose|n: int| 0 <= n < with_used(used).len() && with_used(used)[n] == e;
    assert(with_used(used)[n].installed_cpu == e.installed_cpu);
    if forall|j: int|
        0 <= j < list.len() ==> !is_pair((#[trigger] list[j]).0, table[k].installed_cpu, table[k].equiv_id) {
        lemma_entry_stays_over(with_used(used), list, e);
    }
}

/// The Intel patches of an image ascend by signature, platform mask and
/// revision of the pair that they are filed under.
pub proof fn law_intel_patches_ascend(s: Seq<Held>, cpus: Option<Seq<CpuIdentity>>, best_only: bool, i: int, j: int)
    requires
        0 <= i < j < chosen(s, cpus, best_only).intel.len(),
    ensures
        ({
            let a = chosen(s, cpus, best_only).intel[i].1.0;
            let b = chosen(s, cpus, best_only).intel[j].1.0;
            ||| filed_under(a).0 < filed_under(b).0
            ||| filed_under(a).0 == filed_under(b).0 && filed_under(a).1 < filed_under(b).1
            ||| filed_under(a) == filed_under(b) && a.revision < b.revision
        }),
{
    let list = chosen(s, cpus, best_only).intel;
    lemma_keyed(s, cpus, best_only);
    lemma_ascends(s, cpus, best_only);
    assert(list[i].0 == intel_key(list[i].1.0));
    assert(list[j].0 == intel_key(list[j].1.0));
}

proof fn lemma_ascends(s: Seq<Held>, cpus: Option<Seq<CpuIdentity>>, best_only: bool)
    ensures
        ascending(chosen(s, cpus, best_only).intel),
    decreases s.len(),
{
    if s.len() > 0 {
        lemma_ascends(s.drop_last(), cpus, best_only);
        let list = chosen(s.drop_last(), cpus, best_only).intel;
        let key = intel_key(s.last().0);
        lemma_with_key(list, key, s.last());
        lemma_without_others(list, key);
        lemma_with_key(without_others(list, key), key, s.last());
    }
}

/// An image is one archive with a regular file for each vendor that has a blob,
/// under the path of its loader, and with the directories on these paths where
/// they are wanted, and with none where they are not.
pub proof fn law_images_bring_their_directories(
    m: CatalogModel,
    cpus: Option<Seq<CpuIdentity>>,
    emit_parent_dirs: bool,
    best_only: bool,
    d: Seq<char>,
)
    ensures
        early_of(m, cpus, emit_parent_dirs, best_only) matches Ok(image) ==> ({
            let c = chosen(zipped(m.patches, m.payloads), cpus, best_only);
            let intel = intel_blob(c.intel);
            let amd = amd_blob(c.amd, m.amd_equivalence);
            let a = early_archive(intel, amd, emit_parent_dirs);
            let intel_path = "kernel/x86/microcode/GenuineIntel.bin"@;
            let amd_path = "kernel/x86/microcode/AuthenticAMD.bin"@;
            &&& image.bytes == archive_bytes(a)
            &&& a.files.len() == (if intel.len() > 0 {
                1int
            } else {
                0
            }) + (if amd.len() > 0 {
                1int
            } else {
                0
            })
            &&& intel.len() > 0 ==> a.files[0] == (FileModel { name: intel_path, data: intel, mode: 0o100644 })
            &&& amd.len() > 0 ==> a.files.last() == (FileModel { name: amd_path, data: amd, mode: 0o100644 })
            &&& !emit_parent_dirs ==> a.dirs.len() == 0
            &&& emit_parent_dirs ==> (a.dirs.contains(d) <==> (intel.len() > 0 && is_parent(d, intel_path)) || (
            amd.len() > 0 && is_parent(d, amd_path)))
        }),
{
    let c = chosen(zipped(m.patches, m.payloads), cpus, best_only);
    let intel = intel_blob(c.intel);
    let amd = amd_blob(c.amd, m.amd_equivalence);
    let none = ArchiveModel { dirs: Seq::empty(), files: Seq::empty(), emit_parent_dirs };
    let one = with_blob(none, Vendor::Intel, intel);
    law_files_bring_their_parents(none, "kernel/x86/microcode/GenuineIntel.bin"@, intel, d);
    law_files_bring_their_parents(one, "kernel/x86/microcode/AuthenticAMD.bin"@, amd, d);
}

/// The path leads to the other one: it ends before one of its slashes.
pub open spec fn is_parent(d: Seq<char>, path: Seq<char>) -> bool {
    exists|p: int| 0 <= p < path.len() && #[trigger] path[p] == '/' && d == path.take(p)
}

} // verus!
