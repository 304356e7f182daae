//! Laws of the early image.

use vstd::prelude::*;
use vstd::utf8::encode_utf8;
use crate::archive::error::ArchiveFault;
use crate::archive::format::TRAILER_NAME;
use crate::archive::law::{
    entries_of, law_archive_is_aligned, law_archive_reads_back, law_directories_are_sorted,
    law_members_keep_their_contents, writable,
};
use crate::archive::reader::{member_limit, scan_of, CpioModel, ScanModel};
use crate::archive::writer::{
    archive_bytes, dir_member, file_member, file_order, lemma_parents_short, members_of, parents,
    sorted_dirs, with_dirs, ArchiveModel, FileModel,
};
use crate::boot::early::{
    amd_step, blob_path, chosen, early_archive, first_for, has_newer, intel_before, intel_blob,
    intel_key, intel_step, lemma_early_paths_are_safe, same_target, wanted, with_blob, with_key,
    without_others, IntelKey,
};
use crate::boot::initrd::{extracted, microcode_path};
use crate::catalog::collection::{zipped, CatalogModel, Held};
use crate::catalog::law::holds_updates;
use crate::intel::bundle::bundle_of;
use crate::intel::law::{
    concatenated, is_update, law_concatenated_updates_read_back, stands_for, start_of,
};
use crate::intel::validate::IntelValidationMode;
use crate::model::cpu::{CpuIdentity, CpuSignature, Vendor};
use crate::model::limits::Limits;
use crate::model::patch::primary_of;
use crate::order::{lemma_sort_len, lemma_sort_members, sort_by};
use crate::text::ends_with;

verus! {

// --- the highest revision ---------------------------------------------------------

/// Every key stands before the ones behind it.
pub open spec fn ascending(list: Seq<(IntelKey, Held)>) -> bool {
    forall|i: int, j: int|
        0 <= i < j < list.len() ==> intel_before((#[trigger] list[i]).0, (#[trigger] list[j]).0)
}

pub proof fn lemma_with_key(list: Seq<(IntelKey, Held)>, key: IntelKey, p: Held)
    requires
        ascending(list),
    ensures
        ascending(with_key(list, key, p)),
        with_key(list, key, p).contains((key, p)),
        forall|x: (IntelKey, Held)| #[trigger]
            with_key(list, key, p).contains(x) <==> (x == (key, p) || (list.contains(x) && x.0 != key)),
        forall|k: IntelKey|
            intel_before(key, k) && (forall|i: int| 0 <= i < list.len() ==> intel_before((#[trigger] list[i]).0, k))
                ==> forall|i: int|
                0 <= i < with_key(list, key, p).len() ==> intel_before((#[trigger] with_key(list, key, p)[i]).0, k),
    decreases list.len(),
{
    let new = with_key(list, key, p);
    if list.len() == 0 || intel_before(list.last().0, key) {
        assert(new[list.len() as int] == (key, p));
        assert forall|x: (IntelKey, Held)| #[trigger] new.contains(x) <==> (x == (key, p) || (list.contains(x)
            && x.0 != key)) by {
            if list.contains(x) {
                let i = choose|i: int| 0 <= i < list.len() && list[i] == x;
                assert(new[i] == x);
                if i < list.len() - 1 {
                    assert(intel_before(list[i].0, list[list.len() - 1].0));
                }
            }
        }
    } else {
        let front = list.drop_last();
        let last = list.last();
        assert forall|i: int, j: int| 0 <= i < j < front.len() implies intel_before(
            (#[trigger] front[i]).0,
            (#[trigger] front[j]).0,
        ) by {
            assert(intel_before(list[i].0, list[j].0));
        }
        assert forall|i: int| 0 <= i < front.len() implies intel_before((#[trigger] front[i]).0, last.0) by {
            assert(intel_before(list[i].0, list[list.len() - 1].0));
        }
        lemma_with_key(front, key, p);
        if last.0 == key {
            assert(new[front.len() as int] == (key, p));
            assert forall|x: (IntelKey, Held)| #[trigger] new.contains(x) <==> (x == (key, p) || (
            list.contains(x) && x.0 != key)) by {
                if list.contains(x) && x.0 != key {
                    let i = choose|i: int| 0 <= i < list.len() && list[i] == x;
                    assert(new[i] == x);
                }
                if new.contains(x) && x != (key, p) {
                    let i = choose|i: int| 0 <= i < new.len() && new[i] == x;
                    assert(list[i] == x);
                    assert(front[i] == x);
                }
            }
        } else {
            let rest = with_key(front, key, p);
            assert(new == rest.push(last));
            assert(forall|i: int| 0 <= i < rest.len() ==> intel_before((#[trigger] rest[i]).0, last.0));
            let at = choose|i: int| 0 <= i < rest.len() && rest[i] == (key, p);
            assert(new[at] == (key, p));
            assert forall|x: (IntelKey, Held)| #[trigger] new.contains(x) <==> (x == (key, p) || (
            list.contains(x) && x.0 != key)) by {
                if new.contains(x) {
                    let i = choose|i: int| 0 <= i < new.len() && new[i] == x;
                    if i < rest.len() {
                        assert(rest[i] == x);
                        assert(rest.contains(x));
                        if front.contains(x) {
                            let k = choose|k: int| 0 <= k < front.len() && front[k] == x;
                            assert(list[k] == x);
                        }
                    } else {
                        assert(list[list.len() - 1] == x);
                    }
                }
                if list.contains(x) && x.0 != key {
                    let i = choose|i: int| 0 <= i < list.len() && list[i] == x;
                    if i < front.len() {
                        assert(front[i] == x);
                        assert(rest.contains(x));
                        let k = choose|k: int| 0 <= k < rest.len() && rest[k] == x;
                        assert(new[k] == x);
                    } else {
                        assert(new[rest.len() as int] == x);
                    }
                }
                if x == (key, p) {
                    assert(new.contains((key, p)));
                }
            }
            assert forall|k: IntelKey|
                intel_before(key, k) && (forall|i: int|
                    0 <= i < list.len() ==> intel_before((#[trigger] list[i]).0, k)) implies forall|i: int|
                0 <= i < new.len() ==> intel_before((#[trigger] new[i]).0, k) by {
                assert forall|i: int| 0 <= i < front.len() implies intel_before((#[trigger] front[i]).0, k) by {
                    assert(intel_before(list[i].0, k));
                }
                assert(intel_before(list[list.len() - 1].0, k));
            }
        }
    }
}

pub proof fn lemma_without_others(list: Seq<(IntelKey, Held)>, key: IntelKey)
    requires
        ascending(list),
    ensures
        ascending(without_others(list, key)),
        forall|x: (IntelKey, Held)| #[trigger]
            without_others(list, key).contains(x) <==> (list.contains(x) && !(same_target(x.0, key) && x.0.2
                != key.2)),
    decreases list.len(),
{
    if list.len() > 0 {
        let front = list.drop_last();
        let last = list.last();
        assert forall|i: int, j: int| 0 <= i < j < front.len() implies intel_before(
            (#[trigger] front[i]).0,
            (#[trigger] front[j]).0,
        ) by {
            assert(intel_before(list[i].0, list[j].0));
        }
        lemma_without_others(front, key);
        let kept = without_others(front, key);
        let all = without_others(list, key);
        assert forall|i: int| 0 <= i < kept.len() implies intel_before((#[trigger] kept[i]).0, last.0) by {
            assert(kept.contains(kept[i]));
            let k = choose|k: int| 0 <= k < front.len() && front[k] == kept[i];
            assert(intel_before(list[k].0, list[list.len() - 1].0));
        }
        assert forall|x: (IntelKey, Held)| #[trigger] all.contains(x) <==> (list.contains(x) && !(same_target(
            x.0,
            key,
        ) && x.0.2 != key.2)) by {
            if all.contains(x) {
                let i = choose|i: int| 0 <= i < all.len() && all[i] == x;
                if i < kept.len() {
                    assert(kept[i] == x);
                    assert(kept.contains(x));
                    let k = choose|k: int| 0 <= k < front.len() && front[k] == x;
                    assert(list[k] == x);
                } else {
                    assert(list[list.len() - 1] == x);
                }
            }
            if list.contains(x) && !(same_target(x.0, key) && x.0.2 != key.2) {
                let k = choose|k: int| 0 <= k < list.len() && list[k] == x;
                if k < front.len() {
                    assert(front[k] == x);
                    assert(kept.contains(x));
                    let i = choose|i: int| 0 <= i < kept.len() && kept[i] == x;
                    assert(all[i] == x);
                } else {
                    assert(all[all.len() - 1] == x);
                }
            }
        }
    }
}

/// An entry is for the target of the key and at least as new.
pub open spec fn covers(x: (IntelKey, Held), key: IntelKey) -> bool {
    same_target(x.0, key) && x.0.2 >= key.2
}

/// An entry for the target of the key, at least as new, is in the list.
pub open spec fn covered(list: Seq<(IntelKey, Held)>, key: IntelKey) -> bool {
    exists|x: (IntelKey, Held)| #[trigger] list.contains(x) && covers(x, key)
}

/// No two entries are for the same target.
pub open spec fn one_per_target(list: Seq<(IntelKey, Held)>) -> bool {
    forall|x: (IntelKey, Held), y: (IntelKey, Held)| #[trigger]
        list.contains(x) && #[trigger] list.contains(y) && same_target(x.0, y.0) ==> x == y
}

proof fn lemma_intel_step(list: Seq<(IntelKey, Held)>, p: Held)
    requires
        ascending(list),
        one_per_target(list),
    ensures
        ascending(intel_step(list, p, true)),
        one_per_target(intel_step(list, p, true)),
        covered(intel_step(list, p, true), intel_key(p.0)),
        forall|key: IntelKey| covered(list, key) ==> #[trigger] covered(intel_step(list, p, true), key),
{
    let key = intel_key(p.0);
    let new = intel_step(list, p, true);
    if has_newer(list, key) {
        let i = choose|i: int|
            0 <= i < list.len() && same_target((#[trigger] list[i]).0, key) && list[i].0.2 > key.2;
        assert(list.contains(list[i]));
        assert(covers(list[i], key));
    } else {
        let rest = without_others(list, key);
        lemma_without_others(list, key);
        lemma_with_key(rest, key, p);
        assert(new.contains((key, p)));
        assert(covers((key, p), key));
        assert forall|x: (IntelKey, Held), y: (IntelKey, Held)| #[trigger]
            new.contains(x) && #[trigger] new.contains(y) && same_target(x.0, y.0) implies x == y by {
            if x != (key, p) {
                assert(rest.contains(x));
                assert(list.contains(x));
            }
            if y != (key, p) {
                assert(rest.contains(y));
                assert(list.contains(y));
            }
        }
        assert forall|k: IntelKey| covered(list, k) implies #[trigger] covered(new, k) by {
            let x = choose|x: (IntelKey, Held)| #[trigger] list.contains(x) && covers(x, k);
            if same_target(x.0, key) {
                let i = choose|i: int| 0 <= i < list.len() && list[i] == x;
                assert(!(same_target(list[i].0, key) && list[i].0.2 > key.2));
                assert(covers((key, p), k));
            } else {
                assert(rest.contains(x));
                assert(new.contains(x));
            }
        }
    }
}

proof fn lemma_chosen(s: Seq<Held>, cpus: Option<Seq<CpuIdentity>>)
    ensures
        ascending(chosen(s, cpus, true).intel),
        one_per_target(chosen(s, cpus, true).intel),
        forall|i: int|
            0 <= i < s.len() && (#[trigger] s[i]).0.vendor == Vendor::Intel && wanted(s[i], cpus) ==> covered(
                chosen(s, cpus, true).intel,
                intel_key(s[i].0),
            ),
    decreases s.len(),
{
    if s.len() > 0 {
        let front = s.drop_last();
        let p = s.last();
        let before = chosen(front, cpus, true).intel;
        lemma_chosen(front, cpus);
        if wanted(p, cpus) && p.0.vendor == Vendor::Intel {
            lemma_intel_step(before, p);
        }
        assert forall|i: int|
            0 <= i < s.len() && (#[trigger] s[i]).0.vendor == Vendor::Intel && wanted(s[i], cpus) implies covered(
            chosen(s, cpus, true).intel,
            intel_key(s[i].0),
        ) by {
            if i < front.len() {
                assert(front[i] == s[i]);
                assert(covered(before, intel_key(front[i].0)));
            }
        }
    }
}

proof fn lemma_with_key_good(
    list: Seq<(IntelKey, Held)>,
    key: IntelKey,
    p: Held,
    good: spec_fn((IntelKey, Held)) -> bool,
)
    requires
        forall|i: int| 0 <= i < list.len() ==> good(#[trigger] list[i]),
        good((key, p)),
    ensures
        forall|i: int|
            0 <= i < with_key(list, key, p).len() ==> good(#[trigger] with_key(list, key, p)[i]),
    decreases list.len(),
{
    if list.len() > 0 {
        let front = list.drop_last();
        assert forall|i: int| 0 <= i < front.len() implies good(#[trigger] front[i]) by {
            assert(good(list[i]));
        }
        assert(good(list[list.len() - 1]));
        lemma_with_key_good(front, key, p, good);
        let new = with_key(list, key, p);
        let rest = with_key(front, key, p);
        assert forall|i: int| 0 <= i < new.len() implies good(#[trigger] new[i]) by {
            if intel_before(list.last().0, key) {
                assert(i < list.len() ==> new[i] == list[i]);
            } else if list.last().0 == key {
                assert(i < front.len() ==> new[i] == front[i]);
            } else {
                assert(i < rest.len() ==> new[i] == rest[i]);
            }
        }
    }
}

proof fn lemma_without_others_good(
    list: Seq<(IntelKey, Held)>,
    key: IntelKey,
    good: spec_fn((IntelKey, Held)) -> bool,
)
    requires
        forall|i: int| 0 <= i < list.len() ==> good(#[trigger] list[i]),
    ensures
        forall|i: int|
            0 <= i < without_others(list, key).len() ==> good(
                #[trigger] without_others(list, key)[i],
            ),
    decreases list.len(),
{
    if list.len() > 0 {
        let front = list.drop_last();
        assert forall|i: int| 0 <= i < front.len() implies good(#[trigger] front[i]) by {
            assert(good(list[i]));
        }
        assert(good(list[list.len() - 1]));
        lemma_without_others_good(front, key, good);
        let new = without_others(list, key);
        let rest = without_others(front, key);
        assert forall|i: int| 0 <= i < new.len() implies good(#[trigger] new[i]) by {
            assert(i < rest.len() ==> new[i] == rest[i]);
        }
    }
}

pub proof fn lemma_first_for(list: Seq<Held>, signature: CpuSignature, from: int)
    requires
        0 <= from,
    ensures
        first_for(list, signature, from) matches Some(i) ==> from <= i < list.len(),
    decreases list.len() - from,
{
    if from < list.len() {
        lemma_first_for(list, signature, from + 1);
    }
}

/// What holds of every entry and of the new one holds after the step.
pub proof fn lemma_with_key_keeps(
    list: Seq<(IntelKey, Held)>,
    key: IntelKey,
    p: Held,
    good: spec_fn((IntelKey, Held)) -> bool,
)
    requires
        forall|i: int| 0 <= i < list.len() ==> good(#[trigger] list[i]),
        good((key, p)),
    ensures
        forall|i: int|
            0 <= i < with_key(list, key, p).len() ==> good(#[trigger] with_key(list, key, p)[i]),
        forall|i: int|
            0 <= i < with_key(without_others(list, key), key, p).len() ==> good(
                #[trigger] with_key(without_others(list, key), key, p)[i],
            ),
{
    lemma_with_key_good(list, key, p, good);
    lemma_without_others_good(list, key, good);
    lemma_with_key_good(without_others(list, key), key, p, good);
}

/// The patch stands among the candidates and is wanted there.
pub open spec fn candidate(
    s: Seq<Held>,
    cpus: Option<Seq<CpuIdentity>>,
    vendor: Vendor,
    p: Held,
) -> bool {
    s.contains(p) && wanted(p, cpus) && p.0.vendor == vendor
}

pub proof fn lemma_chosen_candidates(
    s: Seq<Held>,
    n: int,
    cpus: Option<Seq<CpuIdentity>>,
    best_only: bool,
)
    requires
        0 <= n <= s.len(),
    ensures
        ({
            let c = chosen(s.take(n), cpus, best_only);
            &&& forall|i: int|
                0 <= i < c.intel.len() ==> candidate(
                    s,
                    cpus,
                    Vendor::Intel,
                    (#[trigger] c.intel[i]).1,
                )
            &&& forall|i: int|
                0 <= i < c.amd.len() ==> candidate(s, cpus, Vendor::Amd, #[trigger] c.amd[i])
        }),
    decreases n,
{
    if n > 0 {
        lemma_chosen_candidates(s, n - 1, cpus, best_only);
        assert(s.take(n).drop_last() =~= s.take(n - 1));
        let p = s[n - 1];
        assert(s.take(n).last() == p);
        assert(s.contains(p));
        let c = chosen(s.take(n - 1), cpus, best_only);
        let key = intel_key(p.0);
        if wanted(p, cpus) && p.0.vendor == Vendor::Intel {
            let good = |x: (IntelKey, Held)| candidate(s, cpus, Vendor::Intel, x.1);
            lemma_without_others_good(c.intel, key, good);
            lemma_with_key_good(without_others(c.intel, key), key, p, good);
            lemma_with_key_good(c.intel, key, p, good);
            let new = intel_step(c.intel, p, best_only);
            assert forall|i: int| 0 <= i < new.len() implies candidate(
                s,
                cpus,
                Vendor::Intel,
                (#[trigger] new[i]).1,
            ) by {
                assert(good(new[i]));
            }
        }
        if wanted(p, cpus) && p.0.vendor == Vendor::Amd {
            let new = amd_step(c.amd, p, best_only);
            if let Some(m) = primary_of(p.0.matches) {
                lemma_first_for(c.amd, m.signature, 0);
            }
            assert forall|i: int| 0 <= i < new.len() implies candidate(
                s,
                cpus,
                Vendor::Amd,
                #[trigger] new[i],
            ) by {
                if new.len() == c.amd.len() + 1 {
                    assert(i < c.amd.len() ==> new[i] == c.amd[i]);
                } else if new != c.amd {
                    let k = first_for(c.amd, primary_of(p.0.matches)->0.signature, 0)->0;
                    assert(i < k ==> new[i] == c.amd[i]);
                    assert(k <= i < new.len() - 1 ==> new[i] == c.amd[i + 1]);
                }
            }
        }
    }
}

/// Building never invents microcode: every patch that goes into the image is
/// one of the candidates, with its bytes, and is wanted.
pub proof fn law_chosen_are_candidates(
    s: Seq<Held>,
    cpus: Option<Seq<CpuIdentity>>,
    best_only: bool,
)
    ensures
        ({
            let c = chosen(s, cpus, best_only);
            &&& forall|i: int|
                0 <= i < c.intel.len() ==> candidate(
                    s,
                    cpus,
                    Vendor::Intel,
                    (#[trigger] c.intel[i]).1,
                )
            &&& forall|i: int|
                0 <= i < c.amd.len() ==> candidate(s, cpus, Vendor::Amd, #[trigger] c.amd[i])
        }),
{
    lemma_chosen_candidates(s, s.len() as int, cpus, best_only);
    assert(s.take(s.len() as int) =~= s);
}

/// With only the best wanted, the image holds one Intel update per signature
/// and platform mask, and for every wanted one an update for its target that
/// is at least as new.
pub proof fn law_best_only_keeps_the_newest(s: Seq<Held>, cpus: Option<Seq<CpuIdentity>>, i: int)
    requires
        0 <= i < s.len(),
        s[i].0.vendor == Vendor::Intel,
        wanted(s[i], cpus),
    ensures
        one_per_target(chosen(s, cpus, true).intel),
        covered(chosen(s, cpus, true).intel, intel_key(s[i].0)),
{
    lemma_chosen(s, cpus);
}

// --- the blobs in the image ---------------------------------------------------------

proof fn lemma_parents_end_at_slashes(name: Seq<char>, n: nat, k: int) -> (j: int)
    requires
        n <= name.len(),
        0 <= k < parents(name, n).len(),
    ensures
        0 <= j < name.len(),
        name[j] == '/',
        parents(name, n)[k] == name.take(j),
    decreases n,
{
    let front = parents(name, (n - 1) as nat);
    if k < front.len() {
        lemma_parents_end_at_slashes(name, (n - 1) as nat, k)
    } else {
        n - 1
    }
}

/// A directory of the early image can be written, and holds no microcode.
pub open spec fn plain_dir(d: Seq<char>) -> bool {
    &&& encode_utf8(d).len() <= 4096
    &&& d.len() > 0 ==> d[0] == 'k'
    &&& !microcode_path(d)
}

/// What is too short for a loader's file name, or ends in another letter, is
/// no microcode path.
proof fn lemma_no_microcode_path(d: Seq<char>)
    requires
        d.len() < 17 || d.last() != 'n',
    ensures
        !microcode_path(d),
{
    reveal_strlit("kernel/x86/microcode/GenuineIntel.bin");
    reveal_strlit("kernel/x86/microcode/AuthenticAMD.bin");
    reveal_strlit("/GenuineIntel.bin");
    reveal_strlit("/AuthenticAMD.bin");
    let a = "/GenuineIntel.bin"@;
    let b = "/AuthenticAMD.bin"@;
    if ends_with(d, a) {
        assert(d.subrange(d.len() - 17, d.len() as int)[16] == a[16]);
    }
    if ends_with(d, b) {
        assert(d.subrange(d.len() - 17, d.len() as int)[16] == b[16]);
    }
}

/// The slashes of a loader's path.
proof fn lemma_slashes(vendor: Vendor, j: int)
    requires
        0 <= j < vendor.path_text().len(),
        vendor.path_text()[j] == '/',
    ensures
        j == 6 || j == 10 || j == 20,
        vendor.path_text()[19] == 'e',
{
    reveal_strlit("kernel/x86/microcode/GenuineIntel.bin");
    reveal_strlit("kernel/x86/microcode/AuthenticAMD.bin");
    let s = vendor.path_text();
    assert(s.len() == 37);
    assert(j == 0 || j == 1 || j == 2 || j == 3 || j == 4 || j == 5 || j == 6 || j == 7 || j == 8
        || j == 9 || j == 10 || j == 11 || j == 12 || j == 13 || j == 14 || j == 15 || j == 16 || j
        == 17 || j == 18 || j == 19 || j == 20 || j == 21 || j == 22 || j == 23 || j == 24 || j
        == 25 || j == 26 || j == 27 || j == 28 || j == 29 || j == 30 || j == 31 || j == 32 || j
        == 33 || j == 34 || j == 35 || j == 36);
}

proof fn lemma_with_dirs_plain(dirs: Seq<Seq<char>>, more: Seq<Seq<char>>)
    requires
        forall|i: int| 0 <= i < dirs.len() ==> plain_dir(#[trigger] dirs[i]),
        forall|i: int| 0 <= i < more.len() ==> plain_dir(#[trigger] more[i]),
    ensures
        forall|i: int| 0 <= i < with_dirs(dirs, more).len() ==> plain_dir(#[trigger] with_dirs(dirs, more)[i]),
        with_dirs(dirs, more).len() <= dirs.len() + more.len(),
    decreases more.len(),
{
    if more.len() > 0 {
        let rest = more.drop_last();
        assert forall|i: int| 0 <= i < rest.len() implies plain_dir(#[trigger] rest[i]) by {
            assert(plain_dir(more[i]));
        }
        lemma_with_dirs_plain(dirs, rest);
        assert(plain_dir(more[more.len() - 1]));
        let front = with_dirs(dirs, rest);
        let all = with_dirs(dirs, more);
        assert forall|i: int| 0 <= i < all.len() implies plain_dir(#[trigger] all[i]) by {
            if i < front.len() {
                assert(all[i] == front[i]);
            }
        }
    }
}

proof fn lemma_path_parents(vendor: Vendor)
    ensures
        encode_utf8(vendor.path_text()).len() <= 4096,
        vendor.path_text() != TRAILER_NAME@,
        forall|i: int|
            0 <= i < parents(vendor.path_text(), vendor.path_text().len()).len() ==> plain_dir(
                #[trigger] parents(vendor.path_text(), vendor.path_text().len())[i],
            ),
{
    let s = vendor.path_text();
    lemma_early_paths_are_safe(vendor);
    reveal_strlit("kernel/x86/microcode/GenuineIntel.bin");
    reveal_strlit("kernel/x86/microcode/AuthenticAMD.bin");
    reveal_strlit("TRAILER!!!");
    assert(s[0] == 'k');
    assert(TRAILER_NAME@[0] == 'T');
    lemma_parents_short(s, s.len());
    assert forall|i: int| 0 <= i < parents(s, s.len()).len() implies plain_dir(
        #[trigger] parents(s, s.len())[i],
    ) by {
        let j = lemma_parents_end_at_slashes(s, s.len(), i);
        lemma_slashes(vendor, j);
        lemma_no_microcode_path(s.take(j));
    }
}

/// The archive holds only what the reader takes.
pub open spec fn readable(m: ArchiveModel, limits: Limits) -> bool {
    &&& forall|i: int| 0 <= i < m.dirs.len() ==> plain_dir(#[trigger] m.dirs[i])
    &&& forall|i: int| 0 <= i < m.files.len() ==> writable(file_member(#[trigger] m.files[i]), limits)
}

proof fn lemma_with_blob(m: ArchiveModel, vendor: Vendor, blob: Seq<u8>, limits: Limits)
    requires
        readable(m, limits),
        blob.len() <= member_limit(limits),
    ensures
        readable(with_blob(m, vendor, blob), limits),
        forall|f: FileModel| m.files.contains(f) ==> #[trigger] with_blob(m, vendor, blob).files.contains(f),
        blob.len() > 0 ==> exists|f: FileModel| #[trigger]
            with_blob(m, vendor, blob).files.contains(f) && f.name == vendor.path_text() && f.data == blob,
{
    lemma_path_parents(vendor);
    let new = with_blob(m, vendor, blob);
    if blob.len() > 0 {
        lemma_with_dirs_plain(m.dirs, parents(vendor.path_text(), vendor.path_text().len()));
        let f = new.files[m.files.len() as int];
        assert(new.files.contains(f));
        assert forall|f: FileModel| m.files.contains(f) implies #[trigger] new.files.contains(f) by {
            let i = choose|i: int| 0 <= i < m.files.len() && m.files[i] == f;
            assert(new.files[i] == f);
        }
        assert forall|i: int| 0 <= i < new.files.len() implies writable(
            file_member(#[trigger] new.files[i]),
            limits,
        ) by {
            if i < m.files.len() {
                assert(new.files[i] == m.files[i]);
            }
        }
    }
}

proof fn lemma_members_writable(m: ArchiveModel, limits: Limits)
    requires
        readable(m, limits),
    ensures
        forall|k: int| 0 <= k < members_of(m).len() ==> writable(#[trigger] members_of(m)[k], limits),
        forall|f: FileModel|
            m.files.contains(f) ==> #[trigger] members_of(m).contains(file_member(f)),
{
    let dirs = sorted_dirs(m.dirs);
    let files = sort_by(m.files, file_order());
    law_directories_are_sorted(m.dirs);
    lemma_sort_members(m.files, file_order());
    let all = members_of(m);
    reveal_strlit("TRAILER!!!");
    assert forall|k: int| 0 <= k < all.len() implies writable(#[trigger] all[k], limits) by {
        if k < dirs.len() {
            assert(dirs.contains(dirs[k]));
            let i = choose|i: int| 0 <= i < m.dirs.len() && m.dirs[i] == dirs[k];
            assert(plain_dir(m.dirs[i]));
            assert(all[k] == dir_member(dirs[k]));
            assert(TRAILER_NAME@[0] == 'T');
        } else {
            let f = files[k - dirs.len()];
            assert(files.contains(f));
            let i = choose|i: int| 0 <= i < m.files.len() && m.files[i] == f;
            assert(writable(file_member(m.files[i]), limits));
            assert(all[k] == file_member(f));
        }
    }
    assert forall|f: FileModel| m.files.contains(f) implies #[trigger] all.contains(file_member(f)) by {
        assert(files.contains(f));
        let i = choose|i: int| 0 <= i < files.len() && files[i] == f;
        assert(all[dirs.len() + i] == file_member(f));
    }
}

/// The image is one archive to its end, and a member of it has the path of
/// the vendor and the blob as its contents.
pub open spec fn holds_blob(image: Seq<u8>, limits: Limits, vendor: Vendor, blob: Seq<u8>) -> bool {
    match scan_of(image, limits) {
        Ok(Some(scan)) => {
            &&& scan.archive_count == 1
            &&& scan.end_offset == image.len()
            &&& exists|k: int| 0 <= k < scan.entries.len() && is_blob(#[trigger] scan.entries[k], image, vendor, blob)
        },
        _ => false,
    }
}

pub open spec fn is_blob(e: CpioModel, image: Seq<u8>, vendor: Vendor, blob: Seq<u8>) -> bool {
    e.name == vendor.path_text() && e.content(image) == Some(blob)
}

/// What an archive holds reads back where nothing stands around it.
proof fn lemma_contents_alone(m: ArchiveModel, limits: Limits, k: int)
    requires
        archive_bytes(m).len() <= usize::MAX,
        forall|k: int| 0 <= k < members_of(m).len() ==> writable(#[trigger] members_of(m)[k], limits),
        0 <= k < members_of(m).len(),
    ensures
        entries_of(members_of(m), 0).len() == members_of(m).len(),
        entries_of(members_of(m), 0)[k].name == members_of(m)[k].name,
        entries_of(members_of(m), 0)[k].mode == members_of(m)[k].mode,
        entries_of(members_of(m), 0)[k].content(archive_bytes(m)) == Some(members_of(m)[k].data),
{
    let none: Seq<u8> = Seq::empty();
    assert(none + archive_bytes(m) + none =~= archive_bytes(m));
    law_members_keep_their_contents(none, m, none, limits, k);
}

/// The blob of a vendor is found in the early image: the image is one archive,
/// aligned to four bytes, and a member of it has the path that the loader
/// looks for and the blob as its contents.
pub proof fn law_early_image_holds_the_blobs(
    intel: Seq<u8>,
    amd: Seq<u8>,
    emit_parent_dirs: bool,
    limits: Limits,
    vendor: Vendor,
)
    requires
        intel.len() <= member_limit(limits),
        amd.len() <= member_limit(limits),
        members_of(early_archive(intel, amd, emit_parent_dirs)).len() <= limits.max_archive_entries,
        archive_bytes(early_archive(intel, amd, emit_parent_dirs)).len() <= usize::MAX,
        (match vendor {
            Vendor::Intel => intel,
            Vendor::Amd => amd,
        }).len() > 0,
    ensures
        ({
            let image = archive_bytes(early_archive(intel, amd, emit_parent_dirs));
            let blob = match vendor {
                Vendor::Intel => intel,
                Vendor::Amd => amd,
            };
            image.len() % 4 == 0 && holds_blob(image, limits, vendor, blob)
        }),
{
    let none = ArchiveModel { dirs: Seq::empty(), files: Seq::empty(), emit_parent_dirs };
    let one = with_blob(none, Vendor::Intel, intel);
    let m = early_archive(intel, amd, emit_parent_dirs);
    lemma_with_blob(none, Vendor::Intel, intel, limits);
    lemma_with_blob(one, Vendor::Amd, amd, limits);
    lemma_members_writable(m, limits);
    law_archive_is_aligned(m);
    law_archive_reads_back(m, limits);
    let image = archive_bytes(m);
    let blob = match vendor {
        Vendor::Intel => intel,
        Vendor::Amd => amd,
    };
    let f = match vendor {
        Vendor::Intel => choose|f: FileModel| #[trigger]
            one.files.contains(f) && f.name == vendor.path_text() && f.data == blob,
        Vendor::Amd => choose|f: FileModel| #[trigger]
            m.files.contains(f) && f.name == vendor.path_text() && f.data == blob,
    };
    assert(m.files.contains(f));
    let all = members_of(m);
    assert(all.contains(file_member(f)));
    let k = choose|k: int| 0 <= k < all.len() && all[k] == file_member(f);
    lemma_contents_alone(m, limits, k);
    let entries = entries_of(all, 0);
    assert(entries[k].name == vendor.path_text());
    assert(entries[k].content(image) == Some(blob));
    let scan = ScanModel { entries, end_offset: image.len() as u64, archive_count: 1 };
    assert(scan_of(image, limits) == Ok::<_, ArchiveFault>(Some(scan)));
    let found = scan_of(image, limits)->Ok_0->Some_0;
    assert(found == scan);
    assert(is_blob(found.entries[k], image, vendor, blob));
}

/// The files of an archive in the order in which they are written.
pub open spec fn file_pairs(m: ArchiveModel) -> Seq<(Seq<char>, Seq<u8>)> {
    sort_by(m.files, file_order()).map_values(|f: FileModel| (f.name, f.data))
}

proof fn lemma_extracted(m: ArchiveModel, limits: Limits, n: nat)
    requires
        readable(m, limits),
        forall|i: int| 0 <= i < m.files.len() ==> microcode_path((#[trigger] m.files[i]).name),
        archive_bytes(m).len() <= usize::MAX,
        n <= members_of(m).len(),
    ensures
        ({
            let dirs = sorted_dirs(m.dirs).len() as int;
            extracted(entries_of(members_of(m), 0).take(n as int), archive_bytes(m)) == if n <= dirs {
                Seq::empty()
            } else {
                file_pairs(m).take(n - dirs)
            }
        }),
    decreases n,
{
    let all = members_of(m);
    let dirs = sorted_dirs(m.dirs);
    let files = sort_by(m.files, file_order());
    let entries = entries_of(all, 0);
    let image = archive_bytes(m);
    lemma_members_writable(m, limits);
    if n > 0 {
        let k = n - 1;
        lemma_extracted(m, limits, k as nat);
        lemma_contents_alone(m, limits, k);
        assert(entries.take(n as int).drop_last() =~= entries.take(k));
        assert(entries.take(n as int).last() == entries[k]);
        if k < dirs.len() {
            law_directories_are_sorted(m.dirs);
            assert(dirs.contains(dirs[k]));
            let i = choose|i: int| 0 <= i < m.dirs.len() && m.dirs[i] == dirs[k];
            assert(plain_dir(m.dirs[i]));
            assert(all[k] == dir_member(dirs[k]));
        } else {
            lemma_sort_members(m.files, file_order());
            let f = files[k - dirs.len()];
            assert(files.contains(f));
            let i = choose|i: int| 0 <= i < m.files.len() && m.files[i] == f;
            assert(microcode_path(m.files[i].name));
            assert(all[k] == file_member(f));
            let pairs = file_pairs(m);
            assert(pairs.take(n - dirs.len()) =~= pairs.take(k - dirs.len()).push((f.name, f.data)));
            assert(pairs.take(0) =~= Seq::empty());
        }
    } else {
        assert(entries.take(0) =~= Seq::empty());
    }
}

/// Extracting microcode from a built early image gives back what went in:
/// the blobs of the vendors that have one, each under its path, and nothing
/// else.
pub proof fn law_extraction_returns_the_blobs(
    intel: Seq<u8>,
    amd: Seq<u8>,
    emit_parent_dirs: bool,
    limits: Limits,
)
    requires
        intel.len() <= member_limit(limits),
        amd.len() <= member_limit(limits),
        members_of(early_archive(intel, amd, emit_parent_dirs)).len() <= limits.max_archive_entries,
        archive_bytes(early_archive(intel, amd, emit_parent_dirs)).len() <= usize::MAX,
    ensures
        ({
            let image = archive_bytes(early_archive(intel, amd, emit_parent_dirs));
            &&& scan_of(image, limits) matches Ok(Some(scan))
            &&& {
                let found = extracted(scan.entries, image);
                &&& found.len() == blob_path(Vendor::Intel, intel).len() + blob_path(
                    Vendor::Amd,
                    amd,
                ).len()
                &&& intel.len() > 0 ==> found.contains((Vendor::Intel.path_text(), intel))
                &&& amd.len() > 0 ==> found.contains((Vendor::Amd.path_text(), amd))
            }
        }),
{
    let none = ArchiveModel { dirs: Seq::empty(), files: Seq::empty(), emit_parent_dirs };
    let one = with_blob(none, Vendor::Intel, intel);
    let m = early_archive(intel, amd, emit_parent_dirs);
    lemma_with_blob(none, Vendor::Intel, intel, limits);
    lemma_with_blob(one, Vendor::Amd, amd, limits);
    lemma_members_writable(m, limits);
    law_archive_reads_back(m, limits);
    let image = archive_bytes(m);
    let all = members_of(m);
    let entries = entries_of(all, 0);
    let files = sort_by(m.files, file_order());
    lemma_sort_len(m.files, file_order());
    lemma_sort_members(m.files, file_order());
    lemma_extracted(m, limits, all.len());
    if all.len() > 0 {
        lemma_contents_alone(m, limits, 0);
    }
    assert(entries.take(all.len() as int) =~= entries);
    let pairs = file_pairs(m);
    assert(pairs.take(pairs.len() as int) =~= pairs);
    let found = extracted(entries, image);
    assert(found =~= pairs);
    if intel.len() > 0 {
        let f = choose|f: FileModel| #[trigger]
            one.files.contains(f) && f.name == Vendor::Intel.path_text() && f.data == intel;
        assert(m.files.contains(f));
        assert(files.contains(f));
        let i = choose|i: int| 0 <= i < files.len() && files[i] == f;
        assert(pairs[i] == (f.name, f.data));
    }
    if amd.len() > 0 {
        let f = choose|f: FileModel| #[trigger]
            m.files.contains(f) && f.name == Vendor::Amd.path_text() && f.data == amd;
        assert(files.contains(f));
        let i = choose|i: int| 0 <= i < files.len() && files[i] == f;
        assert(pairs[i] == (f.name, f.data));
    }
}

// --- the updates in the blob --------------------------------------------------------

/// The payloads of a list.
pub open spec fn payloads_of(list: Seq<(IntelKey, Held)>) -> Seq<Seq<u8>> {
    list.map_values(|e: (IntelKey, Held)| e.1.1)
}

pub proof fn lemma_blob_is_concatenated(list: Seq<(IntelKey, Held)>)
    ensures
        intel_blob(list) == concatenated(payloads_of(list)),
    decreases list.len(),
{
    if list.len() > 0 {
        lemma_blob_is_concatenated(list.drop_last());
        assert(payloads_of(list).drop_last() =~= payloads_of(list.drop_last()));
        assert(payloads_of(list).last() == list.last().1.1);
    }
}

/// The Intel blob holds the chosen payloads unchanged: strict parsing finds one
/// update for each of them, in order, with the payload's own header and digest.
pub proof fn law_chosen_updates_read_back(list: Seq<(IntelKey, Held)>, limits: Limits)
    requires
        0 < list.len() <= limits.max_patches,
        intel_blob(list).len() <= limits.max_blob_bytes,
        forall|k: int| 0 <= k < list.len() ==> is_update((#[trigger] list[k]).1.1, limits),
    ensures
        bundle_of(intel_blob(list), IntelValidationMode::Strict, limits) matches Ok(bundle)
            && bundle.report.len() == 0 && bundle.entries.len() == list.len() && forall|k: int|
            0 <= k < list.len() ==> stands_for(
                #[trigger] bundle.entries[k],
                list[k].1.1,
                start_of(payloads_of(list), k),
                limits,
            ),
{
    lemma_blob_is_concatenated(list);
    let ps = payloads_of(list);
    assert forall|k: int| 0 <= k < ps.len() implies is_update(#[trigger] ps[k], limits) by {
        assert(ps[k] == list[k].1.1);
    }
    law_concatenated_updates_read_back(ps, limits);
    let bundle = bundle_of(intel_blob(list), IntelValidationMode::Strict, limits)->Ok_0;
    assert forall|k: int| 0 <= k < list.len() implies stands_for(
        #[trigger] bundle.entries[k],
        list[k].1.1,
        start_of(ps, k),
        limits,
    ) by {
        assert(ps[k] == list[k].1.1);
    }
}

/// A build from strictly ingested updates reads back: strict parsing of the
/// Intel blob finds one update for each chosen patch, in order, and every one
/// of them is a payload of the catalog.
pub proof fn law_built_updates_read_back(
    m: CatalogModel,
    cpus: Option<Seq<CpuIdentity>>,
    best_only: bool,
    limits: Limits,
)
    requires
        holds_updates(m, limits),
        0 < chosen(zipped(m.patches, m.payloads), cpus, best_only).intel.len()
            <= limits.max_patches,
        intel_blob(chosen(zipped(m.patches, m.payloads), cpus, best_only).intel).len()
            <= limits.max_blob_bytes,
    ensures
        ({
            let list = chosen(zipped(m.patches, m.payloads), cpus, best_only).intel;
            &&& bundle_of(intel_blob(list), IntelValidationMode::Strict, limits) matches Ok(bundle)
            &&& bundle.report.len() == 0
            &&& bundle.entries.len() == list.len()
            &&& forall|k: int|
                0 <= k < list.len() ==> stands_for(
                    #[trigger] bundle.entries[k],
                    list[k].1.1,
                    start_of(payloads_of(list), k),
                    limits,
                ) && m.payloads.contains(list[k].1.1)
        }),
{
    let all = zipped(m.patches, m.payloads);
    let list = chosen(all, cpus, best_only).intel;
    law_chosen_are_candidates(all, cpus, best_only);
    assert forall|k: int| 0 <= k < list.len() implies is_update((#[trigger] list[k]).1.1, limits)
        && m.payloads.contains(list[k].1.1) by {
        assert(candidate(all, cpus, Vendor::Intel, list[k].1));
        let i = choose|i: int| 0 <= i < all.len() && all[i] == list[k].1;
        assert(m.patches[i].vendor == Vendor::Intel);
        assert(m.payloads[i] == list[k].1.1);
    }
    law_chosen_updates_read_back(list, limits);
}

} // verus!
