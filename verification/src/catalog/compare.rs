//! What the comparison of two catalogs tells of each target.

use vstd::prelude::*;
use crate::catalog::collection::CatalogModel;
use crate::catalog::diff::{
    all_keys, count_kind, diff_entries, diff_entry, diff_of, index_of, key_before, key_of, keys_of,
    lemma_all_keys, lookup, revision_of, with_best, with_pairs, ByTarget, DiffEntryModel, DiffKind, Key,
};
use crate::model::cpu::Vendor;
use crate::model::patch::PatchModel;
use crate::number::hex;
use crate::order::order_of;

verus! {

/// The patch names the target among its pairs.
pub open spec fn has_target(p: PatchModel, key: Key) -> bool {
    p.vendor == key.0 && exists|i: int|
        0 <= i < p.matches.len() && (#[trigger] p.matches[i]).signature == key.1
            && p.matches[i].platform_mask == key.2
}

/// The patch at position `j` has the highest revision of those for the target,
/// and is the first of them that has it.
pub open spec fn first_best(patches: Seq<PatchModel>, key: Key, j: int) -> bool {
    &&& 0 <= j < patches.len()
    &&& has_target(patches[j], key)
    &&& forall|i: int|
        0 <= i < patches.len() && #[trigger] has_target(patches[i], key) ==> patches[i].revision
            <= patches[j].revision && (i < j ==> patches[i].revision < patches[j].revision)
}

/// `best` is the best patch for the target; there is none exactly where no
/// patch names the target.
pub open spec fn is_best(patches: Seq<PatchModel>, key: Key, best: Option<PatchModel>) -> bool {
    match best {
        Some(p) => exists|j: int| #[trigger] first_best(patches, key, j) && patches[j] == p,
        None => forall|i: int| 0 <= i < patches.len() ==> !#[trigger] has_target(patches[i], key),
    }
}

/// A patch of the list names the target.
pub open spec fn is_target(patches: Seq<PatchModel>, key: Key) -> bool {
    exists|i: int| 0 <= i < patches.len() && #[trigger] has_target(patches[i], key)
}

// --- the index ----------------------------------------------------------------------

pub open spec fn ascending(idx: Seq<(Key, PatchModel)>) -> bool {
    forall|i: int, j: int|
        0 <= i < j < idx.len() ==> key_before((#[trigger] idx[i]).0, (#[trigger] idx[j]).0)
}

/// What an index holds for a target after a patch was put in for it.
spec fn merged(o: Option<PatchModel>, p: PatchModel) -> Option<PatchModel> {
    match o {
        None => Some(p),
        Some(q) => if p.revision > q.revision {
            Some(p)
        } else {
            Some(q)
        },
    }
}

proof fn lemma_lookup_at(idx: Seq<(Key, PatchModel)>, i: int)
    requires
        ascending(idx),
        0 <= i < idx.len(),
    ensures
        lookup(idx, idx[i].0) == Some(idx[i].1),
    decreases idx.len(),
{
    if i > 0 {
        let rest = idx.drop_first();
        assert(key_before(idx[0].0, idx[i].0));
        assert forall|a: int, b: int| 0 <= a < b < rest.len() implies key_before(
            (#[trigger] rest[a]).0,
            (#[trigger] rest[b]).0,
        ) by {
            assert(key_before(idx[a + 1].0, idx[b + 1].0));
        }
        lemma_lookup_at(rest, i - 1);
    }
}

proof fn lemma_lookup_found(idx: Seq<(Key, PatchModel)>, k: Key)
    ensures
        lookup(idx, k) matches Some(p) ==> exists|i: int|
            0 <= i < idx.len() && #[trigger] idx[i] == (k, p),
        lookup(idx, k) is None ==> forall|i: int| 0 <= i < idx.len() ==> (#[trigger] idx[i]).0 != k,
    decreases idx.len(),
{
    if idx.len() > 0 {
        let rest = idx.drop_first();
        lemma_lookup_found(rest, k);
        if idx[0].0 == k {
            assert(idx[0] == (k, idx[0].1));
        } else {
            if let Some(p) = lookup(idx, k) {
                let i = choose|i: int| 0 <= i < rest.len() && #[trigger] rest[i] == (k, p);
                assert(idx[i + 1] == (k, p));
            } else {
                assert forall|i: int| 0 <= i < idx.len() implies (#[trigger] idx[i]).0 != k by {
                    if i > 0 {
                        assert(idx[i] == rest[i - 1]);
                    }
                }
            }
        }
    }
}

proof fn lemma_ascending_front(idx: Seq<(Key, PatchModel)>)
    requires
        ascending(idx),
        idx.len() > 0,
    ensures
        ascending(idx.drop_last()),
        forall|i: int|
            0 <= i < idx.len() - 1 ==> key_before((#[trigger] idx.drop_last()[i]).0, idx.last().0),
{
    let front = idx.drop_last();
    assert forall|a: int, b: int| 0 <= a < b < front.len() implies key_before(
        (#[trigger] front[a]).0,
        (#[trigger] front[b]).0,
    ) by {
        assert(key_before(idx[a].0, idx[b].0));
    }
    assert forall|i: int| 0 <= i < front.len() implies key_before((#[trigger] front[i]).0, idx.last().0) by {
        assert(key_before(idx[i].0, idx[idx.len() - 1].0));
    }
}

/// Looking a key up in an index with one more pair behind it.
proof fn lemma_lookup_push(idx: Seq<(Key, PatchModel)>, e: (Key, PatchModel), k: Key)
    requires
        forall|i: int| 0 <= i < idx.len() ==> (#[trigger] idx[i]).0 != e.0,
    ensures
        lookup(idx.push(e), k) == if k == e.0 {
            Some(e.1)
        } else {
            lookup(idx, k)
        },
    decreases idx.len(),
{
    let all = idx.push(e);
    if idx.len() == 0 {
        assert(all.drop_first() =~= idx);
    } else {
        let rest = idx.drop_first();
        assert(all.drop_first() =~= rest.push(e));
        assert forall|i: int| 0 <= i < rest.len() implies (#[trigger] rest[i]).0 != e.0 by {
            assert(rest[i] == idx[i + 1]);
        }
        lemma_lookup_push(rest, e, k);
        assert(idx[0].0 != e.0);
        assert(all[0] == idx[0]);
    }
}

proof fn lemma_with_best(idx: Seq<(Key, PatchModel)>, key: Key, p: PatchModel)
    requires
        ascending(idx),
    ensures
        ascending(with_best(idx, key, p)),
        forall|i: int|
            0 <= i < with_best(idx, key, p).len() ==> (#[trigger] with_best(idx, key, p)[i]).0 == key || exists|
                j: int,
            |
                0 <= j < idx.len() && (#[trigger] idx[j]).0 == with_best(idx, key, p)[i].0,
        forall|k: Key| #[trigger]
            lookup(with_best(idx, key, p), k) == if k == key {
                merged(lookup(idx, key), p)
            } else {
                lookup(idx, k)
            },
    decreases idx.len(),
{
    let new = with_best(idx, key, p);
    if idx.len() == 0 || key_before(idx.last().0, key) {
        assert forall|i: int| 0 <= i < idx.len() implies key_before((#[trigger] idx[i]).0, key) by {
            if i < idx.len() - 1 {
                assert(key_before(idx[i].0, idx[idx.len() - 1].0));
            }
        }
        assert forall|i: int| 0 <= i < idx.len() implies (#[trigger] idx[i]).0 != key by {
            assert(key_before(idx[i].0, key));
        }
        assert forall|k: Key| #[trigger] lookup(new, k) == (if k == key {
            merged(lookup(idx, key), p)
        } else {
            lookup(idx, k)
        }) by {
            lemma_lookup_push(idx, (key, p), k);
            lemma_lookup_found(idx, key);
        }
        assert forall|i: int| 0 <= i < new.len() implies (#[trigger] new[i]).0 == key || exists|j: int|
            0 <= j < idx.len() && (#[trigger] idx[j]).0 == new[i].0 by {
            if i < idx.len() {
                assert(idx[i].0 == new[i].0);
            }
        }
    } else {
        let front = idx.drop_last();
        let last = idx.last();
        lemma_ascending_front(idx);
        assert(front.push(last) =~= idx);
        assert forall|i: int| 0 <= i < front.len() implies (#[trigger] front[i]).0 != last.0 by {
            assert(key_before(front[i].0, last.0));
        }
        if last.0 == key {
            assert forall|k: Key| #[trigger] lookup(new, k) == (if k == key {
                merged(lookup(idx, key), p)
            } else {
                lookup(idx, k)
            }) by {
                lemma_lookup_push(front, (key, p), k);
                lemma_lookup_push(front, last, k);
                lemma_lookup_push(front, last, key);
            }
            assert forall|i: int| 0 <= i < new.len() implies (#[trigger] new[i]).0 == key || exists|j: int|
                0 <= j < idx.len() && (#[trigger] idx[j]).0 == new[i].0 by {
                if i < front.len() {
                    assert(idx[i].0 == new[i].0);
                }
            }
            assert forall|a: int, b: int| 0 <= a < b < new.len() implies key_before(
                (#[trigger] new[a]).0,
                (#[trigger] new[b]).0,
            ) by {
                assert(key_before(idx[a].0, idx[b].0));
            }
        } else {
            lemma_with_best(front, key, p);
            let rest = with_best(front, key, p);
            assert(new == rest.push(last));
            assert forall|i: int| 0 <= i < rest.len() implies key_before((#[trigger] rest[i]).0, last.0) by {
                if rest[i].0 != key {
                    let j = choose|j: int| 0 <= j < front.len() && (#[trigger] front[j]).0 == rest[i].0;
                    assert(key_before(front[j].0, last.0));
                }
            }
            assert forall|i: int| 0 <= i < rest.len() implies (#[trigger] rest[i]).0 != last.0 by {
                assert(key_before(rest[i].0, last.0));
            }
            assert forall|k: Key| #[trigger] lookup(new, k) == (if k == key {
                merged(lookup(idx, key), p)
            } else {
                lookup(idx, k)
            }) by {
                lemma_lookup_push(rest, last, k);
                lemma_lookup_push(front, last, k);
                assert(lookup(rest, k) == if k == key {
                    merged(lookup(front, key), p)
                } else {
                    lookup(front, k)
                });
            }
            assert forall|i: int| 0 <= i < new.len() implies (#[trigger] new[i]).0 == key || exists|j: int|
                0 <= j < idx.len() && (#[trigger] idx[j]).0 == new[i].0 by {
                if i < rest.len() {
                    assert(new[i] == rest[i]);
                    if rest[i].0 != key {
                        let j = choose|j: int| 0 <= j < front.len() && (#[trigger] front[j]).0 == rest[i].0;
                        assert(idx[j].0 == new[i].0);
                    }
                } else {
                    assert(idx[idx.len() - 1].0 == new[i].0);
                }
            }
        }
    }
}

/// One of the first `n` pairs of the patch is for the target.
spec fn aims(p: PatchModel, n: nat, key: Key) -> bool {
    exists|i: int| 0 <= i < n && #[trigger] key_of(p, i) == key
}

proof fn lemma_with_pairs(idx: Seq<(Key, PatchModel)>, p: PatchModel, n: nat)
    requires
        ascending(idx),
        n <= p.matches.len(),
    ensures
        ascending(with_pairs(idx, p, n)),
        forall|k: Key| #[trigger]
            lookup(with_pairs(idx, p, n), k) == if aims(p, n, k) {
                merged(lookup(idx, k), p)
            } else {
                lookup(idx, k)
            },
    decreases n,
{
    if n > 0 {
        let m = (n - 1) as nat;
        lemma_with_pairs(idx, p, m);
        let before = with_pairs(idx, p, m);
        let key = key_of(p, m as int);
        lemma_with_best(before, key, p);
        assert forall|k: Key| #[trigger] lookup(with_pairs(idx, p, n), k) == (if aims(p, n, k) {
            merged(lookup(idx, k), p)
        } else {
            lookup(idx, k)
        }) by {
            assert(lookup(before, k) == if aims(p, m, k) {
                merged(lookup(idx, k), p)
            } else {
                lookup(idx, k)
            });
            if k == key {
                assert(aims(p, n, k));
            } else if aims(p, n, k) {
                let i = choose|i: int| 0 <= i < n && #[trigger] key_of(p, i) == k;
                assert(i < m);
                assert(aims(p, m, k));
            } else if aims(p, m, k) {
                let i = choose|i: int| 0 <= i < m && #[trigger] key_of(p, i) == k;
                assert(aims(p, n, k));
            }
        }
    }
}

proof fn lemma_aims(p: PatchModel, key: Key)
    ensures
        aims(p, p.matches.len(), key) <==> has_target(p, key),
{
    if aims(p, p.matches.len(), key) {
        let i = choose|i: int| 0 <= i < p.matches.len() && #[trigger] key_of(p, i) == key;
        assert(p.matches[i].signature == key.1);
    }
    if has_target(p, key) {
        let i = choose|i: int|
            0 <= i < p.matches.len() && (#[trigger] p.matches[i]).signature == key.1
                && p.matches[i].platform_mask == key.2;
        assert(key_of(p, i) == key);
    }
}

proof fn lemma_best_step(patches: Seq<PatchModel>, key: Key, o: Option<PatchModel>)
    requires
        patches.len() > 0,
        is_best(patches.drop_last(), key, o),
    ensures
        is_best(
            patches,
            key,
            if has_target(patches.last(), key) {
                merged(o, patches.last())
            } else {
                o
            },
        ),
{
    let front = patches.drop_last();
    let p = patches.last();
    let n = patches.len() - 1;
    assert(patches[n] == p);
    assert(forall|i: int| 0 <= i < n ==> patches[i] == #[trigger] front[i]);
    match o {
        None => {
            if has_target(p, key) {
                assert forall|i: int| 0 <= i < patches.len() && #[trigger] has_target(patches[i], key) implies i
                    == n by {
                    if i < n {
                        assert(has_target(front[i], key));
                    }
                }
                assert(first_best(patches, key, n));
            } else {
                assert forall|i: int| 0 <= i < patches.len() implies !#[trigger] has_target(patches[i], key) by {
                    if i < n {
                        assert(!has_target(front[i], key));
                    }
                }
            }
        },
        Some(q) => {
            let j = choose|j: int| #[trigger] first_best(front, key, j) && front[j] == q;
            let at = if has_target(p, key) && p.revision > q.revision {
                n
            } else {
                j
            };
            assert forall|i: int| 0 <= i < patches.len() && #[trigger] has_target(patches[i], key) implies patches[i].revision
                <= patches[at].revision && (i < at ==> patches[i].revision < patches[at].revision) by {
                if i < n {
                    assert(has_target(front[i], key));
                }
            }
            assert(has_target(front[j], key));
            assert(first_best(patches, key, at));
        },
    }
}

/// The index of a catalog holds for every target the best patch.
proof fn lemma_index(patches: Seq<PatchModel>)
    ensures
        ascending(index_of(patches)),
        forall|k: Key| is_best(patches, k, #[trigger] lookup(index_of(patches), k)),
    decreases patches.len(),
{
    if patches.len() > 0 {
        let front = patches.drop_last();
        let p = patches.last();
        lemma_index(front);
        lemma_with_pairs(index_of(front), p, p.matches.len());
        assert forall|k: Key| is_best(patches, k, #[trigger] lookup(index_of(patches), k)) by {
            assert(is_best(front, k, lookup(index_of(front), k)));
            lemma_best_step(patches, k, lookup(index_of(front), k));
            lemma_aims(p, k);
        }
    }
}

/// For every target the index of a catalog gives a patch that names it and has
/// the highest revision of those that do; it gives none exactly where no patch
/// names the target.
pub proof fn law_index_holds_the_best(patches: Seq<PatchModel>, i: int, pair: int)
    requires
        0 <= i < patches.len(),
        0 <= pair < patches[i].matches.len(),
    ensures
        ({
            let m = patches[i].matches[pair];
            lookup(
                index_of(patches),
                (patches[i].vendor, m.signature, m.platform_mask),
            ) matches Some(best) && {
                &&& patches.contains(best)
                &&& has_target(best, (patches[i].vendor, m.signature, m.platform_mask))
                &&& best.revision >= patches[i].revision
            }
        }),
{
    let m = patches[i].matches[pair];
    let key: Key = (patches[i].vendor, m.signature, m.platform_mask);
    lemma_index(patches);
    assert(patches[i].matches[pair].signature == key.1);
    assert(has_target(patches[i], key));
    let found = lookup(index_of(patches), key);
    assert(is_best(patches, key, found));
    let j = choose|j: int| #[trigger] first_best(patches, key, j) && patches[j] == found->0;
    assert(patches[j] == found->0);
}

// --- the report ---------------------------------------------------------------------

/// The revision of a patch as the comparison writes it.
pub open spec fn shown_revision(p: Option<PatchModel>) -> Option<Seq<char>> {
    match p {
        Some(x) => Some("0x"@ + hex(x.revision as nat, 8)),
        None => None,
    }
}

proof fn lemma_shown_revision(p: Option<PatchModel>)
    ensures
        revision_of(p) == shown_revision(p),
{
    reveal_strlit("");
    if let Some(x) = p {
        assert("0x"@ + hex(x.revision as nat, 8) + ""@ =~= "0x"@ + hex(x.revision as nat, 8));
    }
}

/// The date of a patch as the comparison writes it.
pub open spec fn shown_date(p: Option<PatchModel>) -> Option<Seq<char>> {
    match p {
        Some(x) => match x.date {
            Some(d) => Some(d.date_text()),
            None => None,
        },
        None => None,
    }
}

/// What the kind of an entry says of the two patches for a target.
pub open spec fn tells(kind: DiffKind, o: Option<PatchModel>, n: Option<PatchModel>) -> bool {
    match (o, n) {
        (None, None) => false,
        (None, Some(_)) => kind == DiffKind::Added,
        (Some(_), None) => kind == DiffKind::Removed,
        (Some(a), Some(b)) => {
            &&& kind == DiffKind::Upgraded <==> b.revision > a.revision
            &&& kind == DiffKind::Downgraded <==> b.revision < a.revision
            &&& kind == DiffKind::Changed <==> b.revision == a.revision && b.sha256 != a.sha256
            &&& kind == DiffKind::Unchanged <==> b.revision == a.revision && b.sha256 == a.sha256
        },
    }
}

/// The entry is on the target, and sets the best old patch for it against the
/// best new one.
pub open spec fn reports(
    e: DiffEntryModel,
    old: Seq<PatchModel>,
    new: Seq<PatchModel>,
    key: Key,
) -> bool {
    &&& e.vendor == key.0
    &&& e.signature == key.1.signature_text()
    &&& e.platform_mask == key.2.mask_text()
    &&& exists|o: Option<PatchModel>, n: Option<PatchModel>|
        #[trigger] is_best(old, key, o) && #[trigger] is_best(new, key, n) && {
            &&& tells(e.kind, o, n)
            &&& e.old_revision == shown_revision(o)
            &&& e.new_revision == shown_revision(n)
            &&& e.old_date == shown_date(o)
            &&& e.new_date == shown_date(n)
        }
}

/// How many entries are of a kind.
pub open spec fn entries_of_kind(entries: Seq<DiffEntryModel>, kind: DiffKind) -> nat
    decreases entries.len(),
{
    if entries.len() == 0 {
        0
    } else {
        entries_of_kind(entries.drop_last(), kind) + if entries.last().kind == kind {
            1nat
        } else {
            0nat
        }
    }
}

/// The entries that are not unchanged.
pub open spec fn differing(entries: Seq<DiffEntryModel>) -> Seq<DiffEntryModel>
    decreases entries.len(),
{
    if entries.len() == 0 {
        Seq::empty()
    } else if entries.last().kind != DiffKind::Unchanged {
        differing(entries.drop_last()).push(entries.last())
    } else {
        differing(entries.drop_last())
    }
}

proof fn lemma_entries(
    keys: Seq<Key>,
    a: Seq<(Key, PatchModel)>,
    b: Seq<(Key, PatchModel)>,
    kind: DiffKind,
)
    ensures
        diff_entries(keys, a, b, true).len() == keys.len(),
        forall|i: int|
            0 <= i < keys.len() ==> #[trigger] diff_entries(keys, a, b, true)[i] == diff_entry(
                keys[i],
                lookup(a, keys[i]),
                lookup(b, keys[i]),
            ),
        count_kind(keys, a, b, kind) == entries_of_kind(diff_entries(keys, a, b, true), kind),
        diff_entries(keys, a, b, false) == differing(diff_entries(keys, a, b, true)),
    decreases keys.len(),
{
    if keys.len() > 0 {
        let front = keys.drop_last();
        lemma_entries(front, a, b, kind);
        let all = diff_entries(keys, a, b, true);
        let most = diff_entries(front, a, b, true);
        assert(all.drop_last() =~= most);
        assert forall|i: int| 0 <= i < keys.len() implies #[trigger] all[i] == diff_entry(
            keys[i],
            lookup(a, keys[i]),
            lookup(b, keys[i]),
        ) by {
            if i < front.len() {
                assert(all[i] == most[i]);
                assert(front[i] == keys[i]);
            }
        }
    }
}

/// The targets of two catalogs are those that an index has a patch for.
proof fn lemma_targets(old: Seq<PatchModel>, new: Seq<PatchModel>, k: Key)
    ensures
        all_keys(index_of(old), index_of(new)).contains(k) <==> is_target(old, k) || is_target(new, k),
{
    let a = index_of(old);
    let b = index_of(new);
    lemma_all_keys(a, b);
    lemma_index(old);
    lemma_index(new);
    lemma_lookup_found(a, k);
    lemma_lookup_found(b, k);
    let both = keys_of(a) + keys_of(b);
    assert(all_keys(a, b).contains(k) <==> both.contains(k));
    assert(is_best(old, k, lookup(a, k)));
    assert(is_best(new, k, lookup(b, k)));
    if both.contains(k) {
        let i = choose|i: int| 0 <= i < both.len() && both[i] == k;
        if i < a.len() {
            assert(a[i].0 == k);
            let j = choose|j: int| #[trigger] first_best(old, k, j) && old[j] == lookup(a, k)->0;
            assert(has_target(old[j], k));
        } else {
            assert(b[i - a.len()].0 == k);
            let j = choose|j: int| #[trigger] first_best(new, k, j) && new[j] == lookup(b, k)->0;
            assert(has_target(new[j], k));
        }
    }
    if is_target(old, k) {
        let p = lookup(a, k)->0;
        let i = choose|i: int| 0 <= i < a.len() && #[trigger] a[i] == (k, p);
        assert(both[i] == k);
    }
    if is_target(new, k) {
        let p = lookup(b, k)->0;
        let i = choose|i: int| 0 <= i < b.len() && #[trigger] b[i] == (k, p);
        assert(both[a.len() + i] == k);
    }
}

/// One target stands before another: by vendor, Intel first, then by signature,
/// then by platform mask.
pub open spec fn stands_before(a: Key, b: Key) -> bool {
    ||| a.0 == Vendor::Intel && b.0 == Vendor::Amd
    ||| a.0 == b.0 && a.1.0 < b.1.0
    ||| a.0 == b.0 && a.1.0 == b.1.0 && a.2.0 < b.2.0
}

/// The comparison has one entry for each target that a patch of either catalog
/// names, in the order of the targets and no others. Each sets the best old
/// patch for the target against the best new one, the best being the first
/// with the highest revision.
pub proof fn law_diff_reports_every_target(old: CatalogModel, new: CatalogModel)
    ensures
        exists|keys: Seq<Key>| #[trigger]
            covers_targets(keys, old.patches, new.patches) && {
                let d = diff_of(old, new, true);
                &&& d.entries.len() == keys.len()
                &&& forall|i: int|
                    0 <= i < keys.len() ==> reports(
                        #[trigger] d.entries[i],
                        old.patches,
                        new.patches,
                        keys[i],
                    )
            },
{
    let a = index_of(old.patches);
    let b = index_of(new.patches);
    let keys = all_keys(a, b);
    let d = diff_of(old, new, true);
    lemma_all_keys(a, b);
    lemma_entries(keys, a, b, DiffKind::Unchanged);
    lemma_index(old.patches);
    lemma_index(new.patches);
    assert forall|i: int, j: int| 0 <= i < j < keys.len() implies stands_before(
        #[trigger] keys[i],
        #[trigger] keys[j],
    ) by {
        assert((order_of::<Key, ByTarget>())(keys[i], keys[j]));
        assert(key_before(keys[i], keys[j]));
    }
    assert forall|k: Key| #[trigger] keys.contains(k) <==> is_target(old.patches, k) || is_target(
        new.patches,
        k,
    ) by {
        lemma_targets(old.patches, new.patches, k);
    }
    assert(covers_targets(keys, old.patches, new.patches));
    assert forall|i: int| 0 <= i < keys.len() implies reports(
        #[trigger] d.entries[i],
        old.patches,
        new.patches,
        keys[i],
    ) by {
        let k = keys[i];
        let (o, n) = (lookup(a, k), lookup(b, k));
        assert(is_best(old.patches, k, o) && is_best(new.patches, k, n));
        assert(keys.contains(k));
        assert(is_target(old.patches, k) || is_target(new.patches, k));
        assert(d.entries[i] == diff_entry(k, o, n));
        let e = d.entries[i];
        assert(o is Some || n is Some);
        assert(tells(e.kind, o, n));
        lemma_shown_revision(o);
        lemma_shown_revision(n);
        assert(e.old_date == shown_date(o));
        assert(e.new_date == shown_date(n));
    }
}

/// The list holds the targets that a patch of either catalog names, each once
/// and in order.
pub open spec fn covers_targets(keys: Seq<Key>, old: Seq<PatchModel>, new: Seq<PatchModel>) -> bool {
    &&& forall|i: int, j: int|
        0 <= i < j < keys.len() ==> stands_before(#[trigger] keys[i], #[trigger] keys[j])
    &&& forall|k: Key| #[trigger] keys.contains(k) <==> is_target(old, k) || is_target(new, k)
}

/// The counters of a comparison count the entries of the full list by their
/// kind, and leaving out what is unchanged leaves out those entries alone.
pub proof fn law_diff_counts_its_entries(old: CatalogModel, new: CatalogModel, include_unchanged: bool)
    ensures
        ({
            let d = diff_of(old, new, include_unchanged);
            let all = diff_of(old, new, true).entries;
            &&& d.added == entries_of_kind(all, DiffKind::Added)
            &&& d.removed == entries_of_kind(all, DiffKind::Removed)
            &&& d.upgraded == entries_of_kind(all, DiffKind::Upgraded)
            &&& d.downgraded == entries_of_kind(all, DiffKind::Downgraded)
            &&& d.changed == entries_of_kind(all, DiffKind::Changed)
            &&& d.unchanged == entries_of_kind(all, DiffKind::Unchanged)
            &&& !include_unchanged ==> d.entries == differing(all)
        }),
{
    let a = index_of(old.patches);
    let b = index_of(new.patches);
    let keys = all_keys(a, b);
    lemma_entries(keys, a, b, DiffKind::Added);
    lemma_entries(keys, a, b, DiffKind::Removed);
    lemma_entries(keys, a, b, DiffKind::Upgraded);
    lemma_entries(keys, a, b, DiffKind::Downgraded);
    lemma_entries(keys, a, b, DiffKind::Changed);
    lemma_entries(keys, a, b, DiffKind::Unchanged);
}

} // verus!
