//! Comparing catalogs on their best patch per target.

use vstd::prelude::*;
use crate::catalog::collection::{Catalog, CatalogModel};
use crate::catalog::manifest::{opt_text, revision_string, revision_text};
use crate::model::cpu::{CpuSignature, PlatformMask, Vendor};
use crate::model::patch::{digest_eq, PatchMeta, PatchModel};
use crate::order::{
    dedup_by, equal, is_strict, law_dedup_is_strict, law_dedup_keeps_members, law_sort_sorts,
    law_strict_order_is_canonical, lemma_sort_members, order_of, sort, sort_by, Order, Ranking,
};

verus! {

#[derive(Debug, Clone, Copy, PartialEq, Eq, Structural)]
pub enum DiffKind {
    Added,
    Removed,
    Upgraded,
    Downgraded,
    /// Same revision, different bytes. Always worth flagging.
    Changed,
    Unchanged,
}

#[derive(Debug)]
pub struct DiffEntry {
    pub kind: DiffKind,
    pub vendor: Vendor,
    pub signature: String,
    pub platform_mask: String,
    pub old_revision: Option<String>,
    pub new_revision: Option<String>,
    pub old_date: Option<String>,
    pub new_date: Option<String>,
}

/// The contents of a [`DiffEntry`].
#[verifier::ext_equal]
pub struct DiffEntryModel {
    pub kind: DiffKind,
    pub vendor: Vendor,
    pub signature: Seq<char>,
    pub platform_mask: Seq<char>,
    pub old_revision: Option<Seq<char>>,
    pub new_revision: Option<Seq<char>>,
    pub old_date: Option<Seq<char>>,
    pub new_date: Option<Seq<char>>,
}

impl View for DiffEntry {
    type V = DiffEntryModel;

    open spec fn view(&self) -> DiffEntryModel {
        DiffEntryModel {
            kind: self.kind,
            vendor: self.vendor,
            signature: self.signature@,
            platform_mask: self.platform_mask@,
            old_revision: opt_text(self.old_revision),
            new_revision: opt_text(self.new_revision),
            old_date: opt_text(self.old_date),
            new_date: opt_text(self.new_date),
        }
    }
}

#[derive(Debug)]
pub struct CatalogDiff {
    pub entries: Vec<DiffEntry>,
    pub added: usize,
    pub removed: usize,
    pub upgraded: usize,
    pub downgraded: usize,
    pub changed: usize,
    pub unchanged: usize,
}

/// The contents of a [`CatalogDiff`].
#[verifier::ext_equal]
pub struct DiffModel {
    pub entries: Seq<DiffEntryModel>,
    pub added: nat,
    pub removed: nat,
    pub upgraded: nat,
    pub downgraded: nat,
    pub changed: nat,
    pub unchanged: nat,
}

pub open spec fn diff_view(v: Seq<DiffEntry>) -> Seq<DiffEntryModel> {
    v.map_values(|e: DiffEntry| e@)
}

impl View for CatalogDiff {
    type V = DiffModel;

    open spec fn view(&self) -> DiffModel {
        DiffModel {
            entries: diff_view(self.entries@),
            added: self.added as nat,
            removed: self.removed as nat,
            upgraded: self.upgraded as nat,
            downgraded: self.downgraded as nat,
            changed: self.changed as nat,
            unchanged: self.unchanged as nat,
        }
    }
}

// --- targets ----------------------------------------------------------------------

/// What a patch is for.
pub type Key = (Vendor, CpuSignature, PlatformMask);

pub open spec fn key_before(a: Key, b: Key) -> bool {
    if a.0 != b.0 {
        a.0.rank() < b.0.rank()
    } else if a.1 != b.1 {
        a.1.0 < b.1.0
    } else {
        a.2.0 < b.2.0
    }
}

/// The order of targets.
pub struct ByTarget;

impl Ranking<Key> for ByTarget {
    open spec fn less(a: Key, b: Key) -> bool {
        key_before(a, b)
    }

    proof fn irreflexive(a: Key) {
    }

    proof fn transitive(a: Key, b: Key, c: Key) {
    }

    proof fn weak(a: Key, b: Key, c: Key) {
    }
}

impl Order<Key> for ByTarget {
    fn is_less(a: &Key, b: &Key) -> (r: bool) {
        if a.0 != b.0 {
            return a.0 == Vendor::Intel;
        }
        if a.1.0 != b.1.0 {
            return a.1.0 < b.1.0;
        }
        a.2.0 < b.2.0
    }
}

/// The index with a patch put in for a target; the higher revision stays, and
/// of equal revisions the one that was there.
pub open spec fn with_best(idx: Seq<(Key, PatchModel)>, key: Key, p: PatchModel) -> Seq<(Key, PatchModel)>
    decreases idx.len(),
{
    if idx.len() == 0 || key_before(idx.last().0, key) {
        idx.push((key, p))
    } else if idx.last().0 == key {
        if p.revision > idx.last().1.revision {
            idx.drop_last().push((key, p))
        } else {
            idx
        }
    } else {
        with_best(idx.drop_last(), key, p).push(idx.last())
    }
}

/// The target of a patch's pair.
pub open spec fn key_of(p: PatchModel, i: int) -> Key {
    (p.vendor, p.matches[i].signature, p.matches[i].platform_mask)
}

/// The index with a patch put in for the first `n` of its pairs.
pub open spec fn with_pairs(idx: Seq<(Key, PatchModel)>, p: PatchModel, n: nat) -> Seq<(Key, PatchModel)>
    decreases n,
{
    if n == 0 {
        idx
    } else {
        with_best(with_pairs(idx, p, (n - 1) as nat), key_of(p, n - 1), p)
    }
}

/// The best patch of each target.
pub open spec fn index_of(patches: Seq<PatchModel>) -> Seq<(Key, PatchModel)>
    decreases patches.len(),
{
    if patches.len() == 0 {
        Seq::empty()
    } else {
        with_pairs(index_of(patches.drop_last()), patches.last(), patches.last().matches.len())
    }
}

/// The patch of a target.
pub open spec fn lookup(idx: Seq<(Key, PatchModel)>, key: Key) -> Option<PatchModel>
    decreases idx.len(),
{
    if idx.len() == 0 {
        None
    } else if idx[0].0 == key {
        Some(idx[0].1)
    } else {
        lookup(idx.drop_first(), key)
    }
}

pub open spec fn keys_of(idx: Seq<(Key, PatchModel)>) -> Seq<Key> {
    idx.map_values(|e: (Key, PatchModel)| e.0)
}

/// The targets of either index in ascending order, each once.
pub open spec fn all_keys(a: Seq<(Key, PatchModel)>, b: Seq<(Key, PatchModel)>) -> Seq<Key> {
    dedup_by(sort_by(keys_of(a) + keys_of(b), order_of::<Key, ByTarget>()), equal::<Key>())
}

/// What happened to a target.
pub open spec fn kind_of(o: Option<PatchModel>, n: Option<PatchModel>) -> DiffKind {
    match (o, n) {
        (None, Some(_)) => DiffKind::Added,
        (Some(_), None) => DiffKind::Removed,
        (Some(a), Some(b)) => if b.revision > a.revision {
            DiffKind::Upgraded
        } else if b.revision < a.revision {
            DiffKind::Downgraded
        } else if a.sha256 != b.sha256 {
            DiffKind::Changed
        } else {
            DiffKind::Unchanged
        },
        (None, None) => DiffKind::Unchanged,
    }
}

pub open spec fn revision_of(p: Option<PatchModel>) -> Option<Seq<char>> {
    match p {
        Some(x) => Some(revision_text(x.revision)),
        None => None,
    }
}

pub open spec fn date_of(p: Option<PatchModel>) -> Option<Seq<char>> {
    match p {
        Some(x) => match x.date {
            Some(d) => Some(d.date_text()),
            None => None,
        },
        None => None,
    }
}

pub open spec fn diff_entry(key: Key, o: Option<PatchModel>, n: Option<PatchModel>) -> DiffEntryModel {
    DiffEntryModel {
        kind: kind_of(o, n),
        vendor: key.0,
        signature: key.1.signature_text(),
        platform_mask: key.2.mask_text(),
        old_revision: revision_of(o),
        new_revision: revision_of(n),
        old_date: date_of(o),
        new_date: date_of(n),
    }
}

/// The entries for a list of targets.
pub open spec fn diff_entries(
    keys: Seq<Key>,
    old: Seq<(Key, PatchModel)>,
    new: Seq<(Key, PatchModel)>,
    include_unchanged: bool,
) -> Seq<DiffEntryModel>
    decreases keys.len(),
{
    if keys.len() == 0 {
        Seq::empty()
    } else {
        let front = diff_entries(keys.drop_last(), old, new, include_unchanged);
        let e = diff_entry(keys.last(), lookup(old, keys.last()), lookup(new, keys.last()));
        if e.kind == DiffKind::Unchanged && !include_unchanged {
            front
        } else {
            front.push(e)
        }
    }
}

/// How many of the targets something happened to.
pub open spec fn count_kind(
    keys: Seq<Key>,
    old: Seq<(Key, PatchModel)>,
    new: Seq<(Key, PatchModel)>,
    kind: DiffKind,
) -> nat
    decreases keys.len(),
{
    if keys.len() == 0 {
        0
    } else {
        count_kind(keys.drop_last(), old, new, kind) + if kind_of(
            lookup(old, keys.last()),
            lookup(new, keys.last()),
        ) == kind {
            1nat
        } else {
            0nat
        }
    }
}

/// The comparison of two catalogs.
pub open spec fn diff_of(old: CatalogModel, new: CatalogModel, include_unchanged: bool) -> DiffModel {
    let a = index_of(old.patches);
    let b = index_of(new.patches);
    let keys = all_keys(a, b);
    DiffModel {
        entries: diff_entries(keys, a, b, include_unchanged),
        added: count_kind(keys, a, b, DiffKind::Added),
        removed: count_kind(keys, a, b, DiffKind::Removed),
        upgraded: count_kind(keys, a, b, DiffKind::Upgraded),
        downgraded: count_kind(keys, a, b, DiffKind::Downgraded),
        changed: count_kind(keys, a, b, DiffKind::Changed),
        unchanged: count_kind(keys, a, b, DiffKind::Unchanged),
    }
}

// --- comparing --------------------------------------------------------------------

type Slot<'a> = (Key, &'a PatchMeta);

pub open spec fn slots_view(v: Seq<(Key, &PatchMeta)>) -> Seq<(Key, PatchModel)> {
    v.map_values(|e: (Key, &PatchMeta)| (e.0, e.1@))
}

fn key_eq(a: &Key, b: &Key) -> (r: bool)
    ensures
        r == (*a == *b),
{
    a.0 == b.0 && a.1 == b.1 && a.2 == b.2
}

fn put_best<'a>(idx: Vec<Slot<'a>>, key: Key, p: &'a PatchMeta) -> (r: Vec<Slot<'a>>)
    ensures
        slots_view(r@) == with_best(slots_view(idx@), key, p@),
{
    let ghost all = slots_view(idx@);
    let mut out = idx;
    let mut i: usize = out.len();
    assert(all.take(i as int) =~= all);
    assert(with_best(all, key, p@) =~= with_best(all.take(i as int), key, p@) + all.skip(i as int));
    while i > 0 && !ByTarget::is_less(&out[i - 1].0, &key) && !key_eq(&out[i - 1].0, &key)
        invariant
            i <= out@.len(),
            all == slots_view(out@),
            with_best(all, key, p@) =~= with_best(all.take(i as int), key, p@) + all.skip(i as int),
        decreases i,
    {
        assert(all.take(i as int).drop_last() =~= all.take(i - 1));
        assert(all.take(i as int).last() == all[i - 1]);
        assert(all.skip(i - 1) =~= seq![all[i - 1]] + all.skip(i as int));
        i = i - 1;
    }
    assert(i > 0 ==> all.take(i as int).drop_last() =~= all.take(i - 1));
    assert(i > 0 ==> all.take(i as int).last() == all[i - 1]);
    if i > 0 && key_eq(&out[i - 1].0, &key) {
        if p.revision > out[i - 1].1.revision {
            out.set(i - 1, (key, p));
            assert(slots_view(out@) =~= all.update(i - 1, (key, p@)));
        } else {
            assert(all.take(i as int) + all.skip(i as int) =~= all);
        }
    } else {
        out.insert(i, (key, p));
        assert(slots_view(out@) =~= all.insert(i as int, (key, p@)));
    }
    assert(slots_view(out@) =~= with_best(all, key, p@));
    out
}

fn index<'a>(catalog: &'a Catalog) -> (r: Vec<Slot<'a>>)
    ensures
        slots_view(r@) == index_of(catalog@.patches),
{
    let mut out: Vec<Slot<'a>> = Vec::new();
    assert(slots_view(out@) =~= index_of(catalog@.patches.take(0)));
    let mut i: usize = 0;
    while i < catalog.patches.len()
        invariant
            i <= catalog.patches@.len(),
            slots_view(out@) == index_of(catalog@.patches.take(i as int)),
        decreases catalog.patches@.len() - i,
    {
        let p: &'a PatchMeta = &catalog.patches[i];
        let ghost idx = slots_view(out@);
        assert(catalog@.patches.take(i + 1).drop_last() =~= catalog@.patches.take(i as int));
        assert(catalog@.patches.take(i + 1).last() == p@);
        let mut k: usize = 0;
        while k < p.matches.len()
            invariant
                k <= p.matches@.len(),
                slots_view(out@) == with_pairs(idx, p@, k as nat),
            decreases p.matches@.len() - k,
        {
            let key: Key = (p.vendor, p.matches[k].signature, p.matches[k].platform_mask);
            out = put_best(out, key, p);
            k = k + 1;
        }
        i = i + 1;
    }
    assert(catalog@.patches.take(i as int) =~= catalog@.patches);
    out
}

fn find_slot<'a>(idx: &Vec<Slot<'a>>, key: &Key) -> (r: Option<&'a PatchMeta>)
    ensures
        match r {
            Some(p) => lookup(slots_view(idx@), *key) == Some(p@),
            None => lookup(slots_view(idx@), *key) is None,
        },
{
    let ghost all = slots_view(idx@);
    assert(all.skip(0) =~= all);
    let mut i: usize = 0;
    while i < idx.len()
        invariant
            i <= idx@.len(),
            all == slots_view(idx@),
            lookup(all, *key) == lookup(all.skip(i as int), *key),
        decreases idx@.len() - i,
    {
        assert(all.skip(i as int)[0] == (idx@[i as int].0, idx@[i as int].1@));
        if key_eq(&idx[i].0, key) {
            return Some(idx[i].1);
        }
        assert(all.skip(i as int).drop_first() =~= all.skip(i + 1));
        i = i + 1;
    }
    None
}

fn push_keys(keys: &mut Vec<Key>, idx: &Vec<(Key, &PatchMeta)>)
    ensures
        final(keys)@ == old(keys)@ + keys_of(slots_view(idx@)),
{
    let ghost start = keys@;
    let ghost all = keys_of(slots_view(idx@));
    let mut i: usize = 0;
    while i < idx.len()
        invariant
            i <= idx@.len(),
            all == keys_of(slots_view(idx@)),
            keys@ =~= start + all.take(i as int),
        decreases idx@.len() - i,
    {
        keys.push(idx[i].0);
        i = i + 1;
    }
    assert(all.take(i as int) =~= all);
}

fn merge_keys(a: &Vec<(Key, &PatchMeta)>, b: &Vec<(Key, &PatchMeta)>) -> (r: Vec<Key>)
    ensures
        r@ == all_keys(slots_view(a@), slots_view(b@)),
{
    let mut keys: Vec<Key> = Vec::new();
    push_keys(&mut keys, a);
    push_keys(&mut keys, b);
    assert(keys@ =~= keys_of(slots_view(a@)) + keys_of(slots_view(b@)));
    let sorted = sort::<Key, ByTarget>(keys);
    let mut out: Vec<Key> = Vec::new();
    let mut i: usize = 0;
    while i < sorted.len()
        invariant
            i <= sorted@.len(),
            out@ == dedup_by(sorted@.take(i as int), equal::<Key>()),
        decreases sorted@.len() - i,
    {
        assert(sorted@.take(i + 1).drop_last() =~= sorted@.take(i as int));
        assert(sorted@.take(i + 1).last() == sorted@[i as int]);
        let n: usize = out.len();
        if n > 0 && key_eq(&sorted[i], &out[n - 1]) {
        } else {
            out.push(sorted[i]);
        }
        i = i + 1;
    }
    assert(sorted@.take(i as int) =~= sorted@);
    out
}

fn classify(o: Option<&PatchMeta>, n: Option<&PatchMeta>) -> (r: DiffKind)
    ensures
        r == kind_of(
            match o {
                Some(p) => Some(p@),
                None => None,
            },
            match n {
                Some(p) => Some(p@),
                None => None,
            },
        ),
{
    match (o, n) {
        (None, Some(_)) => DiffKind::Added,
        (Some(_), None) => DiffKind::Removed,
        (Some(a), Some(b)) => {
            if b.revision > a.revision {
                DiffKind::Upgraded
            } else if b.revision < a.revision {
                DiffKind::Downgraded
            } else if !digest_eq(&a.sha256, &b.sha256) {
                DiffKind::Changed
            } else {
                DiffKind::Unchanged
            }
        },
        (None, None) => DiffKind::Unchanged,
    }
}

fn revision_option(p: Option<&PatchMeta>) -> (r: Option<String>)
    ensures
        opt_text(r) == revision_of(
            match p {
                Some(x) => Some(x@),
                None => None,
            },
        ),
{
    match p {
        Some(x) => Some(revision_string(x.revision)),
        None => None,
    }
}

fn date_option(p: Option<&PatchMeta>) -> (r: Option<String>)
    ensures
        opt_text(r) == date_of(
            match p {
                Some(x) => Some(x@),
                None => None,
            },
        ),
{
    match p {
        Some(x) => match x.date {
            Some(d) => Some(d.to_string()),
            None => None,
        },
        None => None,
    }
}

/// Compare two catalogs on their best patch per target.
pub fn diff_catalogs(old: &Catalog, new: &Catalog, include_unchanged: bool) -> (r: CatalogDiff)
    ensures
        r@ == diff_of(old@, new@, include_unchanged),
{
    let old_idx = index(old);
    let new_idx = index(new);
    let keys = merge_keys(&old_idx, &new_idx);
    let ghost a = slots_view(old_idx@);
    let ghost b = slots_view(new_idx@);
    let mut out = CatalogDiff {
        entries: Vec::new(),
        added: 0,
        removed: 0,
        upgraded: 0,
        downgraded: 0,
        changed: 0,
        unchanged: 0,
    };
    assert(diff_view(out.entries@) =~= diff_entries(keys@.take(0), a, b, include_unchanged));
    let mut i: usize = 0;
    while i < keys.len()
        invariant
            i <= keys@.len(),
            a == slots_view(old_idx@),
            b == slots_view(new_idx@),
            diff_view(out.entries@) == diff_entries(keys@.take(i as int), a, b, include_unchanged),
            out.added == count_kind(keys@.take(i as int), a, b, DiffKind::Added),
            out.removed == count_kind(keys@.take(i as int), a, b, DiffKind::Removed),
            out.upgraded == count_kind(keys@.take(i as int), a, b, DiffKind::Upgraded),
            out.downgraded == count_kind(keys@.take(i as int), a, b, DiffKind::Downgraded),
            out.changed == count_kind(keys@.take(i as int), a, b, DiffKind::Changed),
            out.unchanged == count_kind(keys@.take(i as int), a, b, DiffKind::Unchanged),
            out.added <= i,
            out.removed <= i,
            out.upgraded <= i,
            out.downgraded <= i,
            out.changed <= i,
            out.unchanged <= i,
        decreases keys@.len() - i,
    {
        let key = keys[i];
        assert(keys@.take(i + 1).drop_last() =~= keys@.take(i as int));
        assert(keys@.take(i + 1).last() == key);
        let o = find_slot(&old_idx, &key);
        let n = find_slot(&new_idx, &key);
        let kind = classify(o, n);
        match kind {
            DiffKind::Added => {
                out.added = out.added + 1;
            },
            DiffKind::Removed => {
                out.removed = out.removed + 1;
            },
            DiffKind::Upgraded => {
                out.upgraded = out.upgraded + 1;
            },
            DiffKind::Downgraded => {
                out.downgraded = out.downgraded + 1;
            },
            DiffKind::Changed => {
                out.changed = out.changed + 1;
            },
            DiffKind::Unchanged => {
                out.unchanged = out.unchanged + 1;
            },
        }
        if kind != DiffKind::Unchanged || include_unchanged {
            let entry = DiffEntry {
                kind,
                vendor: key.0,
                signature: key.1.to_string(),
                platform_mask: key.2.to_string(),
                old_revision: revision_option(o),
                new_revision: revision_option(n),
                old_date: date_option(o),
                new_date: date_option(n),
            };
            assert(entry@ =~= diff_entry(key, lookup(a, key), lookup(b, key)));
            let ghost before = out.entries@;
            out.entries.push(entry);
            assert(diff_view(out.entries@) =~= diff_view(before).push(entry@));
        }
        i = i + 1;
    }
    assert(keys@.take(i as int) =~= keys@);
    out
}

// --- laws -------------------------------------------------------------------------

/// The kind seen from the other side.
pub open spec fn mirrored(kind: DiffKind) -> DiffKind {
    match kind {
        DiffKind::Added => DiffKind::Removed,
        DiffKind::Removed => DiffKind::Added,
        DiffKind::Upgraded => DiffKind::Downgraded,
        DiffKind::Downgraded => DiffKind::Upgraded,
        DiffKind::Changed => DiffKind::Changed,
        DiffKind::Unchanged => DiffKind::Unchanged,
    }
}

proof fn lemma_count_mirrored(
    keys: Seq<Key>,
    a: Seq<(Key, PatchModel)>,
    b: Seq<(Key, PatchModel)>,
    kind: DiffKind,
)
    ensures
        count_kind(keys, a, b, kind) == count_kind(keys, b, a, mirrored(kind)),
    decreases keys.len(),
{
    if keys.len() > 0 {
        lemma_count_mirrored(keys.drop_last(), a, b, kind);
    }
}

proof fn lemma_keys_mirrored(a: Seq<(Key, PatchModel)>, b: Seq<(Key, PatchModel)>)
    ensures
        all_keys(a, b) == all_keys(b, a),
{
    lemma_all_keys(a, b);
    lemma_all_keys(b, a);
    let x = keys_of(a) + keys_of(b);
    let y = keys_of(b) + keys_of(a);
    assert forall|k: Key| #[trigger] all_keys(a, b).contains(k) <==> all_keys(b, a).contains(k) by {
        assert(all_keys(a, b).contains(k) <==> x.contains(k));
        assert(all_keys(b, a).contains(k) <==> y.contains(k));
        if x.contains(k) {
            let i = choose|i: int| 0 <= i < x.len() && x[i] == k;
            if i < a.len() {
                assert(y[b.len() + i] == k);
            } else {
                assert(y[i - a.len()] == k);
            }
        }
        if y.contains(k) {
            let i = choose|i: int| 0 <= i < y.len() && y[i] == k;
            if i < b.len() {
                assert(x[a.len() + i] == k);
            } else {
                assert(x[i - b.len()] == k);
            }
        }
    }
    law_strict_order_is_canonical::<Key, ByTarget>(all_keys(a, b), all_keys(b, a));
}

pub proof fn lemma_all_keys(a: Seq<(Key, PatchModel)>, b: Seq<(Key, PatchModel)>)
    ensures
        is_strict(all_keys(a, b), order_of::<Key, ByTarget>()),
        forall|k: Key| #[trigger]
            all_keys(a, b).contains(k) <==> (keys_of(a) + keys_of(b)).contains(k),
{
    let less = order_of::<Key, ByTarget>();
    let given = keys_of(a) + keys_of(b);
    let sorted = sort_by(given, less);
    law_sort_sorts::<Key, ByTarget>(given);
    lemma_sort_members(given, less);
    law_dedup_keeps_members(sorted);
    law_dedup_is_strict::<Key, ByTarget>(sorted);
    let all = all_keys(a, b);
    assert forall|i: int, j: int| 0 <= i < j < all.len() implies less(#[trigger] all[i], #[trigger] all[j]) by {
        assert(ByTarget::less(all[i], all[j]));
    }
    assert forall|k: Key| #[trigger] all.contains(k) <==> given.contains(k) by {
        assert(sorted.contains(k) <==> given.contains(k));
    }
}

/// Comparing the other way round exchanges added with removed and upgraded
/// with downgraded, and keeps the rest.
pub proof fn law_diff_is_antisymmetric(a: CatalogModel, b: CatalogModel, include_unchanged: bool)
    ensures
        diff_of(a, b, include_unchanged).added == diff_of(b, a, include_unchanged).removed,
        diff_of(a, b, include_unchanged).removed == diff_of(b, a, include_unchanged).added,
        diff_of(a, b, include_unchanged).upgraded == diff_of(b, a, include_unchanged).downgraded,
        diff_of(a, b, include_unchanged).downgraded == diff_of(b, a, include_unchanged).upgraded,
        diff_of(a, b, include_unchanged).changed == diff_of(b, a, include_unchanged).changed,
        diff_of(a, b, include_unchanged).unchanged == diff_of(b, a, include_unchanged).unchanged,
{
    let x = index_of(a.patches);
    let y = index_of(b.patches);
    lemma_keys_mirrored(x, y);
    let keys = all_keys(x, y);
    lemma_count_mirrored(keys, x, y, DiffKind::Added);
    lemma_count_mirrored(keys, x, y, DiffKind::Removed);
    lemma_count_mirrored(keys, x, y, DiffKind::Upgraded);
    lemma_count_mirrored(keys, x, y, DiffKind::Downgraded);
    lemma_count_mirrored(keys, x, y, DiffKind::Changed);
    lemma_count_mirrored(keys, x, y, DiffKind::Unchanged);
}

proof fn lemma_counts(
    keys: Seq<Key>,
    a: Seq<(Key, PatchModel)>,
    b: Seq<(Key, PatchModel)>,
    include_unchanged: bool,
)
    ensures
        count_kind(keys, a, b, DiffKind::Added) + count_kind(keys, a, b, DiffKind::Removed) + count_kind(
            keys,
            a,
            b,
            DiffKind::Upgraded,
        ) + count_kind(keys, a, b, DiffKind::Downgraded) + count_kind(keys, a, b, DiffKind::Changed)
            + count_kind(keys, a, b, DiffKind::Unchanged) == keys.len(),
        diff_entries(keys, a, b, include_unchanged).len() + (if include_unchanged {
            0nat
        } else {
            count_kind(keys, a, b, DiffKind::Unchanged)
        }) == keys.len(),
    decreases keys.len(),
{
    if keys.len() > 0 {
        lemma_counts(keys.drop_last(), a, b, include_unchanged);
    }
}

/// Every target is counted once, and listed unless it is unchanged and
/// unchanged ones are left out.
pub proof fn law_diff_counts_every_target(a: CatalogModel, b: CatalogModel, include_unchanged: bool)
    ensures
        ({
            let d = diff_of(a, b, include_unchanged);
            let keys = all_keys(index_of(a.patches), index_of(b.patches));
            &&& d.added + d.removed + d.upgraded + d.downgraded + d.changed + d.unchanged == keys.len()
            &&& d.entries.len() == if include_unchanged {
                keys.len() as int
            } else {
                keys.len() - d.unchanged
            }
        }),
{
    let x = index_of(a.patches);
    let y = index_of(b.patches);
    lemma_counts(all_keys(x, y), x, y, include_unchanged);
}

proof fn lemma_self_counts(keys: Seq<Key>, a: Seq<(Key, PatchModel)>)
    ensures
        count_kind(keys, a, a, DiffKind::Unchanged) == keys.len(),
        diff_entries(keys, a, a, false).len() == 0,
    decreases keys.len(),
{
    if keys.len() > 0 {
        lemma_self_counts(keys.drop_last(), a);
    }
}

/// A catalog does not differ from itself.
pub proof fn law_diff_with_itself_is_empty(a: CatalogModel)
    ensures
        diff_of(a, a, false).entries.len() == 0,
        diff_of(a, a, false).unchanged == all_keys(index_of(a.patches), index_of(a.patches)).len(),
{
    let x = index_of(a.patches);
    lemma_self_counts(all_keys(x, x), x);
}

} // verus!
