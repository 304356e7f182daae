//! Laws of ingestion and of the normalised catalog.

use vstd::prelude::*;
use vstd::utf8::decode_utf8;
use crate::amd::container::{containers_of, AmdPatchModel, ContainerModel};
use crate::catalog::collection::{
    canonical, content_key, first_copies, kept_before, normal_form, normalised, zipped, Canonical, CatalogModel,
    Held,
};
use crate::catalog::ingest::{
    ingested, intel_ingested, with_amds, with_containers, with_intels, IngestOptions,
};
use crate::intel::bundle::{bundle_of, in_place, law_bundle_layout, EntryModel};
use crate::intel::dat::dat_bytes;
use crate::intel::law::{is_update, law_entries_are_updates};
use crate::intel::validate::IntelValidationMode;
use crate::model::cpu::Vendor;
use crate::model::limits::Limits;
use crate::order::{
    insert_position, is_sorted, law_sort_sorts, lemma_sort_members, order_of, sort_by,
};

verus! {

/// Sorting what is sorted changes nothing.
proof fn lemma_sort_sorted(s: Seq<Held>)
    requires
        is_sorted(s, canonical()),
    ensures
        sort_by(s, canonical()) == s,
    decreases s.len(),
{
    if s.len() > 0 {
        let t = s.drop_last();
        assert forall|i: int, j: int| 0 <= i < j < t.len() implies !(canonical())(
            #[trigger] t[j],
            #[trigger] t[i],
        ) by {
            assert(!(canonical())(s[j], s[i]));
        }
        lemma_sort_sorted(t);
        if t.len() > 0 {
            assert(!(canonical())(s[s.len() - 1], s[t.len() - 1]));
        }
        assert(insert_position(t, s.last(), canonical()) == t.len());
        assert(t.insert(t.len() as int, s.last()) =~= s);
    }
}

/// What is kept is a part of what was given, in the same order.
proof fn lemma_copies_embed(s: Seq<Held>)
    ensures
        first_copies(s).len() <= s.len(),
        forall|i: int|
            0 <= i < first_copies(s).len() ==> s.contains(#[trigger] first_copies(s)[i]),
        is_sorted(s, canonical()) ==> is_sorted(first_copies(s), canonical()),
    decreases s.len(),
{
    if s.len() > 0 {
        let t = s.drop_last();
        let kept = first_copies(t);
        let all = first_copies(s);
        lemma_copies_embed(t);
        assert forall|i: int| 0 <= i < all.len() implies s.contains(#[trigger] all[i]) by {
            if i < kept.len() {
                assert(all[i] == kept[i]);
                let k = choose|k: int| 0 <= k < t.len() && t[k] == kept[i];
                assert(s[k] == all[i]);
            } else {
                assert(s[s.len() - 1] == all[i]);
            }
        }
        if is_sorted(s, canonical()) {
            assert forall|i: int, j: int| 0 <= i < j < t.len() implies !(canonical())(
                #[trigger] t[j],
                #[trigger] t[i],
            ) by {
                assert(!(canonical())(s[j], s[i]));
            }
            assert forall|i: int, j: int| 0 <= i < j < all.len() implies !(canonical())(
                #[trigger] all[j],
                #[trigger] all[i],
            ) by {
                if j < kept.len() {
                    assert(!(canonical())(kept[j], kept[i]));
                } else {
                    assert(t.contains(kept[i]));
                    let k = choose|k: int| 0 <= k < t.len() && t[k] == kept[i];
                    assert(!(canonical())(s[s.len() - 1], s[k]));
                }
            }
        }
    }
}

proof fn lemma_copies_distinct(s: Seq<Held>, i: int, j: int)
    requires
        0 <= i < j < first_copies(s).len(),
        first_copies(s)[j].0.sha256 is Some,
    ensures
        content_key(first_copies(s)[i].0) != content_key(first_copies(s)[j].0),
    decreases s.len(),
{
    let kept = first_copies(s.drop_last());
    if j < kept.len() {
        lemma_copies_distinct(s.drop_last(), i, j);
    } else if content_key(kept[i].0) == content_key(s.last().0) {
        assert(kept_before(kept, s.last().0));
    }
}

proof fn lemma_copies_complete(s: Seq<Held>, k: int)
    requires
        0 <= k < s.len(),
    ensures
        kept_before(first_copies(s), s[k].0),
        s[k].0.sha256 is None ==> first_copies(s).contains(s[k]),
    decreases s.len(),
{
    let t = s.drop_last();
    let kept = first_copies(t);
    let all = first_copies(s);
    if k < t.len() {
        lemma_copies_complete(t, k);
        let i = choose|i: int|
            0 <= i < kept.len() && content_key((#[trigger] kept[i]).0) == content_key(t[k].0);
        assert(all[i] == kept[i]);
        if s[k].0.sha256 is None {
            let n = choose|n: int| 0 <= n < kept.len() && kept[n] == t[k];
            assert(all[n] == s[k]);
        }
    } else if s.last().0.sha256 is Some && kept_before(kept, s.last().0) {
        assert(all == kept);
    } else {
        assert(all[all.len() - 1] == s[k]);
    }
}

proof fn lemma_copies_of_distinct(s: Seq<Held>)
    requires
        forall|i: int, j: int|
            0 <= i < j < s.len() && (#[trigger] s[j]).0.sha256 is Some ==> content_key((#[trigger] s[i]).0)
                != content_key(s[j].0),
    ensures
        first_copies(s) == s,
    decreases s.len(),
{
    if s.len() > 0 {
        let t = s.drop_last();
        assert forall|i: int, j: int|
            0 <= i < j < t.len() && (#[trigger] t[j]).0.sha256 is Some implies content_key(
            (#[trigger] t[i]).0,
        ) != content_key(t[j].0) by {
            assert(s[j] == t[j] && s[i] == t[i]);
        }
        lemma_copies_of_distinct(t);
        if s.last().0.sha256 is Some && kept_before(t, s.last().0) {
            let i = choose|i: int|
                0 <= i < t.len() && content_key((#[trigger] t[i]).0) == content_key(s.last().0);
            assert(content_key(s[i].0) != content_key(s[s.len() - 1].0));
        }
        assert(t.push(s.last()) =~= s);
    } else {
        assert(first_copies(s) =~= s);
    }
}

/// A normalised catalog is in canonical order.
pub proof fn law_normalised_is_sorted(m: CatalogModel)
    ensures
        is_sorted(normal_form(m), canonical()),
{
    let given = zipped(m.patches, m.payloads);
    assert(canonical() =~= order_of::<Held, Canonical>());
    law_sort_sorts::<Held, Canonical>(given);
    lemma_copies_embed(sort_by(given, canonical()));
}

/// No two patches of a normalised catalog have the same digest and revision.
pub proof fn law_normalised_has_no_copies(m: CatalogModel, i: int, j: int)
    requires
        0 <= i < j < normal_form(m).len(),
        normal_form(m)[j].0.sha256 is Some,
    ensures
        content_key(normal_form(m)[i].0) != content_key(normal_form(m)[j].0),
{
    lemma_copies_distinct(sort_by(zipped(m.patches, m.payloads), canonical()), i, j);
}

/// Normalising invents nothing: every patch that is there afterwards was there
/// before, with its bytes. And it loses no contents: of every patch, one with
/// its digest and revision stays, and one without a digest stays itself.
pub proof fn law_normalising_keeps_contents(m: CatalogModel, p: Held)
    ensures
        normal_form(m).contains(p) ==> zipped(m.patches, m.payloads).contains(p),
        zipped(m.patches, m.payloads).contains(p) ==> kept_before(normal_form(m), p.0) && (p.0.sha256 is None
            ==> normal_form(m).contains(p)),
{
    let given = zipped(m.patches, m.payloads);
    let sorted = sort_by(given, canonical());
    lemma_sort_members(given, canonical());
    lemma_copies_embed(sorted);
    assert(sorted.contains(p) <==> given.contains(p));
    if normal_form(m).contains(p) {
        let i = choose|i: int| 0 <= i < normal_form(m).len() && normal_form(m)[i] == p;
        assert(sorted.contains(first_copies(sorted)[i]));
    }
    if given.contains(p) {
        let k = choose|k: int| 0 <= k < sorted.len() && sorted[k] == p;
        lemma_copies_complete(sorted, k);
    }
}

/// Normalising twice is normalising once.
pub proof fn law_normalising_is_idempotent(m: CatalogModel)
    ensures
        normalised(normalised(m)) == normalised(m),
{
    let n = normal_form(m);
    let once = normalised(m);
    assert(zipped(once.patches, once.payloads) =~= n);
    law_normalised_is_sorted(m);
    lemma_sort_sorted(n);
    assert forall|i: int, j: int|
        0 <= i < j < n.len() && (#[trigger] n[j]).0.sha256 is Some implies content_key((#[trigger] n[i]).0)
        != content_key(n[j].0) by {
        law_normalised_has_no_copies(m, i, j);
    }
    lemma_copies_of_distinct(n);
}

// --- strict ingestion ---------------------------------------------------------------

/// Every patch has its bytes at its side, and those that are there of an Intel
/// patch are one update.
pub open spec fn holds_updates(m: CatalogModel, limits: Limits) -> bool {
    &&& m.patches.len() == m.payloads.len()
    &&& forall|i: int|
        0 <= i < m.patches.len() && (#[trigger] m.patches[i]).vendor == Vendor::Intel
            && m.payloads[i].len() > 0 ==> is_update(m.payloads[i], limits)
}

proof fn lemma_intels_hold(
    m: CatalogModel,
    entries: Seq<EntryModel>,
    b: Seq<u8>,
    source: Seq<char>,
    keep: bool,
    limits: Limits,
)
    requires
        holds_updates(m, limits),
        forall|i: int|
            0 <= i < entries.len() ==> (#[trigger] entries[i]).offset + entries[i].size <= b.len()
                && is_update(
                b.subrange(entries[i].offset as int, entries[i].offset + entries[i].size),
                limits,
            ),
    ensures
        holds_updates(with_intels(m, entries, b, source, keep), limits),
    decreases entries.len(),
{
    if entries.len() > 0 {
        let front = entries.drop_last();
        assert forall|i: int| 0 <= i < front.len() implies (#[trigger] front[i]).offset
            + front[i].size <= b.len() && is_update(
            b.subrange(front[i].offset as int, front[i].offset + front[i].size),
            limits,
        ) by {
            assert(front[i] == entries[i]);
        }
        lemma_intels_hold(m, front, b, source, keep, limits);
        let e = entries[entries.len() - 1];
        assert(e.offset + e.size <= b.len());
    }
}

proof fn lemma_amds_hold(
    m: CatalogModel,
    patches: Seq<AmdPatchModel>,
    b: Seq<u8>,
    source: Seq<char>,
    keep: bool,
    limits: Limits,
)
    requires
        holds_updates(m, limits),
    ensures
        holds_updates(with_amds(m, patches, b, source, keep), limits),
    decreases patches.len(),
{
    if patches.len() > 0 {
        lemma_amds_hold(m, patches.drop_last(), b, source, keep, limits);
    }
}

proof fn lemma_containers_hold(
    m: CatalogModel,
    cs: Seq<ContainerModel>,
    b: Seq<u8>,
    source: Seq<char>,
    keep: bool,
    limits: Limits,
)
    requires
        holds_updates(m, limits),
    ensures
        holds_updates(with_containers(m, cs, b, source, keep), limits),
    decreases cs.len(),
{
    if cs.len() > 0 {
        lemma_containers_hold(m, cs.drop_last(), b, source, keep, limits);
        let n = with_containers(m, cs.drop_last(), b, source, keep);
        let c = cs.last();
        lemma_amds_hold(
            CatalogModel { report: n.report + c.report, ..n },
            c.patches,
            b,
            source,
            keep,
            limits,
        );
    }
}

proof fn lemma_bundle_holds(
    m: CatalogModel,
    path: Seq<char>,
    b: Seq<u8>,
    opts: IngestOptions,
)
    requires
        holds_updates(m, opts.limits),
        opts.mode == IntelValidationMode::Strict,
    ensures
        intel_ingested(m, path, b, opts) matches Ok(n) ==> holds_updates(n, opts.limits),
{
    if let Ok(bundle) = bundle_of(b, opts.mode, opts.limits) {
        law_bundle_layout(b, opts.mode, opts.limits);
        assert forall|i: int| 0 <= i < bundle.entries.len() implies (
        #[trigger] bundle.entries[i]).offset + bundle.entries[i].size <= b.len() && is_update(
            b.subrange(
                bundle.entries[i].offset as int,
                bundle.entries[i].offset + bundle.entries[i].size,
            ),
            opts.limits,
        ) by {
            law_entries_are_updates(b, opts.limits, i);
            assert(in_place(b, bundle.entries[i], opts.limits));
        }
        lemma_intels_hold(
            CatalogModel { report: m.report + bundle.report, ..m },
            bundle.entries,
            b,
            path,
            opts.keep_payloads,
            opts.limits,
        );
    }
}

/// Strict ingestion lets nothing else in: whatever blob is taken in, the kept
/// bytes of every Intel patch are one update that strict parsing accepts.
pub proof fn law_strict_ingestion_holds_updates(
    m: CatalogModel,
    path: Seq<char>,
    b: Seq<u8>,
    opts: IngestOptions,
)
    requires
        holds_updates(m, opts.limits),
        opts.mode == IntelValidationMode::Strict,
    ensures
        ingested(m, path, b, opts) matches Ok(n) ==> holds_updates(n, opts.limits),
{
    lemma_bundle_holds(m, path, b, opts);
    if let Ok(binary) = dat_bytes(decode_utf8(b)) {
        lemma_bundle_holds(m, path, binary, opts);
    }
    if let Ok(cs) = containers_of(b, opts.limits) {
        lemma_containers_hold(m, cs, b, path, opts.keep_payloads, opts.limits);
    }
}

} // verus!
