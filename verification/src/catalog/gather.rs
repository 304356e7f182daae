//! Laws of gathering blobs in one catalog.

use vstd::prelude::*;
use vstd::utf8::decode_utf8;
use crate::amd::container::{containers_of, AmdPatchModel, ContainerModel};
use crate::catalog::collection::{
    content_key, normal_form, normalised, zipped, CatalogModel, Held, SourceModel,
};
use crate::catalog::ingest::{
    format_of, ingested, intel_ingested, with_amds, with_container, with_containers, with_intels,
    IngestOptions,
};
use crate::catalog::law::law_normalising_keeps_contents;
use crate::digest::sha256_of;
use crate::intel::bundle::{bundle_of, EntryModel};
use crate::intel::dat::dat_bytes;

verus! {

/// One catalog is another with a third behind it, list by list.
pub open spec fn follows(n: CatalogModel, m: CatalogModel, d: CatalogModel) -> bool {
    &&& n.patches == m.patches + d.patches
    &&& n.payloads == m.payloads + d.payloads
    &&& n.report == m.report + d.report
    &&& n.sources == m.sources + d.sources
    &&& n.failures == m.failures + d.failures
    &&& n.amd_equivalence == m.amd_equivalence + d.amd_equivalence
}

/// Every patch has its bytes at its side, and a digest.
pub open spec fn is_digested(m: CatalogModel) -> bool {
    &&& m.patches.len() == m.payloads.len()
    &&& forall|i: int| 0 <= i < m.patches.len() ==> (#[trigger] m.patches[i]).sha256 is Some
}

proof fn lemma_intels_follow(
    n: CatalogModel,
    m: CatalogModel,
    d: CatalogModel,
    entries: Seq<EntryModel>,
    b: Seq<u8>,
    source: Seq<char>,
    keep: bool,
)
    requires
        follows(n, m, d),
        is_digested(d),
    ensures
        follows(with_intels(n, entries, b, source, keep), m, with_intels(d, entries, b, source, keep)),
        is_digested(with_intels(d, entries, b, source, keep)),
        with_intels(d, entries, b, source, keep).sources == d.sources,
        with_intels(d, entries, b, source, keep).failures == d.failures,
    decreases entries.len(),
{
    if entries.len() > 0 {
        lemma_intels_follow(n, m, d, entries.drop_last(), b, source, keep);
        let x = with_intels(n, entries, b, source, keep);
        let y = with_intels(d, entries, b, source, keep);
        assert(x.patches =~= m.patches + y.patches);
        assert(x.payloads =~= m.payloads + y.payloads);
        assert(x.report =~= m.report + y.report);
    }
}

proof fn lemma_amds_follow(
    n: CatalogModel,
    m: CatalogModel,
    d: CatalogModel,
    ps: Seq<AmdPatchModel>,
    b: Seq<u8>,
    source: Seq<char>,
    keep: bool,
)
    requires
        follows(n, m, d),
        is_digested(d),
    ensures
        follows(with_amds(n, ps, b, source, keep), m, with_amds(d, ps, b, source, keep)),
        is_digested(with_amds(d, ps, b, source, keep)),
        with_amds(d, ps, b, source, keep).sources == d.sources,
        with_amds(d, ps, b, source, keep).failures == d.failures,
    decreases ps.len(),
{
    if ps.len() > 0 {
        lemma_amds_follow(n, m, d, ps.drop_last(), b, source, keep);
        let x = with_amds(n, ps, b, source, keep);
        let y = with_amds(d, ps, b, source, keep);
        assert(x.patches =~= m.patches + y.patches);
        assert(x.payloads =~= m.payloads + y.payloads);
        assert(x.report =~= m.report + y.report);
    }
}

proof fn lemma_containers_follow(
    n: CatalogModel,
    m: CatalogModel,
    d: CatalogModel,
    cs: Seq<ContainerModel>,
    b: Seq<u8>,
    source: Seq<char>,
    keep: bool,
)
    requires
        follows(n, m, d),
        is_digested(d),
    ensures
        follows(with_containers(n, cs, b, source, keep), m, with_containers(d, cs, b, source, keep)),
        is_digested(with_containers(d, cs, b, source, keep)),
        with_containers(d, cs, b, source, keep).sources == d.sources,
        with_containers(d, cs, b, source, keep).failures == d.failures,
    decreases cs.len(),
{
    if cs.len() > 0 {
        let c = cs.last();
        lemma_containers_follow(n, m, d, cs.drop_last(), b, source, keep);
        let x = with_containers(n, cs.drop_last(), b, source, keep);
        let y = with_containers(d, cs.drop_last(), b, source, keep);
        let x1 = CatalogModel { report: x.report + c.report, ..x };
        let y1 = CatalogModel { report: y.report + c.report, ..y };
        assert(x1.report =~= m.report + y1.report);
        lemma_amds_follow(x1, m, y1, c.patches, b, source, keep);
        let x2 = with_container(x, c, b, source, keep);
        let y2 = with_container(y, c, b, source, keep);
        assert(x2.amd_equivalence =~= m.amd_equivalence + y2.amd_equivalence);
    }
}

proof fn lemma_bundle_follows(m: CatalogModel, path: Seq<char>, b: Seq<u8>, opts: IngestOptions)
    ensures
        match (intel_ingested(m, path, b, opts), intel_ingested(CatalogModel::empty(), path, b, opts)) {
            (Ok(n), Ok(d)) => follows(n, m, d) && is_digested(d) && d.sources.len() == 0 && d.failures.len() == 0,
            (Err(e), Err(f)) => e == f,
            _ => false,
        },
{
    if let Ok(bundle) = bundle_of(b, opts.mode, opts.limits) {
        let d = CatalogModel::empty();
        let n1 = CatalogModel { report: m.report + bundle.report, ..m };
        let d1 = CatalogModel { report: d.report + bundle.report, ..d };
        assert(n1.patches =~= m.patches + d1.patches);
        assert(n1.payloads =~= m.payloads + d1.payloads);
        assert(n1.report =~= m.report + d1.report);
        assert(n1.sources =~= m.sources + d1.sources);
        assert(n1.failures =~= m.failures + d1.failures);
        assert(n1.amd_equivalence =~= m.amd_equivalence + d1.amd_equivalence);
        lemma_intels_follow(n1, m, d1, bundle.entries, b, path, opts.keep_payloads);
    }
}

/// What a blob adds to a catalog does not depend on what is in it: it is what a
/// catalog gets that held nothing, and it comes behind what was there. A blob
/// that one catalog refuses is refused by all, for the same reason.
pub proof fn law_blobs_add_the_same_anywhere(m: CatalogModel, path: Seq<char>, b: Seq<u8>, opts: IngestOptions)
    ensures
        match (ingested(m, path, b, opts), ingested(CatalogModel::empty(), path, b, opts)) {
            (Ok(n), Ok(d)) => follows(n, m, d) && is_digested(d) && d.failures.len() == 0,
            (Err(e), Err(f)) => e == f,
            _ => false,
        },
{
    let d = CatalogModel::empty();
    assert(m.patches + d.patches =~= m.patches);
    assert(m.payloads + d.payloads =~= m.payloads);
    assert(m.report + d.report =~= m.report);
    assert(m.sources + d.sources =~= m.sources);
    assert(m.failures + d.failures =~= m.failures);
    assert(m.amd_equivalence + d.amd_equivalence =~= m.amd_equivalence);
    lemma_bundle_follows(m, path, b, opts);
    if let Ok(binary) = dat_bytes(decode_utf8(b)) {
        lemma_bundle_follows(m, path, binary, opts);
    }
    if let Ok(cs) = containers_of(b, opts.limits) {
        lemma_containers_follow(m, m, d, cs, b, path, opts.keep_payloads);
    }
    if let (Ok(x), Ok(y)) = (ingested(m, path, b, opts), ingested(d, path, b, opts)) {
        assert(x.sources =~= m.sources + y.sources);
    }
}

/// With no vendor left out, a blob that is taken in is recorded once, with its
/// path, its length, its format, its digest and the number of its patches.
pub proof fn law_blobs_are_recorded(path: Seq<char>, b: Seq<u8>, opts: IngestOptions)
    requires
        opts.only_vendor is None,
    ensures
        ingested(CatalogModel::empty(), path, b, opts) matches Ok(d) ==> d.sources == seq![
            SourceModel {
                path,
                size: b.len() as u64,
                format: format_of(b),
                sha256: sha256_of(b),
                patch_count: d.patches.len() as usize,
            },
        ],
{
    let d = CatalogModel::empty();
    lemma_bundle_follows(d, path, b, opts);
    if let Ok(binary) = dat_bytes(decode_utf8(b)) {
        lemma_bundle_follows(d, path, binary, opts);
    }
    if let Ok(cs) = containers_of(b, opts.limits) {
        assert(follows(d, d, d)) by {
            assert(d.patches + d.patches =~= d.patches);
            assert(d.payloads + d.payloads =~= d.payloads);
            assert(d.report + d.report =~= d.report);
            assert(d.sources + d.sources =~= d.sources);
            assert(d.failures + d.failures =~= d.failures);
            assert(d.amd_equivalence + d.amd_equivalence =~= d.amd_equivalence);
        }
        lemma_containers_follow(d, d, d, cs, b, path, opts.keep_payloads);
    }
    if let Ok(n) = ingested(d, path, b, opts) {
        assert(n.sources =~= seq![n.sources[0]]);
    }
}

/// Some patch of the catalog has this digest and this revision.
pub open spec fn has_contents(m: CatalogModel, digest: Option<Seq<u8>>, revision: u32) -> bool {
    exists|j: int|
        0 <= j < m.patches.len() && (#[trigger] m.patches[j]).sha256 == digest && m.patches[j].revision
            == revision
}

/// Putting a catalog in order loses no contents and invents none: with all
/// patches digested, the digests and revisions that occur are the same, each
/// patch keeps the bytes it came with, and the records of the sources, the
/// failures, the findings and the AMD table stay as they are.
pub proof fn law_normalising_keeps_the_contents(m: CatalogModel)
    requires
        is_digested(m),
    ensures
        ({
            let n = normalised(m);
            &&& n.sources == m.sources
            &&& n.failures == m.failures
            &&& n.report == m.report
            &&& n.amd_equivalence == m.amd_equivalence
            &&& is_digested(n)
            &&& forall|i: int|
                0 <= i < m.patches.len() ==> has_contents(
                    n,
                    (#[trigger] m.patches[i]).sha256,
                    m.patches[i].revision,
                )
            &&& forall|j: int|
                0 <= j < n.patches.len() ==> exists|i: int|
                    0 <= i < m.patches.len() && m.patches[i] == #[trigger] n.patches[j] && #[trigger] m.payloads[i]
                        == n.payloads[j]
        }),
{
    let n = normalised(m);
    let given = zipped(m.patches, m.payloads);
    let form = normal_form(m);
    assert forall|j: int| 0 <= j < n.patches.len() implies exists|i: int|
        0 <= i < m.patches.len() && m.patches[i] == #[trigger] n.patches[j] && #[trigger] m.payloads[i]
            == n.payloads[j] by {
        law_normalising_keeps_contents(m, form[j]);
        assert(form.contains(form[j]));
        let i = choose|i: int| 0 <= i < given.len() && given[i] == form[j];
        assert(m.patches[i] == n.patches[j] && m.payloads[i] == n.payloads[j]);
    }
    assert forall|j: int| 0 <= j < n.patches.len() implies (#[trigger] n.patches[j]).sha256 is Some by {
        let i = choose|i: int|
            0 <= i < m.patches.len() && m.patches[i] == n.patches[j] && #[trigger] m.payloads[i]
                == n.payloads[j];
        assert(m.patches[i].sha256 is Some);
    }
    assert forall|i: int| 0 <= i < m.patches.len() implies has_contents(
        n,
        (#[trigger] m.patches[i]).sha256,
        m.patches[i].revision,
    ) by {
        let p: Held = given[i];
        law_normalising_keeps_contents(m, p);
        assert(given.contains(p));
        let j = choose|j: int| 0 <= j < form.len() && content_key((#[trigger] form[j]).0) == content_key(p.0);
        assert(n.patches[j] == form[j].0);
        assert(n.patches[j].sha256 is Some);
        assert(n.patches[j].sha256 == m.patches[i].sha256);
    }
}

} // verus!
