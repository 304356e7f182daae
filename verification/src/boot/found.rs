//! Laws of inspecting images.

use vstd::prelude::*;
use crate::amd::container::EquivalenceEntry;
use crate::archive::reader::{scan_of, CpioModel, ScanModel};
use crate::boot::initrd::{
    after_member, after_members, blob_of, extracted, inspect_options, scanned_image, BlobModel,
};
use crate::boot::uki::{
    certificate_table, members_ingested, part_name, section_scan, ucode_catalog, ucode_of, uki_of, PartModel,
};
use crate::bytes::{le16, le32};
use crate::catalog::collection::{normal_form, normalised, CatalogModel, Held, SourceModel};
use crate::catalog::contents::{law_catalogs_are_in_order, may_precede};
use crate::catalog::error::CatalogFault;
use crate::catalog::gather::{
    follows, has_contents, is_digested, law_blobs_add_the_same_anywhere, law_blobs_are_recorded,
    law_normalising_keeps_the_contents,
};
use crate::catalog::ingest::{format_of, ingested, IngestOptions};
use crate::catalog::law::law_normalised_has_no_copies;
use crate::digest::sha256_of;
use crate::intel::validate::IntelValidationMode;
use crate::model::cpu::Vendor;
use crate::model::limits::Limits;
use crate::number::hex_bytes;
use crate::text::{contains_text, ends_with};

verus! {

/// The member lies inside the image.
pub open spec fn is_inside(e: CpioModel, b: Seq<u8>) -> bool {
    e.data_offset + e.data_len <= b.len()
}

/// The bytes of a member.
pub open spec fn bytes_of(e: CpioModel, b: Seq<u8>) -> Seq<u8> {
    b.subrange(e.data_offset as int, e.data_offset + e.data_len)
}

/// The name is a path of the kernel's loader, or ends in one of its file names.
pub open spec fn is_loadable(name: Seq<char>) -> bool {
    ||| name == "kernel/x86/microcode/GenuineIntel.bin"@
    ||| name == "kernel/x86/microcode/AuthenticAMD.bin"@
    ||| ends_with(name, "/GenuineIntel.bin"@)
    ||| ends_with(name, "/AuthenticAMD.bin"@)
}

/// The member is a regular file of microcode inside the image.
pub open spec fn is_microcode(e: CpioModel, b: Seq<u8>) -> bool {
    e.mode & 0o170_000 == 0o100_000 && is_loadable(e.name) && is_inside(e, b)
}

/// The member is read: every one inside the image, or those of microcode only.
pub open spec fn is_read(e: CpioModel, b: Seq<u8>, only: bool) -> bool {
    if only {
        is_microcode(e, b)
    } else {
        is_inside(e, b)
    }
}

/// What a catalog that held nothing gets from the member: every vendor,
/// strictly validated, with the bytes of the patches.
pub open spec fn read_alone(e: CpioModel, b: Seq<u8>, path: Seq<char>, limits: Limits) -> Result<
    CatalogModel,
    CatalogFault,
> {
    ingested(
        CatalogModel::empty(),
        path,
        bytes_of(e, b),
        IngestOptions {
            limits,
            mode: IntelValidationMode::Strict,
            keep_payloads: true,
            recursive: false,
            tolerate_failures: true,
            only_vendor: None,
        },
    )
}

/// The numbers below `n` that a predicate picks, in order.
pub open spec fn picked(n: nat, p: spec_fn(int) -> bool) -> Seq<int> {
    Seq::new(n, |i: int| i).filter(p)
}

proof fn lemma_picked_next(n: nat, p: spec_fn(int) -> bool)
    ensures
        picked(n + 1, p) == if p(n as int) {
            picked(n, p).push(n as int)
        } else {
            picked(n, p)
        },
{
    reveal(Seq::filter);
    assert(Seq::new(n + 1, |i: int| i).drop_last() =~= Seq::new(n, |i: int| i));
}

proof fn lemma_picked_none(p: spec_fn(int) -> bool)
    ensures
        picked(0, p) == Seq::<int>::empty(),
{
    reveal(Seq::filter);
    assert(Seq::new(0, |i: int| i) =~= Seq::<int>::empty());
}

/// The catalog holds the patch with its bytes.
pub open spec fn is_held(m: CatalogModel, p: Held) -> bool {
    exists|j: int| 0 <= j < m.patches.len() && #[trigger] m.patches[j] == p.0 && m.payloads[j] == p.1
}

/// The members of an image, as they are read.
pub struct Members {
    pub entries: Seq<CpioModel>,
    pub image: Seq<u8>,
    pub paths: Seq<Seq<char>>,
    pub limits: Limits,
    /// Members that are no microcode are not read.
    pub only: bool,
}

impl Members {
    /// What the member adds, alone.
    pub open spec fn alone(self, i: int) -> Result<CatalogModel, CatalogFault> {
        read_alone(self.entries[i], self.image, self.paths[i], self.limits)
    }

    pub open spec fn reads(self, i: int) -> bool {
        is_read(self.entries[i], self.image, self.only)
    }

    /// The member is read and can be taken in.
    pub open spec fn takes(self, i: int) -> bool {
        self.reads(i) && self.alone(i) is Ok
    }

    /// The member is read and cannot be taken in.
    pub open spec fn refuses(self, i: int) -> bool {
        self.reads(i) && self.alone(i) is Err
    }

    /// The record of the member that was taken in.
    pub open spec fn record(self, i: int) -> SourceModel {
        let data = bytes_of(self.entries[i], self.image);
        SourceModel {
            path: self.paths[i],
            size: data.len() as u64,
            format: format_of(data),
            sha256: sha256_of(data),
            patch_count: (self.alone(i)->Ok_0).patches.len() as usize,
        }
    }

    /// Why the member was not taken in.
    pub open spec fn complaint(self, i: int) -> Seq<char> {
        self.entries[i].name + ": "@ + (self.alone(i)->Err_0).error_text()
    }

    /// The patch is one of the member's.
    pub open spec fn supplies(self, i: int, p: Held) -> bool {
        self.takes(i) && is_held(self.alone(i)->Ok_0, p)
    }

    /// The patch is one of some of the first `n` members.
    pub open spec fn accounts_for(self, n: nat, p: Held) -> bool {
        exists|i: int| 0 <= i < n && #[trigger] self.supplies(i, p)
    }
}

/// All that one catalog holds is in another, patch by patch with its bytes,
/// and entry by entry of the AMD table.
pub open spec fn is_part(d: CatalogModel, m: CatalogModel) -> bool {
    &&& forall|q: int|
        0 <= q < d.patches.len() ==> is_held(m, (#[trigger] d.patches[q], d.payloads[q]))
    &&& forall|q: int|
        0 <= q < d.amd_equivalence.len() ==> m.amd_equivalence.contains(#[trigger] d.amd_equivalence[q])
}

/// The catalog holds what the first `n` members supply, and nothing else.
pub open spec fn gathers(m: CatalogModel, s: Members, n: nat) -> bool {
    &&& is_digested(m)
    &&& m.failures.len() == 0
    &&& m.sources == picked(n, |i: int| s.takes(i)).map_values(|i: int| s.record(i))
    &&& forall|i: int| 0 <= i < n && #[trigger] s.takes(i) ==> is_part(s.alone(i)->Ok_0, m)
    &&& forall|j: int|
        0 <= j < m.patches.len() ==> s.accounts_for(n, (#[trigger] m.patches[j], m.payloads[j]))
}

proof fn lemma_still_held(m: CatalogModel, n: CatalogModel, a: CatalogModel, p: Held)
    requires
        is_held(m, p) || is_held(a, p),
        follows(n, m, a),
        is_digested(m),
        is_digested(a),
    ensures
        is_held(n, p),
{
    if is_held(m, p) {
        let j = choose|j: int| 0 <= j < m.patches.len() && #[trigger] m.patches[j] == p.0 && m.payloads[j] == p.1;
        assert(n.patches[j] == p.0 && n.payloads[j] == p.1);
    } else {
        let j = choose|j: int| 0 <= j < a.patches.len() && #[trigger] a.patches[j] == p.0 && a.payloads[j] == p.1;
        let k = m.patches.len() + j;
        assert(n.patches[k] == p.0 && n.payloads[k] == p.1);
    }
}

proof fn lemma_part_stays(d: CatalogModel, m: CatalogModel, n: CatalogModel, a: CatalogModel)
    requires
        is_part(d, m) || d == a,
        follows(n, m, a),
        is_digested(m),
        is_digested(a),
    ensures
        is_part(d, n),
{
    assert forall|q: int| 0 <= q < d.patches.len() implies is_held(
        n,
        (#[trigger] d.patches[q], d.payloads[q]),
    ) by {
        let p: Held = (d.patches[q], d.payloads[q]);
        if !is_part(d, m) {
            assert(a.patches[q] == p.0);
            assert(is_held(a, p));
        }
        lemma_still_held(m, n, a, p);
    }
    assert forall|q: int| 0 <= q < d.amd_equivalence.len() implies n.amd_equivalence.contains(
        #[trigger] d.amd_equivalence[q],
    ) by {
        let e: EquivalenceEntry = d.amd_equivalence[q];
        if is_part(d, m) {
            assert(m.amd_equivalence.contains(e));
            let j = choose|j: int| 0 <= j < m.amd_equivalence.len() && m.amd_equivalence[j] == e;
            assert(n.amd_equivalence[j] == e);
        } else {
            assert(n.amd_equivalence[m.amd_equivalence.len() + q] == e);
        }
    }
}

/// The catalog after one more member.
pub open spec fn one_more(m: CatalogModel, s: Members, i: int) -> CatalogModel {
    if s.reads(i) {
        match ingested(m, s.paths[i], bytes_of(s.entries[i], s.image), inspect_options(s.limits)) {
            Ok(c) => c,
            Err(_) => m,
        }
    } else {
        m
    }
}

proof fn lemma_accounted(s: Members, n: nat, p: Held)
    requires
        s.accounts_for(n, p) || s.supplies(n as int, p),
    ensures
        s.accounts_for(n + 1, p),
{
    if s.accounts_for(n, p) {
        let i = choose|i: int| 0 <= i < n && #[trigger] s.supplies(i, p);
        assert(0 <= i < n + 1 && s.supplies(i, p));
    }
}

proof fn lemma_one_taken(m: CatalogModel, c: CatalogModel, s: Members, n: nat)
    requires
        gathers(m, s, n),
        s.takes(n as int),
        follows(c, m, s.alone(n as int)->Ok_0),
        is_digested(s.alone(n as int)->Ok_0),
        (s.alone(n as int)->Ok_0).failures.len() == 0,
        (s.alone(n as int)->Ok_0).sources == seq![s.record(n as int)],
    ensures
        gathers(c, s, n + 1),
{
    let k = n as int;
    let a = s.alone(k)->Ok_0;
    let p = |i: int| s.takes(i);
    let f = |i: int| s.record(i);
    lemma_picked_next(n, p);
    assert(c.sources =~= picked(n + 1, p).map_values(f));
    assert forall|i: int| 0 <= i < n + 1 && #[trigger] s.takes(i) implies is_part(s.alone(i)->Ok_0, c) by {
        lemma_part_stays(s.alone(i)->Ok_0, m, c, a);
    }
    assert forall|j: int| 0 <= j < c.patches.len() implies s.accounts_for(
        n + 1,
        (#[trigger] c.patches[j], c.payloads[j]),
    ) by {
        let h: Held = (c.patches[j], c.payloads[j]);
        if j < m.patches.len() {
            assert(h == (m.patches[j], m.payloads[j]));
        } else {
            let q = j - m.patches.len();
            assert(a.patches[q] == h.0 && a.payloads[q] == h.1);
            assert(s.supplies(k, h));
        }
        lemma_accounted(s, n, h);
    }
    assert forall|j: int| 0 <= j < c.patches.len() implies (#[trigger] c.patches[j]).sha256 is Some by {
        if j < m.patches.len() {
            assert(c.patches[j] == m.patches[j]);
        } else {
            assert(c.patches[j] == a.patches[j - m.patches.len()]);
        }
    }
}

proof fn lemma_one_more(m: CatalogModel, s: Members, n: nat)
    requires
        gathers(m, s, n),
    ensures
        gathers(one_more(m, s, n as int), s, n + 1),
        s.reads(n as int) ==> {
            &&& s.takes(n as int) <==> ingested(
                m,
                s.paths[n as int],
                bytes_of(s.entries[n as int], s.image),
                inspect_options(s.limits),
            ) is Ok
            &&& s.refuses(n as int) ==> ingested(
                m,
                s.paths[n as int],
                bytes_of(s.entries[n as int], s.image),
                inspect_options(s.limits),
            ) == s.alone(n as int)
        },
{
    let k = n as int;
    let c = one_more(m, s, k);
    let data = bytes_of(s.entries[k], s.image);
    let opts = inspect_options(s.limits);
    law_blobs_add_the_same_anywhere(m, s.paths[k], data, opts);
    law_blobs_are_recorded(s.paths[k], data, opts);
    if s.takes(k) {
        lemma_one_taken(m, c, s, n);
    } else {
        let p = |i: int| s.takes(i);
        let f = |i: int| s.record(i);
        lemma_picked_next(n, p);
        assert(c.sources =~= picked(n + 1, p).map_values(f));
        assert forall|j: int| 0 <= j < c.patches.len() implies s.accounts_for(
            n + 1,
            (#[trigger] c.patches[j], c.payloads[j]),
        ) by {
            lemma_accounted(s, n, (m.patches[j], m.payloads[j]));
        }
    }
}

proof fn lemma_none_gathered(s: Members)
    ensures
        gathers(CatalogModel::empty(), s, 0),
{
    let p = |i: int| s.takes(i);
    let f = |i: int| s.record(i);
    lemma_picked_none(p);
    assert(picked(0, p).map_values(f) =~= Seq::<SourceModel>::empty());
}

/// What is noted of a microcode member.
pub open spec fn described(e: CpioModel, b: Seq<u8>) -> BlobModel {
    BlobModel {
        path: e.name,
        vendor: if contains_text(e.name, "GenuineIntel"@) {
            Some(Vendor::Intel)
        } else if contains_text(e.name, "AuthenticAMD"@) {
            Some(Vendor::Amd)
        } else {
            None
        },
        size: e.data_len,
        sha256: hex_bytes(sha256_of(bytes_of(e, b))),
        offset: e.data_offset,
    }
}

proof fn lemma_after_members(s: Members, n: nat)
    requires
        s.only,
        n <= s.entries.len(),
    ensures
        ({
            let st = after_members(s.entries.take(n as int), s.image, s.paths, s.limits);
            &&& gathers(st.catalog, s, n)
            &&& st.embedded == picked(n, |i: int| is_microcode(s.entries[i], s.image)).map_values(
                |i: int| described(s.entries[i], s.image),
            )
            &&& st.findings == picked(n, |i: int| s.refuses(i)).map_values(|i: int| s.complaint(i))
        }),
    decreases n,
{
    let micro = |i: int| is_microcode(s.entries[i], s.image);
    let desc = |i: int| described(s.entries[i], s.image);
    let bad = |i: int| s.refuses(i);
    let said = |i: int| s.complaint(i);
    if n == 0 {
        lemma_none_gathered(s);
        lemma_picked_none(micro);
        lemma_picked_none(bad);
        assert(s.entries.take(0).len() == 0);
        assert(picked(0, micro).map_values(desc) =~= Seq::<BlobModel>::empty());
        assert(picked(0, bad).map_values(said) =~= Seq::<Seq<char>>::empty());
    } else {
        let m = (n - 1) as nat;
        let k = n - 1;
        lemma_after_members(s, m);
        let st = after_members(s.entries.take(k), s.image, s.paths, s.limits);
        let e = s.entries[k];
        assert(s.entries.take(n as int).drop_last() =~= s.entries.take(k));
        assert(s.entries.take(n as int).last() == e);
        let next = after_members(s.entries.take(n as int), s.image, s.paths, s.limits);
        assert(next == after_member(st, e, s.image, s.paths[k], s.limits));
        assert(blob_of(e, s.image) is Some <==> micro(k));
        lemma_one_more(st.catalog, s, m);
        assert(next.catalog == one_more(st.catalog, s, k));
        lemma_picked_next(m, micro);
        lemma_picked_next(m, bad);
        assert(next.embedded =~= picked(n, micro).map_values(desc));
        assert(next.findings =~= picked(n, bad).map_values(said));
    }
}

/// A report on the archives of an image lists every microcode member in order,
/// and accounts for each: those that can be taken in are recorded as sources in
/// order, and the others each leave one finding that names the member and the
/// reason. The catalog gathers what they supply, whatever comes after them: of
/// every patch of every member that can be taken in, by digest and revision,
/// there is one, and every entry of its AMD table is there. Nothing else is in
/// it. The other figures are those of the archives and of the image.
pub proof fn law_inspection_gathers_every_member(
    scan: ScanModel,
    b: Seq<u8>,
    path: Seq<char>,
    paths: Seq<Seq<char>>,
    limits: Limits,
)
    ensures
        ({
            let r = scanned_image(scan, b, path, paths, limits);
            let s = Members { entries: scan.entries, image: b, paths, limits, only: true };
            let n = scan.entries.len();
            &&& r.path == path
            &&& r.file_size == b.len() as u64
            &&& r.has_early_cpio
            &&& r.early_end_offset == Some(scan.end_offset)
            &&& r.archive_count == scan.archive_count
            &&& r.patch_count == r.catalog.patches.len()
            &&& r.embedded == picked(n, |i: int| is_microcode(scan.entries[i], b)).map_values(
                |i: int| described(scan.entries[i], b),
            )
            &&& r.findings == picked(n, |i: int| s.refuses(i)).map_values(|i: int| s.complaint(i))
            &&& r.catalog.sources == picked(n, |i: int| s.takes(i)).map_values(|i: int| s.record(i))
            &&& is_gathered(r.catalog, s)
        }),
{
    let s = Members { entries: scan.entries, image: b, paths, limits, only: true };
    let n = scan.entries.len();
    lemma_after_members(s, n);
    assert(scan.entries.take(n as int) =~= scan.entries);
    lemma_gathered(after_members(scan.entries, b, paths, limits).catalog, s);
}

/// Of every patch of one catalog there is one in another, by digest and
/// revision, and every entry of its AMD table.
pub open spec fn is_represented(d: CatalogModel, c: CatalogModel) -> bool {
    &&& forall|q: int|
        0 <= q < d.patches.len() ==> has_contents(c, (#[trigger] d.patches[q]).sha256, d.patches[q].revision)
    &&& forall|q: int|
        0 <= q < d.amd_equivalence.len() ==> c.amd_equivalence.contains(#[trigger] d.amd_equivalence[q])
}

/// The patches stand in their order, and no contents stand there twice.
pub open spec fn is_in_order(c: CatalogModel) -> bool {
    forall|i: int, j: int|
        0 <= i < j < c.patches.len() ==> may_precede(#[trigger] c.patches[i], #[trigger] c.patches[j]) && (
        c.patches[i].sha256 != c.patches[j].sha256 || c.patches[i].revision != c.patches[j].revision)
}

proof fn lemma_in_order(m: CatalogModel)
    requires
        is_digested(normalised(m)),
    ensures
        is_in_order(normalised(m)),
{
    let c = normalised(m);
    let form = normal_form(m);
    assert forall|i: int, j: int| 0 <= i < j < c.patches.len() implies may_precede(
        #[trigger] c.patches[i],
        #[trigger] c.patches[j],
    ) && (c.patches[i].sha256 != c.patches[j].sha256 || c.patches[i].revision != c.patches[j].revision) by {
        assert(c.patches[i] == form[i].0 && c.patches[j] == form[j].0);
        law_catalogs_are_in_order(m, i, j);
        assert(c.patches[j].sha256 is Some);
        law_normalised_has_no_copies(m, i, j);
    }
}

/// The contents of all members that can be taken in are there, each once and in
/// their order, and no others.
pub open spec fn is_gathered(c: CatalogModel, s: Members) -> bool {
    &&& is_digested(c)
    &&& is_in_order(c)
    &&& c.failures.len() == 0
    &&& forall|i: int| 0 <= i < s.entries.len() && #[trigger] s.takes(i) ==> is_represented(s.alone(i)->Ok_0, c)
    &&& forall|j: int|
        0 <= j < c.patches.len() ==> s.accounts_for(
            s.entries.len(),
            (#[trigger] c.patches[j], c.payloads[j]),
        )
}

proof fn lemma_gathered(m: CatalogModel, s: Members)
    requires
        gathers(m, s, s.entries.len()),
    ensures
        is_gathered(normalised(m), s),
        normalised(m).sources == m.sources,
{
    let c = normalised(m);
    law_normalising_keeps_the_contents(m);
    lemma_in_order(m);
    assert forall|i: int| 0 <= i < s.entries.len() && #[trigger] s.takes(i) implies is_represented(
        s.alone(i)->Ok_0,
        c,
    ) by {
        let d = s.alone(i)->Ok_0;
        assert forall|q: int| 0 <= q < d.patches.len() implies has_contents(
            c,
            (#[trigger] d.patches[q]).sha256,
            d.patches[q].revision,
        ) by {
            assert(is_held(m, (d.patches[q], d.payloads[q])));
            let j = choose|j: int|
                0 <= j < m.patches.len() && #[trigger] m.patches[j] == d.patches[q] && m.payloads[j]
                    == d.payloads[q];
            assert(has_contents(c, m.patches[j].sha256, m.patches[j].revision));
        }
    }
    assert forall|j: int| 0 <= j < c.patches.len() implies s.accounts_for(
        s.entries.len(),
        (#[trigger] c.patches[j], c.payloads[j]),
    ) by {
        let k = choose|k: int|
            0 <= k < m.patches.len() && m.patches[k] == c.patches[j] && #[trigger] m.payloads[k]
                == c.payloads[j];
        assert(s.accounts_for(s.entries.len(), (m.patches[k], m.payloads[k])));
    }
}

proof fn lemma_members_gathered(s: Members, n: nat)
    requires
        !s.only,
        n <= s.entries.len(),
    ensures
        gathers(members_ingested(s.entries.take(n as int), s.image, s.paths, s.limits), s, n),
    decreases n,
{
    if n == 0 {
        lemma_none_gathered(s);
        assert(s.entries.take(0).len() == 0);
    } else {
        let m = (n - 1) as nat;
        let k = n - 1;
        lemma_members_gathered(s, m);
        assert(s.entries.take(n as int).drop_last() =~= s.entries.take(k));
        assert(s.entries.take(n as int).last() == s.entries[k]);
        let front = members_ingested(s.entries.take(k), s.image, s.paths, s.limits);
        lemma_one_more(front, s, m);
        assert(members_ingested(s.entries.take(n as int), s.image, s.paths, s.limits) == one_more(
            front,
            s,
            k,
        ));
    }
}

/// The catalog of a section that is made of archives gathers what its members
/// supply, whatever their names are and whatever comes after them; members that
/// cannot be taken in are passed over.
pub proof fn law_sections_gather_every_member(
    ucode: Seq<u8>,
    scan: ScanModel,
    paths: Seq<Seq<char>>,
    whole: Seq<char>,
    limits: Limits,
)
    ensures
        ({
            let s = Members { entries: scan.entries, image: ucode, paths, limits, only: false };
            &&& ucode_catalog(ucode, Some(scan), paths, whole, limits) is Ok
            &&& (ucode_catalog(ucode, Some(scan), paths, whole, limits)->Ok_0).sources == picked(
                scan.entries.len(),
                |i: int| s.takes(i),
            ).map_values(|i: int| s.record(i))
            &&& is_gathered(ucode_catalog(ucode, Some(scan), paths, whole, limits)->Ok_0, s)
        }),
{
    let s = Members { entries: scan.entries, image: ucode, paths, limits, only: false };
    let n = scan.entries.len();
    lemma_members_gathered(s, n);
    assert(scan.entries.take(n as int) =~= scan.entries);
    lemma_gathered(members_ingested(scan.entries, ucode, paths, limits), s);
}

/// Extraction hands out the members of microcode with their bytes, in order.
pub proof fn law_extraction_hands_out_every_member(entries: Seq<CpioModel>, b: Seq<u8>)
    ensures
        extracted(entries, b) == entries.filter(
            |e: CpioModel| is_loadable(e.name) && is_inside(e, b),
        ).map_values(|e: CpioModel| (e.name, bytes_of(e, b))),
    decreases entries.len(),
{
    reveal(Seq::filter);
    let p = |e: CpioModel| is_loadable(e.name) && is_inside(e, b);
    let f = |e: CpioModel| (e.name, bytes_of(e, b));
    if entries.len() > 0 {
        law_extraction_hands_out_every_member(entries.drop_last(), b);
        let front = entries.drop_last().filter(p);
        assert(front.push(entries.last()).map_values(f) =~= front.map_values(f).push(f(entries.last())));
    } else {
        assert(entries.filter(p).map_values(f) =~= Seq::empty());
    }
}

// --- unified kernel images ----------------------------------------------------------

/// The section is named `.ucode` and has readable bytes.
pub open spec fn is_ucode(p: PartModel) -> bool {
    p.0 == Some(".ucode"@) && p.2 is Some
}

/// The microcode of an image is that of its last readable section of the name,
/// and there is none without one.
pub proof fn law_the_last_section_counts(parts: Seq<PartModel>)
    ensures
        ucode_of(parts) is None <==> forall|i: int| 0 <= i < parts.len() ==> !is_ucode(#[trigger] parts[i]),
        ucode_of(parts) is Some ==> exists|i: int|
            0 <= i < parts.len() && is_ucode(#[trigger] parts[i]) && ucode_of(parts) == parts[i].2 && forall|j: int|
                i < j < parts.len() ==> !is_ucode(#[trigger] parts[j]),
    decreases parts.len(),
{
    reveal_strlit("<unnamed>");
    reveal_strlit(".ucode");
    assert("<unnamed>"@[0] != ".ucode"@[0]);
    if parts.len() > 0 {
        let front = parts.drop_last();
        let n = parts.len() - 1;
        law_the_last_section_counts(front);
        assert(is_ucode(parts[n]) <==> part_name(parts.last()) == ".ucode"@ && parts.last().2 is Some);
        if is_ucode(parts[n]) {
            assert(ucode_of(parts) == parts[n].2);
        } else {
            assert forall|i: int| 0 <= i < front.len() implies #[trigger] parts[i] == front[i] by {}
            if ucode_of(front) is Some {
                let i = choose|i: int|
                    0 <= i < front.len() && is_ucode(#[trigger] front[i]) && ucode_of(front) == front[i].2
                        && forall|j: int| i < j < front.len() ==> !is_ucode(#[trigger] front[j]);
                assert(is_ucode(parts[i]));
                assert forall|j: int| i < j < parts.len() implies !is_ucode(#[trigger] parts[j]) by {
                    if j < n {
                        assert(parts[j] == front[j]);
                    }
                }
            } else {
                assert forall|i: int| 0 <= i < parts.len() implies !is_ucode(#[trigger] parts[i]) by {
                    if i < n {
                        assert(!is_ucode(front[i]));
                    }
                }
            }
        }
    }
}

/// A report on an image lists all its sections in order, tells its microcode
/// section by size and digest, and holds the patches of that section: of its
/// archives where it starts with one, and else of the blob that it is. Without a
/// section, or with one that is neither, it holds none and says so.
pub proof fn law_sections_are_reported(
    parts: Seq<PartModel>,
    scan: Option<ScanModel>,
    b: Seq<u8>,
    path: Seq<char>,
    paths: Seq<Seq<char>>,
    whole: Seq<char>,
    limits: Limits,
)
    ensures
        ({
            let r = uki_of(parts, scan, b, path, paths, whole, limits);
            let ucode = ucode_of(parts);
            let alone = ingested(CatalogModel::empty(), whole, ucode->0, inspect_options(limits));
            &&& r.path == path
            &&& r.file_size == b.len() as u64
            &&& r.is_pe
            &&& r.patch_count == r.catalog.patches.len()
            &&& r.sections.len() == parts.len()
            &&& forall|i: int|
                0 <= i < parts.len() ==> {
                    let s = #[trigger] r.sections[i];
                    &&& s.name == (match parts[i].0 {
                        Some(n) => n,
                        None => "<unnamed>"@,
                    })
                    &&& s.size == parts[i].1
                    &&& s.sha256 is Some <==> parts[i].2 is Some
                    &&& parts[i].2 matches Some(d) ==> s.sha256 == Some(hex_bytes(sha256_of(d)))
                }
            &&& r.has_ucode_section <==> ucode is Some
            &&& ucode is None ==> {
                &&& r.ucode_size is None
                &&& r.ucode_sha256 is None
                &&& r.catalog == CatalogModel::empty()
                &&& r.findings == seq!["no .ucode section present"@]
            }
            &&& ucode matches Some(d) ==> {
                &&& r.ucode_size == Some(d.len() as u64)
                &&& r.ucode_sha256 == Some(hex_bytes(sha256_of(d)))
                &&& scan is Some ==> r.findings.len() == 0 && r.catalog == ucode_catalog(
                    d,
                    scan,
                    paths,
                    whole,
                    limits,
                )->Ok_0
                &&& scan is None && alone is Ok ==> r.findings.len() == 0 && r.catalog == normalised(alone->Ok_0)
                &&& scan is None && alone is Err ==> r.findings.len() == 1 && r.catalog == CatalogModel::empty()
            }
        }),
{
}

/// An image is signed exactly if its headers are those of an image of 32 or 64
/// bits and the certificate entry of its directory has an address and a size.
pub proof fn law_signed_images_have_a_certificate_table(b: Seq<u8>)
    ensures
        certificate_table(b) ==> b.len() >= 0x40 && ({
            let pe = le32(b, 0x3c) as int;
            let kind = le16(b, pe + 24);
            let entry = pe + 24 + (if kind == 0x10b {
                128int
            } else {
                144int
            });
            &&& b.len() >= entry + 8
            &&& b[pe] == 0x50 && b[pe + 1] == 0x45 && b[pe + 2] == 0 && b[pe + 3] == 0
            &&& kind == 0x10b || kind == 0x20b
            &&& le32(b, entry) != 0
            &&& le32(b, entry + 4) != 0
        }),
        ({
            let pe = le32(b, 0x3c) as int;
            let kind = le16(b, pe + 24);
            let entry = pe + 24 + (if kind == 0x10b {
                128int
            } else {
                144int
            });
            &&& b.len() >= 0x40
            &&& b.len() >= entry + 8
            &&& b[pe] == 0x50 && b[pe + 1] == 0x45 && b[pe + 2] == 0 && b[pe + 3] == 0
            &&& kind == 0x10b || kind == 0x20b
            &&& le32(b, entry) != 0
            &&& le32(b, entry + 4) != 0
        }) ==> certificate_table(b),
{
    let pe = le32(b, 0x3c) as int;
    let sig = seq![0x50u8, 0x45u8, 0u8, 0u8];
    if b.len() >= pe + 4 {
        assert(b.subrange(pe, pe + 4)[0] == b[pe]);
        assert(b.subrange(pe, pe + 4)[1] == b[pe + 1]);
        assert(b.subrange(pe, pe + 4)[2] == b[pe + 2]);
        assert(b.subrange(pe, pe + 4)[3] == b[pe + 3]);
        assert(sig[0] == 0x50 && sig[1] == 0x45 && sig[2] == 0 && sig[3] == 0);
        if b[pe] == 0x50 && b[pe + 1] == 0x45 && b[pe + 2] == 0 && b[pe + 3] == 0 {
            assert(b.subrange(pe, pe + 4) =~= sig);
        }
    }
}

/// What is reported of an image is what its last section of the name holds: of
/// archives what their members supply, and of anything else, archives that are
/// broken among it, what it supplies as one blob under its own path, or why it
/// supplies nothing.
pub proof fn law_images_report_their_section(
    parts: Seq<PartModel>,
    k: int,
    b: Seq<u8>,
    path: Seq<char>,
    paths: Seq<Seq<char>>,
    whole: Seq<char>,
    limits: Limits,
)
    requires
        0 <= k < parts.len(),
        is_ucode(parts[k]),
        forall|j: int| k < j < parts.len() ==> !is_ucode(#[trigger] parts[j]),
    ensures
        ({
            let d = parts[k].2->0;
            let r = uki_of(parts, section_scan(parts, limits), b, path, paths, whole, limits);
            let blob = ingested(CatalogModel::empty(), whole, d, inspect_options(limits));
            match scan_of(d, limits) {
                Ok(Some(scan)) => {
                    let s = Members { entries: scan.entries, image: d, paths, limits, only: false };
                    &&& r.findings.len() == 0
                    &&& r.catalog.sources == picked(scan.entries.len(), |i: int| s.takes(i)).map_values(
                        |i: int| s.record(i),
                    )
                    &&& is_gathered(r.catalog, s)
                },
                _ => match blob {
                    Ok(c) => r.findings.len() == 0 && r.catalog.sources == c.sources && forall|i: int|
                        0 <= i < c.patches.len() ==> has_contents(
                            r.catalog,
                            (#[trigger] c.patches[i]).sha256,
                            c.patches[i].revision,
                        ),
                    Err(_) => r.findings.len() == 1 && r.catalog.patches.len() == 0,
                },
            }
        }),
{
    law_the_last_section_counts(parts);
    let i = choose|i: int|
        0 <= i < parts.len() && is_ucode(#[trigger] parts[i]) && ucode_of(parts) == parts[i].2 && forall|j: int|
            i < j < parts.len() ==> !is_ucode(#[trigger] parts[j]);
    assert(i == k);
    let d = parts[k].2->0;
    if let Ok(Some(scan)) = scan_of(d, limits) {
        law_sections_gather_every_member(d, scan, paths, whole, limits);
    } else if let Ok(c) = ingested(CatalogModel::empty(), whole, d, inspect_options(limits)) {
        law_blobs_add_the_same_anywhere(CatalogModel::empty(), whole, d, inspect_options(limits));
        law_normalising_keeps_the_contents(c);
    }
}

} // verus!
