//! Bundles made of updates read back as those updates.

use vstd::prelude::*;
use crate::digest::sha256_of;
use crate::intel::bundle::{
    bundle_from, bundle_of, checked_entry, entry_at, extended_of, fits, in_place,
    law_bundle_layout, EntryModel,
};
use crate::intel::error::IntelFault;
use crate::intel::header::{
    lemma_header_skip, IntelExtendedSignature, IntelHeader, EXTENDED_TABLE_HEADER_SIZE, HEADER_SIZE,
};
use crate::intel::validate::{
    balance_findings, checksum_findings, date_findings, entry_report, field_findings,
    identity_findings, primary_sum_of, repeat_findings, size_findings, table_findings,
    truncation, type_findings, IntelValidationMode,
};
use crate::model::limits::Limits;
use crate::model::validate::{any_error, FindingModel, Severity};

verus! {

// --- where an update stands does not matter ---------------------------------------------

/// The two reports have findings of the same severities.
pub open spec fn same_grades(a: Seq<FindingModel>, b: Seq<FindingModel>) -> bool {
    a.len() == b.len() && forall|i: int|
        0 <= i < a.len() ==> (#[trigger] a[i]).severity == b[i].severity
}

proof fn lemma_same_errors(a: Seq<FindingModel>, b: Seq<FindingModel>)
    requires
        same_grades(a, b),
        any_error(b),
    ensures
        any_error(a),
{
    let i = choose|i: int|
        0 <= i < b.len() && (#[trigger] b[i]).severity == Severity::Error;
    assert(a[i].severity == b[i].severity);
}

proof fn lemma_join_grades(
    a: Seq<FindingModel>,
    b: Seq<FindingModel>,
    c: Seq<FindingModel>,
    d: Seq<FindingModel>,
)
    requires
        same_grades(a, b),
        same_grades(c, d),
    ensures
        same_grades(a + c, b + d),
{
    assert forall|i: int| 0 <= i < (a + c).len() implies (#[trigger] (a + c)[i]).severity == (b
        + d)[i].severity by {
        if i < a.len() {
            assert((a + c)[i] == a[i]);
        } else {
            assert((a + c)[i] == c[i - a.len()]);
        }
    }
}

proof fn lemma_join_five(
    a: Seq<FindingModel>,
    b: Seq<FindingModel>,
    f: Seq<FindingModel>,
    g: Seq<FindingModel>,
    c: Seq<FindingModel>,
    d: Seq<FindingModel>,
    p: Seq<FindingModel>,
    q: Seq<FindingModel>,
    m: Seq<FindingModel>,
    n: Seq<FindingModel>,
    i: Seq<FindingModel>,
    j: Seq<FindingModel>,
)
    requires
        same_grades(a, b),
        same_grades(f, g),
        same_grades(c, d),
        same_grades(p, q),
        same_grades(m, n),
        same_grades(i, j),
    ensures
        same_grades(a + f + c + p + m + i, b + g + d + q + n + j),
{
    lemma_join_grades(a, b, f, g);
    lemma_join_grades(a + f, b + g, c, d);
    lemma_join_grades(a + f + c, b + g + d, p, q);
    lemma_join_grades(a + f + c + p, b + g + d + q, m, n);
    lemma_join_grades(a + f + c + p + m, b + g + d + q + n, i, j);
}

proof fn lemma_balance_grades(
    h: IntelHeader,
    ext: Seq<IntelExtendedSignature>,
    sum: u32,
    s: int,
    t: int,
    n: nat,
)
    ensures
        same_grades(balance_findings(h, ext, sum, s, n), balance_findings(h, ext, sum, t, n)),
    decreases n,
{
    if n > 0 {
        lemma_balance_grades(h, ext, sum, s, t, (n - 1) as nat);
    }
}

proof fn lemma_repeat_grades(
    h: IntelHeader,
    ext: Seq<IntelExtendedSignature>,
    s: int,
    t: int,
    n: nat,
)
    ensures
        same_grades(repeat_findings(h, ext, s, n), repeat_findings(h, ext, t, n)),
    decreases n,
{
    if n > 0 {
        lemma_repeat_grades(h, ext, s, t, (n - 1) as nat);
    }
}

proof fn lemma_table_grades(
    entry: Seq<u8>,
    h: IntelHeader,
    ext: Seq<IntelExtendedSignature>,
    off: int,
    x: int,
    y: int,
)
    ensures
        same_grades(table_findings(entry, h, ext, off, x), table_findings(entry, h, ext, off, y)),
{
    let sum = primary_sum_of(entry, h);
    let s = x + off + EXTENDED_TABLE_HEADER_SIZE;
    let t = y + off + EXTENDED_TABLE_HEADER_SIZE;
    lemma_balance_grades(h, ext, sum, s, t, ext.len());
    lemma_repeat_grades(h, ext, s, t, ext.len());
}

proof fn lemma_type_grades(h: IntelHeader, x: int, y: int)
    ensures
        same_grades(type_findings(h, x), type_findings(h, y)),
{
}

proof fn lemma_size_grades(h: IntelHeader, x: int, y: int)
    ensures
        same_grades(size_findings(h, x), size_findings(h, y)),
{
}

proof fn lemma_field_grades(h: IntelHeader, x: int, y: int)
    ensures
        same_grades(field_findings(h, x), field_findings(h, y)),
{
}

proof fn lemma_checksum_grades(entry: Seq<u8>, h: IntelHeader, x: int, y: int)
    ensures
        same_grades(checksum_findings(entry, h, x), checksum_findings(entry, h, y)),
{
}

proof fn lemma_date_grades(h: IntelHeader, x: int, y: int)
    ensures
        same_grades(date_findings(h, x), date_findings(h, y)),
{
}

proof fn lemma_identity_grades(h: IntelHeader, x: int, y: int)
    ensures
        same_grades(identity_findings(h, x), identity_findings(h, y)),
{
}

/// The findings on the extended table, none where there is no table.
spec fn findings_on_table(
    entry: Seq<u8>,
    h: IntelHeader,
    ext: Seq<IntelExtendedSignature>,
    base: int,
) -> Seq<FindingModel> {
    match h.table_offset() {
        Some(off) => table_findings(entry, h, ext, off as int, base),
        None => Seq::empty(),
    }
}

/// Validation finds the same faults wherever an entry stands.
proof fn lemma_report_grades(
    entry: Seq<u8>,
    h: IntelHeader,
    ext: Seq<IntelExtendedSignature>,
    x: int,
    y: int,
)
    ensures
        same_grades(entry_report(entry, h, ext, x), entry_report(entry, h, ext, y)),
{
    let (t, u) = (type_findings(h, x), type_findings(h, y));
    let (s, v) = (size_findings(h, x), size_findings(h, y));
    assert(same_grades(t + s, u + v)) by {
        lemma_type_grades(h, x, y);
        lemma_size_grades(h, x, y);
        lemma_join_grades(t, u, s, v);
    }
    if entry.len() != h.total() {
        let p = seq![truncation(entry.len() as int, h, x)];
        let q = seq![truncation(entry.len() as int, h, y)];
        lemma_join_grades(t + s, u + v, p, q);
        assert((t + s).push(p[0]) =~= t + s + p);
        assert((u + v).push(q[0]) =~= u + v + q);
    } else {
        lemma_body_grades(entry, h, ext, t + s, u + v, x, y);
    }
}

proof fn lemma_body_grades(
    entry: Seq<u8>,
    h: IntelHeader,
    ext: Seq<IntelExtendedSignature>,
    a: Seq<FindingModel>,
    b: Seq<FindingModel>,
    x: int,
    y: int,
)
    requires
        same_grades(a, b),
    ensures
        same_grades(
            a + field_findings(h, x) + checksum_findings(entry, h, x) + findings_on_table(
                entry,
                h,
                ext,
                x,
            ) + date_findings(h, x) + identity_findings(h, x),
            b + field_findings(h, y) + checksum_findings(entry, h, y) + findings_on_table(
                entry,
                h,
                ext,
                y,
            ) + date_findings(h, y) + identity_findings(h, y),
        ),
{
    let (f, g) = (field_findings(h, x), field_findings(h, y));
    let (c, d) = (checksum_findings(entry, h, x), checksum_findings(entry, h, y));
    let (p, q) = (findings_on_table(entry, h, ext, x), findings_on_table(entry, h, ext, y));
    let (m, n) = (date_findings(h, x), date_findings(h, y));
    let (i, j) = (identity_findings(h, x), identity_findings(h, y));
    assert(same_grades(f, g)) by {
        lemma_field_grades(h, x, y);
    }
    assert(same_grades(c, d)) by {
        lemma_checksum_grades(entry, h, x, y);
    }
    assert(same_grades(p, q)) by {
        if let Some(off) = h.table_offset() {
            lemma_table_grades(entry, h, ext, off as int, x, y);
        }
    }
    assert(same_grades(m, n)) by {
        lemma_date_grades(h, x, y);
    }
    assert(same_grades(i, j)) by {
        lemma_identity_grades(h, x, y);
    }
    lemma_join_five(a, b, f, g, c, d, p, q, m, n, i, j);
}

// --- updates ----------------------------------------------------------------------------

/// The bytes are one update of the size that its header declares, and strict
/// parsing accepts it.
pub open spec fn is_update(p: Seq<u8>, limits: Limits) -> bool {
    &&& HEADER_SIZE <= p.len() <= limits.max_patch_bytes
    &&& IntelHeader::at(p, 0).total() == p.len()
    &&& checked_entry(p, 0, IntelValidationMode::Strict, limits) is Ok
}

/// Updates one behind the other.
pub open spec fn concatenated(ps: Seq<Seq<u8>>) -> Seq<u8>
    decreases ps.len(),
{
    if ps.len() == 0 {
        Seq::empty()
    } else {
        concatenated(ps.drop_last()) + ps.last()
    }
}

/// Where an update starts.
pub open spec fn start_of(ps: Seq<Seq<u8>>, i: int) -> int {
    concatenated(ps.take(i)).len() as int
}

/// What an update is in a bundle.
pub open spec fn stands_for(e: EntryModel, p: Seq<u8>, at: int, limits: Limits) -> bool {
    &&& e.offset == at
    &&& e.size == p.len()
    &&& e.header == IntelHeader::at(p, 0)
    &&& extended_of(p, e.header, limits) == Ok::<_, IntelFault>(e.extended_signatures)
    &&& e.sha256 == sha256_of(p)
    &&& !any_error(e.report)
}

pub proof fn lemma_concatenated(ps: Seq<Seq<u8>>, i: int)
    requires
        0 <= i < ps.len(),
    ensures
        start_of(ps, i + 1) == start_of(ps, i) + ps[i].len(),
        start_of(ps, i + 1) <= concatenated(ps).len(),
        concatenated(ps).subrange(start_of(ps, i), start_of(ps, i + 1)) == ps[i],
    decreases ps.len(),
{
    let b = concatenated(ps);
    assert(ps.take(i + 1).drop_last() =~= ps.take(i));
    assert(ps.take(i + 1).last() == ps[i]);
    if i == ps.len() - 1 {
        assert(ps.take(i + 1) =~= ps);
        assert(ps.drop_last() =~= ps.take(i));
        assert(b.subrange(start_of(ps, i), b.len() as int) =~= ps[i]);
    } else {
        let front = ps.drop_last();
        lemma_concatenated(front, i);
        assert(front.take(i) =~= ps.take(i));
        assert(front.take(i + 1) =~= ps.take(i + 1));
        assert(b.subrange(start_of(ps, i), start_of(ps, i + 1)) =~= concatenated(front).subrange(
            start_of(ps, i),
            start_of(ps, i + 1),
        ));
    }
}

/// An update is accepted wherever it stands.
proof fn lemma_update_in_place(b: Seq<u8>, off: int, p: Seq<u8>, limits: Limits)
    requires
        0 <= off,
        off + p.len() <= b.len() <= u64::MAX,
        b.subrange(off, off + p.len()) == p,
        is_update(p, limits),
    ensures
        fits(b, off, limits),
        IntelHeader::at(b, off).total() == p.len(),
        checked_entry(b, off, IntelValidationMode::Strict, limits) matches Ok(e) && stands_for(
            e,
            p,
            off,
            limits,
        ),
{
    reveal(checked_entry);
    lemma_header_skip(b, off, off + p.len());
    let h = IntelHeader::at(p, 0);
    assert(p.subrange(0, p.len() as int) =~= p);
    let ext = extended_of(p, h, limits)->Ok_0;
    lemma_report_grades(p, h, ext, 0, off);
    let e = entry_at(b, off, ext);
    if any_error(e.report) {
        lemma_same_errors(entry_report(p, h, ext, 0), e.report);
    }
}

proof fn lemma_rest_of_bundle(
    ps: Seq<Seq<u8>>,
    i: int,
    limits: Limits,
    entries: Seq<EntryModel>,
)
    requires
        0 <= i <= ps.len(),
        forall|k: int| 0 <= k < ps.len() ==> is_update(#[trigger] ps[k], limits),
        concatenated(ps).len() <= u64::MAX,
        entries.len() == i,
        ps.len() <= limits.max_patches,
        forall|k: int|
            0 <= k < i ==> stands_for(#[trigger] entries[k], ps[k], start_of(ps, k), limits),
    ensures
        bundle_from(
            concatenated(ps),
            start_of(ps, i),
            IntelValidationMode::Strict,
            limits,
            entries,
            Seq::empty(),
        ) matches Ok((all, report)) && report.len() == 0 && all.len() == ps.len() && forall|k: int|
            0 <= k < ps.len() ==> stands_for(#[trigger] all[k], ps[k], start_of(ps, k), limits),
    decreases ps.len() - i,
{
    let b = concatenated(ps);
    let off = start_of(ps, i);
    if i < ps.len() {
        lemma_concatenated(ps, i);
        assert(is_update(ps[i], limits));
        lemma_update_in_place(b, off, ps[i], limits);
        let e = checked_entry(b, off, IntelValidationMode::Strict, limits)->Ok_0;
        let more = entries.push(e);
        assert forall|k: int| 0 <= k < i + 1 implies stands_for(
            #[trigger] more[k],
            ps[k],
            start_of(ps, k),
            limits,
        ) by {
            if k < i {
                assert(more[k] == entries[k]);
            }
        }
        lemma_rest_of_bundle(ps, i + 1, limits, more);
    } else {
        assert(ps.take(i) =~= ps);
    }
}

/// Updates written one behind the other read back: strict parsing finds each
/// of them, where it was put, with its header, its extended signatures and
/// the digest of its bytes, and reports nothing.
pub proof fn law_concatenated_updates_read_back(ps: Seq<Seq<u8>>, limits: Limits)
    requires
        0 < ps.len() <= limits.max_patches,
        concatenated(ps).len() <= limits.max_blob_bytes,
        forall|k: int| 0 <= k < ps.len() ==> is_update(#[trigger] ps[k], limits),
    ensures
        bundle_of(concatenated(ps), IntelValidationMode::Strict, limits) matches Ok(bundle)
            && bundle.report.len() == 0 && bundle.entries.len() == ps.len() && forall|k: int|
            0 <= k < ps.len() ==> stands_for(
                #[trigger] bundle.entries[k],
                ps[k],
                start_of(ps, k),
                limits,
            ),
{
    assert(ps.take(0) =~= Seq::empty());
    lemma_rest_of_bundle(ps, 0, limits, Seq::empty());
}

/// The report on the bytes of a sound entry has no errors wherever they stand.
proof fn lemma_sound_anywhere(b: Seq<u8>, e: EntryModel, limits: Limits)
    requires
        in_place(b, e, limits),
        !any_error(e.report),
    ensures
        ({
            let p = b.subrange(e.offset as int, e.offset + e.size);
            &&& IntelHeader::at(p, 0) == e.header
            &&& !any_error(entry_report(p, e.header, e.extended_signatures, 0))
        }),
{
    let off = e.offset as int;
    let p = b.subrange(off, off + e.size);
    lemma_header_skip(b, off, off + e.size);
    let here = entry_report(p, e.header, e.extended_signatures, 0);
    lemma_report_grades(p, e.header, e.extended_signatures, off, 0);
    if any_error(here) {
        lemma_same_errors(e.report, here);
    }
}

/// Bytes with a sound report are an update.
proof fn lemma_sound_is_update(
    p: Seq<u8>,
    ext: Seq<IntelExtendedSignature>,
    limits: Limits,
)
    requires
        HEADER_SIZE <= p.len() <= limits.max_patch_bytes,
        IntelHeader::at(p, 0).total() == p.len(),
        extended_of(p, IntelHeader::at(p, 0), limits) == Ok::<_, IntelFault>(ext),
        !any_error(entry_report(p, IntelHeader::at(p, 0), ext, 0)),
    ensures
        is_update(p, limits),
{
    reveal(checked_entry);
    assert(p.subrange(0, p.len() as int) =~= p);
}

/// Every entry of a strictly parsed bundle is an update by itself, so that any
/// choice of them can be written out again.
pub proof fn law_entries_are_updates(b: Seq<u8>, limits: Limits, i: int)
    requires
        bundle_of(b, IntelValidationMode::Strict, limits) is Ok,
        0 <= i < (bundle_of(b, IntelValidationMode::Strict, limits)->Ok_0).entries.len(),
    ensures
        ({
            let e = (bundle_of(b, IntelValidationMode::Strict, limits)->Ok_0).entries[i];
            is_update(b.subrange(e.offset as int, e.offset + e.size), limits)
        }),
{
    let strict = IntelValidationMode::Strict;
    law_bundle_layout(b, strict, limits);
    let e = (bundle_of(b, strict, limits)->Ok_0).entries[i];
    assert(in_place(b, e, limits) && !any_error(e.report));
    lemma_sound_anywhere(b, e, limits);
    lemma_sound_is_update(
        b.subrange(e.offset as int, e.offset + e.size),
        e.extended_signatures,
        limits,
    );
}

// --- limits -----------------------------------------------------------------------------

/// A parsed bundle is within the limits: in its size, in the number and sizes
/// of its updates, and in the number of their extended signatures.
pub proof fn law_bundles_honour_limits(b: Seq<u8>, mode: IntelValidationMode, limits: Limits)
    requires
        bundle_of(b, mode, limits) is Ok,
    ensures
        ({
            let bundle = bundle_of(b, mode, limits)->Ok_0;
            &&& b.len() <= limits.max_blob_bytes
            &&& bundle.entries.len() <= limits.max_patches
            &&& forall|i: int|
                0 <= i < bundle.entries.len() ==> (#[trigger] bundle.entries[i]).size
                    <= limits.max_patch_bytes && bundle.entries[i].extended_signatures.len()
                    <= limits.max_signatures_per_patch
        }),
{
    law_bundle_layout(b, mode, limits);
    let bundle = bundle_of(b, mode, limits)->Ok_0;
    assert forall|i: int| 0 <= i < bundle.entries.len() implies (
    #[trigger] bundle.entries[i]).size <= limits.max_patch_bytes
        && bundle.entries[i].extended_signatures.len() <= limits.max_signatures_per_patch by {
        assert(in_place(b, bundle.entries[i], limits));
    }
}

} // verus!
