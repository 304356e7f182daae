//! Laws of what is read from Intel bundles.

use vstd::prelude::*;
use vstd::utf8::encode_utf8;
use crate::bytes::{le32, lemma_le32_part};
use crate::digest::sha256_of;
use crate::intel::bundle::{
    bundle_of, has_pair, in_place, laid_out, law_bundle_layout, law_pairs_are_complete_and_distinct, pairs, EntryModel,
};
use crate::intel::dat::{dat_bytes, dat_lines, tokens_of, uncommented, word_of, words_of};
use crate::intel::error::IntelFault;
use crate::intel::header::{dword_sum_of, IntelExtendedSignature, IntelHeader};
use crate::intel::validate::{
    balance_findings, balanced, checksum_findings, date_findings, entry_report, field_findings, given,
    identity_findings, primary_sum_of, repeat_findings, repeated, size_findings, table_findings, truncation, type_findings,
    IntelValidationMode,
};
use crate::model::cpu::{CpuSignature, PlatformMask, Vendor};
use crate::model::date::UcodeDate;
use crate::model::law::{lemma_reports_both, lemma_reports_one, reports};
use crate::model::limits::Limits;
use crate::model::patch::{HeaderKind, ProcessorMatch, RuntimeUpdatePolicy};
use crate::model::validate::{any_error, finding, FindingCode, FindingModel};
use crate::number::{dec, hex, read_digits};
use crate::text::{
    contains_text, find_from, find_text, lemma_find_from, lines_text, occurs_at, starts_with, trim_text,
};

verus! {

// --- entries ------------------------------------------------------------------------

/// The size that a field gives, or the default that zero stands for.
pub open spec fn size_or(field: u32, default: u32) -> u32 {
    if field == 0 {
        default
    } else {
        field
    }
}

/// The entry is what stands in the blob at its offset: the fields of its
/// header, the size that they give, and the digest of its bytes.
pub open spec fn is_entry(e: EntryModel, b: Seq<u8>) -> bool {
    let at = e.offset as int;
    &&& e.header.header_type == le32(b, at)
    &&& e.header.revision == le32(b, at + 4)
    &&& e.header.date_raw == le32(b, at + 8)
    &&& e.header.signature == CpuSignature(le32(b, at + 12))
    &&& e.header.checksum == le32(b, at + 16)
    &&& e.header.loader_revision == le32(b, at + 20)
    &&& e.header.platform_mask == PlatformMask(le32(b, at + 24))
    &&& e.header.metadata_size == le32(b, at + 36)
    &&& e.header.min_required_revision == le32(b, at + 40)
    &&& e.header.reserved == le32(b, at + 44)
    &&& e.size == size_or(le32(b, at + 32), 2048)
    &&& at + e.size <= b.len()
    &&& e.sha256 == sha256_of(b.subrange(at, at + e.size))
}

/// The extended signatures are those of the table behind the data, where there
/// is room for its header and for all that it counts.
pub open spec fn has_extended(e: EntryModel, b: Seq<u8>) -> bool {
    let data = size_or(le32(b, e.offset + 28), 2000) as int;
    let at = e.offset + 48 + data;
    let count = le32(b, at) as int;
    if 48 + data + 20 <= e.size && 48 + data + 20 + 12 * count <= e.size {
        &&& e.extended_signatures.len() == count
        &&& forall|k: int|
            0 <= k < count ==> {
                let x = #[trigger] e.extended_signatures[k];
                &&& x.signature == CpuSignature(le32(b, at + 20 + 12 * k))
                &&& x.platform_mask == PlatformMask(le32(b, at + 24 + 12 * k))
                &&& x.checksum == le32(b, at + 28 + 12 * k)
            }
    } else {
        e.extended_signatures.len() == 0
    }
}

proof fn lemma_extended(b: Seq<u8>, e: EntryModel, limits: Limits)
    requires
        in_place(b, e, limits),
    ensures
        has_extended(e, b),
{
    let start = e.offset as int;
    let end = e.offset + e.size;
    let body = b.subrange(start, end);
    let data = size_or(le32(b, e.offset + 28), 2000) as int;
    let off = 48 + data;
    lemma_le32_part(b, start, end);
    assert(e.header.data() == data);
    if 48 + data + 20 <= e.size {
        assert(e.header.table_offset() == Some(off as u32));
        assert(le32(body, off) == le32(b, start + off));
        let count = le32(body, off) as int;
        if off + 20 + 12 * count <= e.size && count > 0 {
            assert(e.extended_signatures.len() == count);
            assert forall|k: int| 0 <= k < count implies {
                let x = #[trigger] e.extended_signatures[k];
                &&& x.signature == CpuSignature(le32(b, start + 48 + data + 20 + 12 * k))
                &&& x.platform_mask == PlatformMask(le32(b, start + 48 + data + 24 + 12 * k))
                &&& x.checksum == le32(b, start + 48 + data + 28 + 12 * k)
            } by {
                let at = off + 20 + 12 * k;
                assert(e.extended_signatures[k] == IntelExtendedSignature::at(body, at));
                assert(le32(body, at) == le32(b, start + at));
                assert(le32(body, at + 4) == le32(b, start + (at + 4)));
                assert(le32(body, at + 8) == le32(b, start + (at + 8)));
            }
        }
    }
}

/// Every entry of a bundle is what stands in the blob at its offset, with the
/// extended signatures that are there. Strict parsing goes from the start of
/// the blob from one entry to the next without a gap, and leaves less than a
/// header behind the last; none of its entries has an error.
pub proof fn law_entries_are_read_from_the_blob(b: Seq<u8>, mode: IntelValidationMode, limits: Limits, i: int)
    requires
        bundle_of(b, mode, limits) is Ok,
        0 <= i < (bundle_of(b, mode, limits)->Ok_0).entries.len(),
    ensures
        ({
            let entries = (bundle_of(b, mode, limits)->Ok_0).entries;
            let e = entries[i];
            let before = if i == 0 {
                0int
            } else {
                entries[i - 1].offset + entries[i - 1].size
            };
            &&& is_entry(e, b)
            &&& has_extended(e, b)
            &&& before <= e.offset
            &&& mode == IntelValidationMode::Strict ==> {
                &&& e.offset == before
                &&& !any_error(e.report)
                &&& i == entries.len() - 1 ==> b.len() - (e.offset + e.size) < 48
            }
        }),
{
    law_bundle_layout(b, mode, limits);
    let entries = (bundle_of(b, mode, limits)->Ok_0).entries;
    let e = entries[i];
    assert(laid_out(b, entries, mode, limits));
    assert(in_place(b, e, limits));
    if i > 0 {
        assert(entries.take(i).last() == entries[i - 1]);
    }
    assert(entries.take(entries.len() as int) =~= entries);
    lemma_extended(b, e, limits);
}

/// The pair is the one of the header or one of the extended ones.
pub open spec fn is_listed_pair(e: EntryModel, m: ProcessorMatch) -> bool {
    ||| m.signature == e.header.signature && m.platform_mask == e.header.platform_mask
    ||| exists|k: int|
        0 <= k < e.extended_signatures.len() && (#[trigger] e.extended_signatures[k]).signature == m.signature
            && e.extended_signatures[k].platform_mask == m.platform_mask
}

proof fn lemma_pairs_are_listed(h: IntelHeader, ext: Seq<IntelExtendedSignature>, j: int)
    requires
        0 <= j < pairs(h, ext).len(),
    ensures
        pairs(h, ext)[j].equivalence_id is None,
        pairs(h, ext)[j].primary <==> j == 0,
        j > 0 ==> exists|k: int|
            0 <= k < ext.len() && (#[trigger] ext[k]).signature == pairs(h, ext)[j].signature
                && ext[k].platform_mask == pairs(h, ext)[j].platform_mask,
        j == 0 ==> pairs(h, ext)[j].signature == h.signature && pairs(h, ext)[j].platform_mask
            == h.platform_mask,
    decreases ext.len(),
{
    if ext.len() > 0 {
        let front = ext.drop_last();
        law_pairs_are_complete_and_distinct(h, front);
        if j < pairs(h, front).len() {
            lemma_pairs_are_listed(h, front, j);
            if j > 0 {
                let k = choose|k: int|
                    0 <= k < front.len() && (#[trigger] front[k]).signature == pairs(h, front)[j].signature
                        && front[k].platform_mask == pairs(h, front)[j].platform_mask;
                assert(ext[k] == front[k]);
            }
        } else {
            assert(ext[ext.len() - 1].signature == pairs(h, ext)[j].signature);
        }
    }
}

/// The description of an entry says what its header says, for exactly the
/// pairs of the header and of the extended table; only the first is primary.
pub proof fn law_intel_patches_are_described(e: EntryModel, source: Seq<char>)
    ensures
        ({
            let m = e.meta(source);
            &&& m.vendor == Vendor::Intel
            &&& e.header.header_type == 1 <==> m.kind == HeaderKind::Microcode
            &&& e.header.header_type == 2 <==> m.kind == HeaderKind::IntelIfsTestImage
            &&& m.revision == e.header.revision
            &&& m.date == UcodeDate::decode(e.header.date_raw)
            &&& m.total_size == e.size
            &&& m.sha256 == Some(e.sha256)
            &&& m.min_base_revision is None
            &&& e.header.min_required_revision == 0 ==> m.runtime_update == RuntimeUpdatePolicy::Unspecified
            &&& e.header.min_required_revision != 0 ==> m.runtime_update
                == RuntimeUpdatePolicy::RequiresBaseRevision(e.header.min_required_revision)
            &&& m.origin.source == source
            &&& m.origin.offset == e.offset
            &&& m.origin.length == e.size
            &&& m.matches.len() > 0
            &&& forall|j: int|
                0 <= j < m.matches.len() ==> {
                    let p = #[trigger] m.matches[j];
                    &&& is_listed_pair(e, p)
                    &&& p.equivalence_id is None
                    &&& p.primary <==> j == 0
                    &&& j == 0 ==> p.signature == e.header.signature && p.platform_mask
                        == e.header.platform_mask
                }
            &&& forall|k: int|
                0 <= k < e.extended_signatures.len() ==> exists|j: int|
                    0 <= j < m.matches.len() && (#[trigger] m.matches[j]).signature == (
                    #[trigger] e.extended_signatures[k]).signature && m.matches[j].platform_mask
                        == e.extended_signatures[k].platform_mask
        }),
{
    let m = e.meta(source);
    law_pairs_are_complete_and_distinct(e.header, e.extended_signatures);
    assert forall|j: int| 0 <= j < m.matches.len() implies {
        let p = #[trigger] m.matches[j];
        &&& is_listed_pair(e, p)
        &&& p.equivalence_id is None
        &&& p.primary <==> j == 0
        &&& j == 0 ==> p.signature == e.header.signature && p.platform_mask == e.header.platform_mask
    } by {
        lemma_pairs_are_listed(e.header, e.extended_signatures, j);
    }
    assert forall|k: int| 0 <= k < e.extended_signatures.len() implies exists|j: int|
        0 <= j < m.matches.len() && (#[trigger] m.matches[j]).signature == (
        #[trigger] e.extended_signatures[k]).signature && m.matches[j].platform_mask
            == e.extended_signatures[k].platform_mask by {
        let x = e.extended_signatures[k];
        assert(has_pair(m.matches, x));
    }
}

// --- findings -----------------------------------------------------------------------

/// A finding that is given under a condition is reported under it.
pub proof fn lemma_reports_given(condition: bool, f: FindingModel, code: FindingCode)
    ensures
        reports(given(condition, f), code) <==> condition && f.code == code,
{
    if condition {
        assert(given(condition, f)[0] == f);
    }
}

proof fn lemma_declared_findings(h: IntelHeader, base: int, code: FindingCode)
    ensures
        reports(type_findings(h, base) + size_findings(h, base), code) <==> {
            ||| code == FindingCode::IfsTestImage && h.header_type == 2
            ||| code == FindingCode::UnsupportedHeaderVersion && h.header_type != 1 && h.header_type != 2
            ||| code == FindingCode::UnsupportedLoaderVersion && h.loader_revision != 1
            ||| code == FindingCode::BadTotalSize && h.total() < 1024
            ||| code == FindingCode::TotalSizeNotAligned && h.total() % 1024 != 0
            ||| code == FindingCode::BadDataSize && (h.data() % 4 != 0 || 48 + h.data() > h.total())
        },
{
    let f1 = finding(
        FindingCode::IfsTestImage,
        base,
        "header type 2: In-Field Scan test image, not loadable microcode"@,
    );
    let f2 = finding(
        FindingCode::UnsupportedHeaderVersion,
        base,
        "unsupported header type "@ + dec(h.header_type as nat) + ""@,
    );
    let f3 = finding(
        FindingCode::UnsupportedLoaderVersion,
        base + 0x14,
        "loader revision "@ + dec(h.loader_revision as nat) + " is not 1"@,
    );
    let a1 = given(h.header_type == 2, f1);
    let a2 = given(h.header_type != 2 && h.header_type != 1, f2);
    let a3 = given(h.loader_revision != 1, f3);
    lemma_reports_given(h.header_type == 2, f1, code);
    lemma_reports_given(h.header_type != 2 && h.header_type != 1, f2, code);
    lemma_reports_given(h.loader_revision != 1, f3, code);
    lemma_reports_both(a1, a2, code);
    lemma_reports_both(a1 + a2, a3, code);
    assert(type_findings(h, base) == a1 + a2 + a3);
    let total = h.total();
    let data = h.data();
    let g1 = finding(
        FindingCode::BadTotalSize,
        base + 0x20,
        "total size "@ + dec(total as nat) + " is below the 1024-byte minimum"@,
    );
    let g2 = finding(
        FindingCode::TotalSizeNotAligned,
        base + 0x20,
        "total size "@ + dec(total as nat) + " is not a multiple of 1024"@,
    );
    let g3 = finding(
        FindingCode::BadDataSize,
        base + 0x1c,
        "data size "@ + dec(data as nat) + " is not a multiple of 4"@,
    );
    let g4 = finding(
        FindingCode::BadDataSize,
        base + 0x1c,
        "header (48) + data ("@ + dec(data as nat) + ") exceeds total size ("@ + dec(total as nat) + ")"@,
    );
    let b1 = given(total < 1024, g1);
    let b2 = given(total % 1024 != 0, g2);
    let b3 = given(data % 4 != 0, g3);
    let b4 = given(48 + data > total, g4);
    lemma_reports_given(total < 1024, g1, code);
    lemma_reports_given(total % 1024 != 0, g2, code);
    lemma_reports_given(data % 4 != 0, g3, code);
    lemma_reports_given(48 + data > total, g4, code);
    lemma_reports_both(b1, b2, code);
    lemma_reports_both(b1 + b2, b3, code);
    lemma_reports_both(b1 + b2 + b3, b4, code);
    assert(size_findings(h, base) == b1 + b2 + b3 + b4);
    lemma_reports_both(type_findings(h, base), size_findings(h, base), code);
}

proof fn lemma_field_findings(h: IntelHeader, base: int, code: FindingCode)
    ensures
        reports(field_findings(h, base), code) <==> {
            ||| code == FindingCode::UnknownMetadataSection && h.metadata_size > h.data()
            ||| code == FindingCode::ReservedFieldNonZero && h.reserved != 0
        },
{
    let f1 = finding(
        FindingCode::UnknownMetadataSection,
        base + 0x24,
        "metadata size "@ + dec(h.metadata_size as nat) + " exceeds data size "@ + dec(h.data() as nat),
    );
    let f2 = finding(
        FindingCode::ReservedFieldNonZero,
        base + 0x2c,
        "reserved dword is 0x"@ + hex(h.reserved as nat, 8) + ""@,
    );
    lemma_reports_given(h.metadata_size > h.data(), f1, code);
    lemma_reports_given(h.reserved != 0, f2, code);
    lemma_reports_both(given(h.metadata_size > h.data(), f1), given(h.reserved != 0, f2), code);
    assert(field_findings(h, base) == given(h.metadata_size > h.data(), f1) + given(h.reserved != 0, f2));
}

proof fn lemma_balance_findings(
    h: IntelHeader,
    ext: Seq<IntelExtendedSignature>,
    sum: u32,
    start: int,
    n: nat,
    code: FindingCode,
)
    requires
        n <= ext.len(),
    ensures
        reports(balance_findings(h, ext, sum, start, n), code) <==> code
            == FindingCode::BadExtendedSignatureChecksum && exists|i: int|
            0 <= i < n && !balanced(h, #[trigger] ext[i], sum),
    decreases n,
{
    if n > 0 {
        let m = (n - 1) as nat;
        lemma_balance_findings(h, ext, sum, start, m, code);
        let front = balance_findings(h, ext, sum, start, m);
        let all = balance_findings(h, ext, sum, start, n);
        let rest = all.skip(front.len() as int);
        assert(all =~= front + rest);
        lemma_reports_both(front, rest, code);
        if rest.len() == 1 {
            lemma_reports_one(rest[0], code);
            assert(rest =~= seq![rest[0]]);
        }
        assert(rest.len() == if balanced(h, ext[n - 1], sum) {
            0int
        } else {
            1
        });
    }
}

proof fn lemma_repeat_findings(
    h: IntelHeader,
    ext: Seq<IntelExtendedSignature>,
    start: int,
    n: nat,
    code: FindingCode,
)
    requires
        n <= ext.len(),
    ensures
        reports(repeat_findings(h, ext, start, n), code) <==> code == FindingCode::DuplicateSignature && exists|
            i: int,
        |
            0 <= i < n && #[trigger] repeated(h, ext, i),
    decreases n,
{
    if n > 0 {
        let m = (n - 1) as nat;
        lemma_repeat_findings(h, ext, start, m, code);
        let front = repeat_findings(h, ext, start, m);
        let all = repeat_findings(h, ext, start, n);
        let rest = all.skip(front.len() as int);
        assert(all =~= front + rest);
        lemma_reports_both(front, rest, code);
        if rest.len() == 1 {
            lemma_reports_one(rest[0], code);
            assert(rest =~= seq![rest[0]]);
        }
        assert(rest.len() == if repeated(h, ext, n - 1) {
            1int
        } else {
            0
        });
    }
}

/// An extended signature does not balance the update.
pub open spec fn has_unbalanced(h: IntelHeader, ext: Seq<IntelExtendedSignature>, sum: u32) -> bool {
    exists|i: int| 0 <= i < ext.len() && !makes_up(h, #[trigger] ext[i], sum)
}

/// An extended pair is the one of the header, or stands there twice.
pub open spec fn has_repeated(h: IntelHeader, ext: Seq<IntelExtendedSignature>) -> bool {
    exists|i: int|
        0 <= i < ext.len() && ((#[trigger] ext[i]).signature == h.signature && ext[i].platform_mask
            == h.platform_mask || exists|j: int|
            0 <= j < i && (#[trigger] ext[j]).signature == ext[i].signature && ext[j].platform_mask
                == ext[i].platform_mask)
}

/// The extended triple and the sum of the update make up the primary triple.
pub open spec fn makes_up(h: IntelHeader, x: IntelExtendedSignature, sum: u32) -> bool {
    (x.signature.0 + x.platform_mask.0 + x.checksum + sum) % 0x1_0000_0000 == (h.signature.0
        + h.platform_mask.0 + h.checksum) % 0x1_0000_0000
}

proof fn lemma_makes_up(h: IntelHeader, x: IntelExtendedSignature, sum: u32)
    ensures
        makes_up(h, x, sum) <==> balanced(h, x, sum),
{
    let t: int = x.signature.0 + x.platform_mask.0 + x.checksum;
    assert((t % 0x1_0000_0000 + sum) % 0x1_0000_0000 == (t + sum) % 0x1_0000_0000);
}

proof fn lemma_unbalanced(h: IntelHeader, ext: Seq<IntelExtendedSignature>, sum: u32)
    ensures
        has_unbalanced(h, ext, sum) <==> exists|i: int| 0 <= i < ext.len() && !balanced(h, #[trigger] ext[i], sum),
{
    if has_unbalanced(h, ext, sum) {
        let i = choose|i: int| 0 <= i < ext.len() && !makes_up(h, #[trigger] ext[i], sum);
        lemma_makes_up(h, ext[i], sum);
    }
    if exists|i: int| 0 <= i < ext.len() && !balanced(h, #[trigger] ext[i], sum) {
        let i = choose|i: int| 0 <= i < ext.len() && !balanced(h, #[trigger] ext[i], sum);
        lemma_makes_up(h, ext[i], sum);
    }
}

proof fn lemma_repeated(h: IntelHeader, ext: Seq<IntelExtendedSignature>)
    ensures
        has_repeated(h, ext) <==> exists|i: int| 0 <= i < ext.len() && #[trigger] repeated(h, ext, i),
{
    if has_repeated(h, ext) {
        let i = choose|i: int|
            0 <= i < ext.len() && ((#[trigger] ext[i]).signature == h.signature && ext[i].platform_mask
                == h.platform_mask || exists|j: int|
                0 <= j < i && (#[trigger] ext[j]).signature == ext[i].signature && ext[j].platform_mask
                    == ext[i].platform_mask);
        assert(repeated(h, ext, i));
    }
    if exists|i: int| 0 <= i < ext.len() && #[trigger] repeated(h, ext, i) {
        let i = choose|i: int| 0 <= i < ext.len() && #[trigger] repeated(h, ext, i);
        assert(ext[i].signature == ext[i].signature);
    }
}

/// What is wrong with an extended table.
pub open spec fn table_is_reported(
    entry: Seq<u8>,
    h: IntelHeader,
    ext: Seq<IntelExtendedSignature>,
    off: int,
    code: FindingCode,
) -> bool {
    let size = 20 + 12 * ext.len();
    if off + size > entry.len() {
        code == FindingCode::BadExtendedTable
    } else {
        ||| code == FindingCode::BadExtendedTableChecksum && dword_sum_of(entry.subrange(off, off + size)) != 0
        ||| code == FindingCode::BadExtendedSignatureChecksum && has_unbalanced(
            h,
            ext,
            primary_sum_of(entry, h),
        )
        ||| code == FindingCode::DuplicateSignature && has_repeated(h, ext)
    }
}

proof fn lemma_table_findings(
    entry: Seq<u8>,
    h: IntelHeader,
    ext: Seq<IntelExtendedSignature>,
    off: int,
    base: int,
    code: FindingCode,
)
    ensures
        reports(table_findings(entry, h, ext, off, base), code) <==> table_is_reported(entry, h, ext, off, code),
{
    let all = table_findings(entry, h, ext, off, base);
    let size = 20 + 12 * ext.len();
    if off + size > entry.len() {
        lemma_reports_one(all[0], code);
        assert(all =~= seq![all[0]]);
    } else {
        let sum = dword_sum_of(entry.subrange(off, off + size));
        let primary = primary_sum_of(entry, h);
        let start = base + off + 20;
        let f = finding(
            FindingCode::BadExtendedTableChecksum,
            base + off + 4,
            "extended table dword sum is 0x"@ + hex(sum as nat, 8) + ", expected 0"@,
        );
        let a = given(sum != 0, f);
        let b = balance_findings(h, ext, primary, start, ext.len());
        let c = repeat_findings(h, ext, start, ext.len());
        lemma_reports_given(sum != 0, f, code);
        lemma_balance_findings(h, ext, primary, start, ext.len(), code);
        lemma_repeat_findings(h, ext, start, ext.len(), code);
        lemma_unbalanced(h, ext, primary);
        lemma_repeated(h, ext);
        lemma_reports_both(a, b, code);
        lemma_reports_both(a + b, c, code);
        assert(all == a + b + c);
    }
}

proof fn lemma_date_findings(h: IntelHeader, base: int, code: FindingCode)
    ensures
        reports(date_findings(h, base), code) <==> {
            let date = UcodeDate::decode(h.date_raw);
            ||| code == FindingCode::NonBcdDate && date is None
            ||| code == FindingCode::ImplausibleDate && date is Some && !(date->0).plausible()
        },
{
    let all = date_findings(h, base);
    if all.len() == 1 {
        lemma_reports_one(all[0], code);
        assert(all =~= seq![all[0]]);
    }
}

proof fn lemma_identity_findings(h: IntelHeader, base: int, code: FindingCode)
    ensures
        reports(identity_findings(h, base), code) <==> {
            ||| code == FindingCode::ZeroRevision && h.revision == 0
            ||| code == FindingCode::HighBitRevision && h.revision >= 0x8000_0000
            ||| code == FindingCode::EmptySignatureSet && h.signature.0 == 0
        },
{
    let f1 = finding(FindingCode::ZeroRevision, base + 0x04, "revision is zero"@);
    let f2 = finding(
        FindingCode::HighBitRevision,
        base + 0x04,
        "revision 0x"@ + hex(h.revision as nat, 8)
            + " has bit 31 set; this usually marks a pre-production or special image. Note that iucode-tool orders such revisions as negative while the Linux loader compares them as unsigned."@,
    );
    let f3 = finding(FindingCode::EmptySignatureSet, base + 0x0c, "primary processor signature is zero"@);
    let a = given(h.revision == 0, f1);
    let b = given(h.revision >= 0x8000_0000, f2);
    let c = given(h.signature.0 == 0, f3);
    lemma_reports_given(h.revision == 0, f1, code);
    lemma_reports_given(h.revision >= 0x8000_0000, f2, code);
    lemma_reports_given(h.signature.0 == 0, f3, code);
    lemma_reports_both(a, b, code);
    lemma_reports_both(a + b, c, code);
    assert(identity_findings(h, base) == a + b + c);
}

/// An update is reported on for exactly these reasons, by the code of the
/// finding: its type or its loader is not supported, its sizes cannot be, a
/// field that should be small or zero is not, a checksum does not hold, its
/// extended table does not fit or contradicts the header, its date is no date or
/// not a plausible one, or it has no revision, a suspicious one, or no
/// signature. Of a slice that has another size than the header declares only
/// the type and the sizes are told, and that.
pub proof fn law_updates_are_reported_on_for_a_reason(
    entry: Seq<u8>,
    h: IntelHeader,
    ext: Seq<IntelExtendedSignature>,
    base: int,
    code: FindingCode,
)
    ensures
        reports(entry_report(entry, h, ext, base), code) <==> {
            let whole = entry.len() == h.total();
            let covered = if 48 + h.data() <= entry.len() {
                entry.take(48 + h.data())
            } else {
                entry
            };
            let date = UcodeDate::decode(h.date_raw);
            ||| code == FindingCode::IfsTestImage && h.header_type == 2
            ||| code == FindingCode::UnsupportedHeaderVersion && h.header_type != 1 && h.header_type != 2
            ||| code == FindingCode::UnsupportedLoaderVersion && h.loader_revision != 1
            ||| code == FindingCode::BadTotalSize && h.total() < 1024
            ||| code == FindingCode::TotalSizeNotAligned && h.total() % 1024 != 0
            ||| code == FindingCode::BadDataSize && (h.data() % 4 != 0 || 48 + h.data() > h.total())
            ||| code == FindingCode::Truncated && !whole
            ||| whole && code == FindingCode::UnknownMetadataSection && h.metadata_size > h.data()
            ||| whole && code == FindingCode::ReservedFieldNonZero && h.reserved != 0
            ||| whole && code == FindingCode::BadChecksum && dword_sum_of(covered) != 0
            ||| whole && 48 + h.data() + 20 <= h.total() && table_is_reported(entry, h, ext, 48 + h.data(), code)
            ||| whole && code == FindingCode::NonBcdDate && date is None
            ||| whole && code == FindingCode::ImplausibleDate && date is Some && !(date->0).plausible()
            ||| whole && code == FindingCode::ZeroRevision && h.revision == 0
            ||| whole && code == FindingCode::HighBitRevision && h.revision >= 0x8000_0000
            ||| whole && code == FindingCode::EmptySignatureSet && h.signature.0 == 0
        },
{
    let declared = type_findings(h, base) + size_findings(h, base);
    lemma_declared_findings(h, base, code);
    if entry.len() != h.total() {
        let t = truncation(entry.len() as int, h, base);
        assert(declared.push(t) =~= declared + seq![t]);
        lemma_reports_both(declared, seq![t], code);
        lemma_reports_one(t, code);
    } else {
        let a = field_findings(h, base);
        let b = checksum_findings(entry, h, base);
        let c = match h.table_offset() {
            Some(off) => table_findings(entry, h, ext, off as int, base),
            None => Seq::empty(),
        };
        let d = date_findings(h, base);
        let e = identity_findings(h, base);
        lemma_field_findings(h, base, code);
        lemma_date_findings(h, base, code);
        lemma_identity_findings(h, base, code);
        if let Some(off) = h.table_offset() {
            lemma_table_findings(entry, h, ext, off as int, base, code);
        }
        if b.len() == 1 {
            lemma_reports_one(b[0], code);
            assert(b =~= seq![b[0]]);
        }
        lemma_reports_both(declared, a, code);
        lemma_reports_both(declared + a, b, code);
        lemma_reports_both(declared + a + b, c, code);
        lemma_reports_both(declared + a + b + c, d, code);
        lemma_reports_both(declared + a + b + c + d, e, code);
        assert(entry_report(entry, h, ext, base) == declared + a + b + c + d + e);
    }
}

// --- the text form ------------------------------------------------------------------

proof fn lemma_words_join(a: Seq<Seq<char>>, b: Seq<Seq<char>>)
    requires
        words_of(a) is Ok,
    ensures
        words_of(a + b) is Ok <==> words_of(b) is Ok,
        words_of(b) matches Ok(more) ==> words_of(a + b) == Ok::<_, Seq<char>>((words_of(a)->Ok_0) + more),
    decreases b.len(),
{
    if b.len() == 0 {
        assert(a + b =~= a);
        assert((words_of(a)->Ok_0) + Seq::<u8>::empty() =~= words_of(a)->Ok_0);
    } else {
        lemma_words_join(a, b.drop_last());
        assert((a + b).drop_last() =~= a + b.drop_last());
        assert((a + b).last() == b.last());
        if let Ok(more) = words_of(b) {
            let front = words_of(b.drop_last())->Ok_0;
            assert(words_of(a + b)->Ok_0 =~= (words_of(a)->Ok_0) + more);
        }
    }
}

/// The words of a text follow one another: those of two lists of tokens are
/// those of the first and those of the second, and a line adds its words to
/// those of the lines before it, or makes the text unreadable and is named.
pub proof fn law_words_follow_one_another(
    a: Seq<Seq<char>>,
    b: Seq<Seq<char>>,
    all: Seq<Seq<char>>,
    line: Seq<char>,
)
    requires
        dat_lines(all) is Ok,
    ensures
        words_of(a) is Ok && words_of(b) is Ok ==> words_of(a + b) == Ok::<_, Seq<char>>(
            (words_of(a)->Ok_0) + (words_of(b)->Ok_0),
        ),
        ({
            let (bytes, open) = dat_lines(all)->Ok_0;
            let (cleaned, state) = uncommented(line, open);
            match words_of(tokens_of(cleaned)) {
                Ok(more) => dat_lines(all.push(line)) == Ok::<_, IntelFault>((bytes + more, state)),
                Err(reason) => dat_lines(all.push(line)) == Err::<(Seq<u8>, bool), _>(
                    IntelFault::Dat { line: all.len() as int + 1, reason },
                ),
            }
        }),
{
    if words_of(a) is Ok {
        lemma_words_join(a, b);
    }
    assert(all.push(line).drop_last() =~= all);
}

/// A text is taken exactly if all its lines are readable, no comment is left
/// open and there is a word in it; it then stands for all its words.
pub proof fn law_texts_stand_for_their_words(text: Seq<char>)
    ensures
        dat_bytes(text) is Ok <==> (dat_lines(lines_text(text)) matches Ok((bytes, open)) && !open && bytes.len()
            > 0),
        dat_bytes(text) matches Ok(b) ==> (dat_lines(lines_text(text)) matches Ok((bytes, open)) && b == bytes),
{
}

/// Comments are cut out of a line: a line without one stays as it is, and what
/// stands between the marks is gone, whatever it is. A comment that is open at
/// the end of a line goes on in the next.
pub proof fn law_comments_are_cut_out(a: Seq<char>, c: Seq<char>, b: Seq<char>)
    requires
        !contains_text(a + seq!['/'], "/*"@),
        !contains_text(c + seq!['*'], "*/"@),
    ensures
        !contains_text(a, "/*"@) ==> uncommented(a, false) == (a, false),
        uncommented(a + "/*"@ + c + "*/"@ + b, false) == (a + uncommented(b, false).0, uncommented(b, false).1),
        uncommented(c + "*/"@ + b, true) == uncommented(b, false),
        !contains_text(c, "*/"@) ==> uncommented(c, true) == (Seq::<char>::empty(), true),
{
    reveal_strlit("/*");
    reveal_strlit("*/");
    let s = a + "/*"@ + c + "*/"@ + b;
    let t = c + "*/"@ + b;
    assert("/*"@[0] == '/' && "*/"@[0] == '*');
    assert(s =~= a + "/*"@ + t);
    lemma_first_pair(a, "/*"@, t);
    lemma_first_pair(c, "*/"@, b);
    assert(s.skip(a.len() as int + 2) =~= t);
    assert(s.take(a.len() as int) =~= a);
    assert(t.skip(c.len() as int + 2) =~= b);
    assert(uncommented(t, true) == uncommented(b, false));
}

proof fn lemma_pair_before(a: Seq<char>, pat: Seq<char>, b: Seq<char>, i: int)
    requires
        pat.len() == 2,
        0 <= i < a.len(),
        (a + pat + b).subrange(i, i + 2) == pat,
    ensures
        (a + seq![pat[0]]).subrange(i, i + 2) == pat,
{
    let s = a + pat + b;
    let head = a + seq![pat[0]];
    assert(s[i] == head[i]);
    assert(s[i + 1] == head[i + 1]);
    assert(head.subrange(i, i + 2) =~= s.subrange(i, i + 2));
}

proof fn lemma_not_before(a: Seq<char>, pat: Seq<char>, b: Seq<char>, i: int)
    requires
        pat.len() == 2,
        0 <= i < a.len(),
        !contains_text(a + seq![pat[0]], pat),
    ensures
        !occurs_at(a + pat + b, pat, i),
{
    if occurs_at(a + pat + b, pat, i) {
        lemma_pair_before(a, pat, b, i);
        lemma_find_from(a + seq![pat[0]], pat, 0);
        assert(occurs_at(a + seq![pat[0]], pat, i));
    }
}

proof fn lemma_first_pair(a: Seq<char>, pat: Seq<char>, b: Seq<char>)
    requires
        pat.len() == 2,
        !contains_text(a + seq![pat[0]], pat),
    ensures
        find_text(a + pat + b, pat) == Some(a.len() as int),
{
    let s = a + pat + b;
    let n = a.len() as int;
    assert forall|i: int| 0 <= i < n implies !#[trigger] occurs_at(s, pat, i) by {
        lemma_not_before(a, pat, b, i);
    }
    lemma_stands_at(a, pat, b);
    lemma_found_at(s, pat, n, 0);
}

proof fn lemma_stands_at(a: Seq<char>, pat: Seq<char>, b: Seq<char>)
    ensures
        occurs_at(a + pat + b, pat, a.len() as int),
{
    let n = a.len() as int;
    assert((a + pat + b).subrange(n, n + pat.len()) =~= pat);
}

proof fn lemma_found_at(s: Seq<char>, pat: Seq<char>, n: int, from: int)
    requires
        0 <= from <= n,
        occurs_at(s, pat, n),
        forall|i: int| from <= i < n ==> !#[trigger] occurs_at(s, pat, i),
    ensures
        find_from(s, pat, from) == Some(n),
    decreases n - from,
{
    if from < n {
        assert(!occurs_at(s, pat, from));
        lemma_found_at(s, pat, n, from + 1);
    }
}

/// A word is one to eight hexadecimal digits behind their prefix, and stands for
/// its number; a blank token stands for nothing, and any other is refused.
pub proof fn law_words_are_literals(token: Seq<char>, digits: Seq<char>)
    ensures
        trim_text(token).len() == 0 ==> word_of(token) == Ok::<Option<u32>, Seq<char>>(None),
        trim_text(token) == "0x"@ + digits || trim_text(token) == "0X"@ + digits ==> {
            &&& 0 < digits.len() && encode_utf8(digits).len() <= 8 ==> match read_digits(digits, 16, 0) {
                Ok(v) => word_of(token) == Ok::<Option<u32>, Seq<char>>(Some(v as u32)),
                Err(_) => word_of(token) is Err,
            }
            &&& digits.len() == 0 || encode_utf8(digits).len() > 8 ==> word_of(token) is Err
        },
        trim_text(token).len() > 0 && !starts_with(trim_text(token), "0x"@) && !starts_with(
            trim_text(token),
            "0X"@,
        ) ==> word_of(token) is Err,
{
    let t = trim_text(token);
    reveal_strlit("0x");
    reveal_strlit("0X");
    if t == "0x"@ + digits {
        assert(t.subrange(0, 2) =~= "0x"@);
        assert(t.skip(2) =~= digits);
    }
    if t == "0X"@ + digits {
        assert(t.subrange(0, 2) =~= "0X"@);
        assert(t.skip(2) =~= digits);
    }
}

} // verus!
