//! What selecting a patch for a processor means, and what a report says.

use vstd::prelude::*;
use crate::model::cpu::{law_fms_round_trip, CpuIdentity, CpuSignature, PlatformMask, Vendor};
use crate::model::patch::{first_primary, primary_of, HeaderKind, PatchModel, ProcessorMatch};
use crate::model::select::{
    conflicting, law_applicable_are_the_unrejected, law_applicable_newest_first,
    law_best_is_the_newest, ones, rejection_of, selection, Rejection,
};
use crate::model::validate::{any_error, count_severity, first_error_message, FindingCode, FindingModel, Severity};
use crate::number::{hex, law_number_round_trip, read_u32, NumberError};

verus! {

/// The pair is for the processor: the signatures agree, and for Intel the known
/// platform of the processor is one of those of the pair, or both are
/// unrestricted.
pub open spec fn is_for(m: ProcessorMatch, cpu: CpuIdentity) -> bool {
    &&& m.signature == cpu.signature
    &&& cpu.vendor == Vendor::Intel ==> match cpu.platform_mask {
        Some(mask) => m.platform_mask.0 & mask.0 != 0 || (m.platform_mask.0 == 0 && mask.0 == 0),
        None => false,
    }
}

/// The patch names the signature among its pairs.
pub open spec fn names(p: PatchModel, signature: CpuSignature) -> bool {
    exists|i: int| 0 <= i < p.matches.len() && (#[trigger] p.matches[i]).signature == signature
}

/// The patch is microcode of the processor's vendor, and one of its pairs is
/// for the processor.
pub open spec fn fits(p: PatchModel, cpu: CpuIdentity) -> bool {
    &&& p.vendor == cpu.vendor
    &&& p.kind == HeaderKind::Microcode
    &&& exists|i: int| 0 <= i < p.matches.len() && is_for(#[trigger] p.matches[i], cpu)
}

/// `best` is a patch of the list with the highest revision of those that fit
/// the processor; there is none exactly where none fits.
pub open spec fn is_newest(patches: Seq<PatchModel>, cpu: CpuIdentity, best: Option<PatchModel>) -> bool {
    match best {
        Some(b) => {
            &&& patches.contains(b)
            &&& fits(b, cpu)
            &&& forall|i: int|
                0 <= i < patches.len() && #[trigger] fits(patches[i], cpu) ==> patches[i].revision
                    <= b.revision
        },
        None => forall|i: int| 0 <= i < patches.len() ==> !#[trigger] fits(patches[i], cpu),
    }
}

proof fn lemma_fits(p: PatchModel, cpu: CpuIdentity)
    ensures
        fits(p, cpu) <==> rejection_of(p, cpu) is None,
        fits(p, cpu) ==> p.applies(cpu) && names(p, cpu.signature),
        p.kind == HeaderKind::Microcode ==> (p.applies(cpu) <==> fits(p, cpu)),
        p.loadable() <==> p.kind == HeaderKind::Microcode,
{
    if fits(p, cpu) {
        let i = choose|i: int| 0 <= i < p.matches.len() && is_for(#[trigger] p.matches[i], cpu);
        assert(p.matches[i].covers(cpu));
        assert(p.matches[i].signature == cpu.signature);
    }
    if p.applies(cpu) {
        let i = choose|i: int| 0 <= i < p.matches.len() && (#[trigger] p.matches[i]).covers(cpu);
        assert(is_for(p.matches[i], cpu));
    }
}

/// A patch applies to a processor exactly if it is of its vendor and one of its
/// pairs has its signature and, for Intel, its known platform.
pub proof fn law_applying_is_fitting(p: PatchModel, cpu: CpuIdentity)
    requires
        p.kind == HeaderKind::Microcode,
    ensures
        p.applies(cpu) <==> fits(p, cpu),
        rejection_of(p, cpu) is None <==> fits(p, cpu),
{
    lemma_fits(p, cpu);
}

/// Selection finds the newest patch that fits, and lists exactly those that
/// fit, the newest first.
pub proof fn law_selection_finds_the_newest(patches: Seq<PatchModel>, cpu: CpuIdentity)
    ensures
        is_newest(patches, cpu, selection(patches, cpu).best),
        forall|p: PatchModel| #[trigger]
            selection(patches, cpu).applicable.contains(p) <==> patches.contains(p) && fits(p, cpu),
        forall|i: int, j: int|
            0 <= i < j < selection(patches, cpu).applicable.len() ==> (#[trigger] selection(
                patches,
                cpu,
            ).applicable[i]).revision >= (#[trigger] selection(patches, cpu).applicable[j]).revision,
        selection(patches, cpu).best is Some <==> selection(patches, cpu).applicable.len() > 0,
        selection(patches, cpu).best is Some ==> selection(patches, cpu).best->0 == selection(
            patches,
            cpu,
        ).applicable[0],
{
    let s = selection(patches, cpu);
    assert forall|p: PatchModel| #[trigger] s.applicable.contains(p) <==> patches.contains(p) && fits(p, cpu) by {
        law_applicable_are_the_unrejected(patches, cpu, p);
        lemma_fits(p, cpu);
    }
    assert forall|i: int, j: int| 0 <= i < j < s.applicable.len() implies (#[trigger] s.applicable[i]).revision
        >= (#[trigger] s.applicable[j]).revision by {
        law_applicable_newest_first(patches, cpu, i, j);
    }
    match s.best {
        Some(b) => {
            assert(s.applicable.contains(s.applicable[0]));
            assert forall|i: int| 0 <= i < patches.len() && #[trigger] fits(patches[i], cpu) implies patches[i].revision
                <= b.revision by {
                lemma_fits(patches[i], cpu);
                law_best_is_the_newest(patches, cpu, patches[i]);
            }
        },
        None => {
            assert forall|i: int| 0 <= i < patches.len() implies !#[trigger] fits(patches[i], cpu) by {
                if fits(patches[i], cpu) {
                    lemma_fits(patches[i], cpu);
                    law_best_is_the_newest(patches, cpu, patches[i]);
                }
            }
        },
    }
}

// --- ties ---------------------------------------------------------------------------

/// The date as one number that grows with it; nothing comes first.
pub open spec fn day_of(p: PatchModel) -> int {
    match p.date {
        Some(d) => d.year * 10_000 + d.month * 100 + d.day,
        None => 0,
    }
}

/// The platform mask of the pair that a patch is filed under: the first one
/// marked primary, else the first.
pub open spec fn filed_mask(p: PatchModel) -> Option<u32> {
    match primary_of(p.matches) {
        Some(m) => Some(m.platform_mask.0),
        None => None,
    }
}

/// Of two patches with the same revision the later date wins, whatever else
/// they hold, and of two with the same date the one that names fewer platforms.
pub proof fn law_ties_go_to_the_later_and_narrower(
    patches: Seq<PatchModel>,
    cpu: CpuIdentity,
    p: PatchModel,
)
    requires
        patches.contains(p),
        fits(p, cpu),
        selection(patches, cpu).best matches Some(b) && b.revision == p.revision,
    ensures
        ({
            let best = selection(patches, cpu).best->0;
            &&& day_of(p) <= day_of(best)
            &&& day_of(p) == day_of(best) ==> (filed_mask(p) matches Some(a) && filed_mask(best) matches Some(b)
                ==> ones(b as nat) <= ones(a as nat))
        }),
{
    lemma_fits(p, cpu);
    law_best_is_the_newest(patches, cpu, p);
}

proof fn lemma_conflicting_complete(best: PatchModel, rest: Seq<PatchModel>, k: int)
    requires
        0 <= k < rest.len(),
        forall|i: int| 0 <= i <= k ==> (#[trigger] rest[i]).revision == best.revision,
        rest[k].sha256 is None || rest[k].sha256 != best.sha256,
    ensures
        conflicting(best, rest).contains(rest[k]),
    decreases rest.len(),
{
    let tail = rest.drop_first();
    let all = conflicting(best, rest);
    assert(rest[0].revision == best.revision);
    if k == 0 {
        assert(all[0] == rest[0]);
    } else {
        assert forall|i: int| 0 <= i <= k - 1 implies (#[trigger] tail[i]).revision == best.revision by {
            assert(tail[i] == rest[i + 1]);
        }
        lemma_conflicting_complete(best, tail, k - 1);
        let c = conflicting(best, tail);
        let i = choose|i: int| 0 <= i < c.len() && c[i] == tail[k - 1];
        assert(all =~= c || all =~= seq![rest[0]] + c);
        if all =~= c {
            assert(all[i] == rest[k]);
        } else {
            assert(all[i + 1] == rest[k]);
        }
    }
}

/// A tie is never passed over: a fitting patch with the revision of the best
/// one and other bytes is reported as ambiguous, and what is reported fits, has
/// that revision and is not known to have the same bytes.
pub proof fn law_every_tie_is_reported(patches: Seq<PatchModel>, cpu: CpuIdentity, p: PatchModel)
    requires
        selection(patches, cpu).best is Some,
    ensures
        ({
            let s = selection(patches, cpu);
            let best = s.best->0;
            let differs = p.sha256 is None || p.sha256 != best.sha256;
            &&& patches.contains(p) && fits(p, cpu) && p != best && p.revision == best.revision && differs
                ==> s.ambiguous_with.contains(p)
            &&& s.ambiguous_with.contains(p) ==> patches.contains(p) && fits(p, cpu) && p.revision
                == best.revision && differs
        }),
{
    let s = selection(patches, cpu);
    let best = s.best->0;
    let sorted = s.applicable;
    law_selection_finds_the_newest(patches, cpu);
    if patches.contains(p) && fits(p, cpu) && p != best && p.revision == best.revision && (p.sha256 is None
        || p.sha256 != best.sha256) {
        assert(sorted.contains(p));
        let k = choose|k: int| 0 <= k < sorted.len() && sorted[k] == p;
        let rest = sorted.drop_first();
        assert(rest[k - 1] == p);
        assert forall|i: int| 0 <= i <= k - 1 implies (#[trigger] rest[i]).revision == best.revision by {
            assert(rest[i] == sorted[i + 1]);
            law_applicable_newest_first(patches, cpu, 0, i + 1);
            law_applicable_newest_first(patches, cpu, i + 1, k);
        }
        lemma_conflicting_complete(best, rest, k - 1);
    }
    if s.ambiguous_with.contains(p) {
        let i = choose|i: int| 0 <= i < s.ambiguous_with.len() && s.ambiguous_with[i] == p;
        crate::model::select::law_ambiguity_is_a_tie(patches, cpu, i);
        assert(sorted.contains(p));
    }
}

/// Every patch is listed with what speaks against it: another vendor, no
/// microcode, another signature, an unknown platform or another platform, the
/// first of these that holds.
pub proof fn law_every_patch_is_accounted_for(patches: Seq<PatchModel>, cpu: CpuIdentity, i: int)
    requires
        0 <= i < patches.len(),
    ensures
        ({
            let c = selection(patches, cpu).considered;
            let p = patches[i];
            let why = c[i].1;
            &&& c.len() == patches.len()
            &&& c[i].0 == p
            &&& why is None <==> fits(p, cpu)
            &&& why == Some(Rejection::WrongVendor) <==> p.vendor != cpu.vendor
            &&& why == Some(Rejection::NotAMicrocodeImage) <==> p.vendor == cpu.vendor && p.kind
                != HeaderKind::Microcode
            &&& why == Some(Rejection::SignatureMismatch) <==> p.vendor == cpu.vendor && p.kind
                == HeaderKind::Microcode && !names(p, cpu.signature)
            &&& why == Some(Rejection::PlatformIdUnknown) <==> p.vendor == cpu.vendor && p.kind
                == HeaderKind::Microcode && names(p, cpu.signature) && cpu.vendor == Vendor::Intel
                && cpu.platform_mask is None
            &&& why == Some(Rejection::PlatformMaskMismatch) <==> p.vendor == cpu.vendor && p.kind
                == HeaderKind::Microcode && names(p, cpu.signature) && !(cpu.vendor == Vendor::Intel
                && cpu.platform_mask is None) && !fits(p, cpu)
        }),
{
    let p = patches[i];
    lemma_fits(p, cpu);
    assert(selection(patches, cpu).considered[i] == (p, rejection_of(p, cpu)));
    if crate::model::patch::any_signature(p.matches, cpu.signature) {
        let k = choose|k: int| 0 <= k < p.matches.len() && (#[trigger] p.matches[k]).signature == cpu.signature;
        assert(p.matches[k].signature == cpu.signature);
    }
    if fits(p, cpu) {
        let k = choose|k: int| 0 <= k < p.matches.len() && is_for(#[trigger] p.matches[k], cpu);
        assert(is_for(p.matches[k], cpu));
    }
}

// --- reports ------------------------------------------------------------------------

/// A finding with the code is in the report.
pub open spec fn reports(report: Seq<FindingModel>, code: FindingCode) -> bool {
    exists|i: int| 0 <= i < report.len() && (#[trigger] report[i]).code == code
}

/// Two reports together report what either does.
pub proof fn lemma_reports_both(a: Seq<FindingModel>, b: Seq<FindingModel>, code: FindingCode)
    ensures
        reports(a + b, code) <==> reports(a, code) || reports(b, code),
{
    let r = a + b;
    if reports(a, code) {
        let i = choose|i: int| 0 <= i < a.len() && (#[trigger] a[i]).code == code;
        assert(r[i].code == code);
    }
    if reports(b, code) {
        let i = choose|i: int| 0 <= i < b.len() && (#[trigger] b[i]).code == code;
        assert(r[a.len() + i].code == code);
    }
    if reports(r, code) {
        let i = choose|i: int| 0 <= i < r.len() && (#[trigger] r[i]).code == code;
        if i < a.len() {
            assert(a[i].code == code);
        } else {
            assert(b[i - a.len()].code == code);
        }
    }
}

/// A report of one finding reports its code.
pub proof fn lemma_reports_one(f: FindingModel, code: FindingCode)
    ensures
        reports(seq![f], code) <==> f.code == code,
{
    assert(seq![f][0] == f);
}

/// The message of the first error stands for a report with one, and the counts
/// are those of the findings of each severity.
pub proof fn law_the_first_error_stands_for_the_report(report: Seq<FindingModel>, severity: Severity)
    ensures
        first_error_message(report) is Some <==> any_error(report),
        first_error_message(report) is Some ==> exists|i: int|
            0 <= i < report.len() && (#[trigger] report[i]).severity == Severity::Error && first_error_message(report)
                == Some(report[i].message) && forall|j: int|
                0 <= j < i ==> (#[trigger] report[j]).severity != Severity::Error,
        count_severity(report, severity) == report.filter(|f: FindingModel| f.severity == severity).len(),
{
    lemma_first_error(report);
    lemma_counted(report, severity);
}

proof fn lemma_counted(report: Seq<FindingModel>, severity: Severity)
    ensures
        count_severity(report, severity) == report.filter(|f: FindingModel| f.severity == severity).len(),
    decreases report.len(),
{
    reveal(Seq::filter);
    if report.len() > 0 {
        lemma_counted(report.drop_last(), severity);
    }
}

proof fn lemma_first_error(report: Seq<FindingModel>)
    ensures
        first_error_message(report) is Some <==> any_error(report),
        first_error_message(report) is Some ==> exists|i: int|
            0 <= i < report.len() && (#[trigger] report[i]).severity == Severity::Error && first_error_message(report)
                == Some(report[i].message) && forall|j: int|
                0 <= j < i ==> (#[trigger] report[j]).severity != Severity::Error,
    decreases report.len(),
{
    if report.len() > 0 {
        let rest = report.drop_first();
        lemma_first_error(rest);
        assert forall|j: int| 1 <= j < report.len() implies #[trigger] report[j] == rest[j - 1] by {}
        if report[0].severity == Severity::Error {
            assert(first_error_message(report) == Some(report[0].message));
        } else if first_error_message(rest) is Some {
            let i = choose|i: int|
                0 <= i < rest.len() && (#[trigger] rest[i]).severity == Severity::Error && first_error_message(rest)
                    == Some(rest[i].message) && forall|j: int|
                    0 <= j < i ==> (#[trigger] rest[j]).severity != Severity::Error;
            assert(report[i + 1] == rest[i]);
            assert forall|j: int| 0 <= j < i + 1 implies (#[trigger] report[j]).severity != Severity::Error by {
                if j > 0 {
                    assert(report[j] == rest[j - 1]);
                }
            }
        } else if any_error(report) {
            let i = choose|i: int| 0 <= i < report.len() && (#[trigger] report[i]).severity == Severity::Error;
            assert(rest[i - 1].severity == Severity::Error);
        }
    }
}

/// A patch is filed under the first of its pairs that is marked primary, and
/// without one under its first pair.
pub proof fn law_patches_are_filed_under_their_primary_pair(m: Seq<ProcessorMatch>)
    ensures
        primary_of(m) is None <==> m.len() == 0,
        primary_of(m) matches Some(x) ==> {
            ||| exists|i: int|
                0 <= i < m.len() && #[trigger] m[i] == x && x.primary && forall|j: int|
                    0 <= j < i ==> !(#[trigger] m[j]).primary
            ||| x == m[0] && forall|j: int| 0 <= j < m.len() ==> !(#[trigger] m[j]).primary
        },
{
    lemma_first_primary(m);
}

proof fn lemma_first_primary(m: Seq<ProcessorMatch>)
    ensures
        match first_primary(m) {
            Some(x) => exists|i: int|
                0 <= i < m.len() && #[trigger] m[i] == x && x.primary && forall|j: int|
                    0 <= j < i ==> !(#[trigger] m[j]).primary,
            None => forall|j: int| 0 <= j < m.len() ==> !(#[trigger] m[j]).primary,
        },
    decreases m.len(),
{
    if m.len() > 0 {
        let rest = m.drop_first();
        lemma_first_primary(rest);
        assert forall|j: int| 1 <= j < m.len() implies #[trigger] m[j] == rest[j - 1] by {}
        if m[0].primary {
            assert(first_primary(m) == Some(m[0]));
        } else if let Some(x) = first_primary(rest) {
            let i = choose|i: int|
                0 <= i < rest.len() && #[trigger] rest[i] == x && x.primary && forall|j: int|
                    0 <= j < i ==> !(#[trigger] rest[j]).primary;
            assert(m[i + 1] == x);
            assert forall|j: int| 0 <= j < i + 1 implies !(#[trigger] m[j]).primary by {
                if j > 0 {
                    assert(m[j] == rest[j - 1]);
                }
            }
        }
    }
}

// --- names --------------------------------------------------------------------------

/// The names of a vendor agree: its CPUID text is read back as the vendor, its
/// blob is named by that text, and stands in the directory of the kernel's
/// loader. What is read as a vendor is one of these texts, or that of the other
/// maker of AMD's design.
pub proof fn law_vendor_names_agree(v: Vendor, s: Seq<char>)
    ensures
        Vendor::of_cpuid_text(v.cpuid_text()) == Some(v),
        v.blob_text() == v.cpuid_text() + ".bin"@,
        v.path_text() == "kernel/x86/microcode/"@ + v.blob_text(),
        Vendor::of_cpuid_text(s) == Some(v) ==> s == v.cpuid_text() || (s == "HygonGenuine"@ && v == Vendor::Amd),
        Vendor::of_cpuid_text("HygonGenuine"@) == Some(Vendor::Amd),
{
    reveal_strlit("GenuineIntel");
    reveal_strlit("AuthenticAMD");
    reveal_strlit("HygonGenuine");
    reveal_strlit("GenuineIntel.bin");
    reveal_strlit("AuthenticAMD.bin");
    reveal_strlit(".bin");
    reveal_strlit("kernel/x86/microcode/");
    reveal_strlit("kernel/x86/microcode/GenuineIntel.bin");
    reveal_strlit("kernel/x86/microcode/AuthenticAMD.bin");
    assert("GenuineIntel"@[0] == 'G' && "AuthenticAMD"@[0] == 'A' && "HygonGenuine"@[0] == 'H');
    assert(v.blob_text() =~= v.cpuid_text() + ".bin"@);
    assert(v.path_text() =~= "kernel/x86/microcode/"@ + v.blob_text());
}

/// A signature and a platform mask are read back from their texts, which differ
/// from the number's own digits by the prefix only.
pub proof fn law_signatures_are_read_back(s: CpuSignature, m: PlatformMask)
    ensures
        s.signature_text().take(2) == "0x"@,
        read_u32(s.signature_text().skip(2), 16) == Ok::<nat, NumberError>(s.0 as nat),
        m.mask_text().take(2) == "0x"@,
        read_u32(m.mask_text().skip(2), 16) == Ok::<nat, NumberError>(m.0 as nat),
{
    reveal_strlit("0x");
    law_number_round_trip(s.0 as nat, 16, 8);
    law_number_round_trip(m.0 as nat, 16, 2);
    assert(s.signature_text().take(2) =~= "0x"@);
    assert(m.mask_text().take(2) =~= "0x"@);
    assert(s.signature_text().skip(2) =~= hex(s.0 as nat, 8));
    assert(m.mask_text().skip(2) =~= hex(m.0 as nat, 2));
}

/// The firmware file of an Intel processor is named by its family, model and
/// stepping, two digits each.
pub proof fn law_firmware_is_named_by_the_version(family: u32, model: u32, stepping: u32)
    requires
        family <= 0xf + 0xff,
        model <= 0xff,
        stepping <= 0xf,
        family != 6 && family < 0xf ==> model <= 0xf,
    ensures
        CpuSignature(CpuSignature::encode(Vendor::Intel, family, model, stepping)).firmware_text() == hex(
            family as nat,
            2,
        ) + "-"@ + hex(model as nat, 2) + "-"@ + hex(stepping as nat, 2),
{
    law_fms_round_trip(Vendor::Intel, family, model, stepping);
}

/// Two platform masks agree exactly if a platform is in both, or neither names
/// one.
pub proof fn law_masks_agree_on_a_platform(a: PlatformMask, b: PlatformMask)
    ensures
        a.compatible(b) <==> a.0 & b.0 != 0 || (a.0 == 0 && b.0 == 0),
        a.compatible(b) <==> b.compatible(a),
{
    let (x, y) = (a.0, b.0);
    assert(x & y == y & x) by (bit_vector);
}

/// A finding is an error where what was found cannot be loaded or trusted, a
/// note where it is only out of the ordinary, and a warning everywhere else.
pub proof fn law_findings_are_graded(code: FindingCode)
    ensures
        code.severity() == Severity::Error <==> code is Truncated || code is BadMagic
            || code is UnsupportedHeaderVersion || code is BadTotalSize || code is BadDataSize
            || code is BadChecksum || code is BadExtendedTable || code is BadExtendedTableChecksum
            || code is BadExtendedSignatureChecksum || code is OverlappingRegions || code is LimitExceeded
            || code is EquivalenceTableUnterminated,
        code.severity() == Severity::Info <==> code is IfsTestImage || code is ReservedFieldNonZero
            || code is UnknownMetadataSection,
{
}

} // verus!
