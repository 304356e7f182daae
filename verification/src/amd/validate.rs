//! Validation of one AMD patch.

use vstd::prelude::*;
use crate::amd::header::{AmdPatchHeader, PatchHeaderModel, PATCH_HEADER_SIZE};
use crate::intel::validate::given;
use crate::model::cpu::CpuSignature;
use crate::model::date::UcodeDate;
use crate::model::validate::{finding, Finding, FindingCode, FindingModel, ValidationReport};
use crate::number::{around_dec, around_hex8, dec, dec_text, hex, hex_text};

verus! {

/// The largest patch that the Linux loader takes for a family.
pub open spec fn family_limit(family: u32) -> Option<u32> {
    if 0x10 <= family <= 0x13 {
        Some(2048)
    } else if family == 0x14 {
        Some(1824)
    } else if family == 0x15 {
        Some(4096)
    } else if family == 0x16 {
        Some(3458)
    } else if 0x17 <= family <= 0x18 {
        Some(3200)
    } else if family == 0x19 {
        Some(5568)
    } else if family == 0x1a {
        Some(16384)
    } else {
        None
    }
}

/// Per-family maximum patch size, mirroring the constants in
/// `arch/x86/kernel/cpu/microcode/amd.c`. Families the kernel does not pin
/// return `None` and are only size-checked against the global limit.
pub fn max_patch_size_for_family(family: u32) -> (r: Option<u32>)
    ensures
        r == family_limit(family),
{
    match family {
        0x10 | 0x11 | 0x12 | 0x13 => Some(2048),
        0x14 => Some(1824),
        0x15 => Some(4096),
        0x16 => Some(3458),
        0x17 | 0x18 => Some(3200),
        0x19 => Some(5568),
        // Zen 5 and later ship substantially larger patches (observed 14368
        // bytes on family 0x1a). No published constant, so use a generous
        // bound that still catches nonsense.
        0x1a => Some(16384),
        _ => None,
    }
}

/// Findings on the processors of a patch: none is known, or the patch is too
/// large for the family of the first.
pub open spec fn target_findings(
    h: PatchHeaderModel,
    size: u32,
    offset: int,
    signatures: Seq<CpuSignature>,
) -> Seq<FindingModel> {
    if signatures.len() == 0 {
        seq![
            finding(
                FindingCode::EquivalenceIdNotInTable,
                offset + 24,
                "patch equivalence id 0x"@ + hex(h.processor_rev_id as nat, 4)
                    + " is not present in the container's equivalence table; the loader will never select this patch"@,
            ),
        ]
    } else {
        let family = signatures[0].display_family();
        match family_limit(family) {
            Some(max) => given(
                size > max,
                finding(
                    FindingCode::PatchSizeExceedsFamilyMaximum,
                    offset,
                    "patch is "@ + dec(size as nat) + " bytes but family 0x"@ + hex(family as nat, 0)
                        + " is limited to "@ + dec(max as nat) + " bytes by the Linux loader"@,
                ),
            ),
            None => Seq::empty(),
        }
    }
}

/// Findings on the size and the date of a patch.
pub open spec fn body_findings(h: PatchHeaderModel, size: u32, offset: int) -> Seq<FindingModel> {
    given(
        size < PATCH_HEADER_SIZE,
        finding(
            FindingCode::BadTotalSize,
            offset,
            "patch section is "@ + dec(size as nat) + " bytes, smaller than the 64-byte header"@,
        ),
    ) + match UcodeDate::decode(h.date_raw) {
        None => seq![
            finding(
                FindingCode::NonBcdDate,
                offset,
                "date field 0x"@ + hex(h.date_raw as nat, 8) + " is not valid packed BCD"@,
            ),
        ],
        Some(d) => given(
            !d.plausible(),
            finding(
                FindingCode::ImplausibleDate,
                offset,
                "implausible release date "@ + d.date_text(),
            ),
        ),
    }
}

/// Three bytes as a list of hexadecimal numbers in brackets.
pub open spec fn byte_list(b: Seq<u8>) -> Seq<char> {
    "["@ + hex(b[0] as nat, 2) + ", "@ + hex(b[1] as nat, 2) + ", "@ + hex(b[2] as nat, 2) + "]"@
}

/// Findings on the patch id and the reserved bytes.
pub open spec fn id_findings(h: PatchHeaderModel, offset: int) -> Seq<FindingModel> {
    given(h.patch_id == 0, finding(FindingCode::ZeroRevision, offset + 4, "patch id is zero"@)) + given(
        h.reserved != seq![0u8, 0u8, 0u8],
        finding(
            FindingCode::ReservedFieldNonZero,
            offset + 29,
            "reserved bytes are "@ + byte_list(h.reserved),
        ),
    )
}

/// Everything that validation reports on a patch.
pub open spec fn patch_report(
    h: PatchHeaderModel,
    size: u32,
    offset: int,
    signatures: Seq<CpuSignature>,
) -> Seq<FindingModel> {
    target_findings(h, size, offset, signatures) + body_findings(h, size, offset) + id_findings(h, offset)
}

fn check_target(
    r: &mut ValidationReport,
    header: &AmdPatchHeader,
    section_size: u32,
    offset: u64,
    signatures: &[CpuSignature],
)
    requires
        offset + 29 <= u64::MAX,
    ensures
        final(r)@ == old(r)@ + target_findings(header@, section_size, offset as int, signatures@),
{
    if signatures.len() == 0 {
        let mut m = "patch equivalence id 0x".to_owned();
        m.append(hex_text(header.processor_rev_id as u64, 4).as_str());
        m.append(
            " is not present in the container's equivalence table; the loader will never select this patch",
        );
        r.push(Finding::new(FindingCode::EquivalenceIdNotInTable, offset + 24, m.as_str()));
    } else {
        let family = signatures[0].family();
        if let Some(max) = max_patch_size_for_family(family) {
            if section_size > max {
                let mut m = around_dec("patch is ", section_size as u64, " bytes but family 0x");
                m.append(hex_text(family as u64, 0).as_str());
                m.append(" is limited to ");
                m.append(dec_text(max as u64).as_str());
                m.append(" bytes by the Linux loader");
                r.push(Finding::new(FindingCode::PatchSizeExceedsFamilyMaximum, offset, m.as_str()));
            }
        }
    }
    assert(r@ =~= old(r)@ + target_findings(header@, section_size, offset as int, signatures@));
}

fn check_body(r: &mut ValidationReport, header: &AmdPatchHeader, section_size: u32, offset: u64)
    ensures
        final(r)@ == old(r)@ + body_findings(header@, section_size, offset as int),
{
    if (section_size as usize) < PATCH_HEADER_SIZE {
        r.push(
            Finding::new(
                FindingCode::BadTotalSize,
                offset,
                around_dec(
                    "patch section is ",
                    section_size as u64,
                    " bytes, smaller than the 64-byte header",
                ).as_str(),
            ),
        );
    }
    match UcodeDate::from_packed_bcd(header.date_raw) {
        None => {
            r.push(
                Finding::new(
                    FindingCode::NonBcdDate,
                    offset,
                    around_hex8("date field 0x", header.date_raw, " is not valid packed BCD").as_str(),
                ),
            );
        },
        Some(d) => {
            if !d.is_plausible() {
                let mut m = "implausible release date ".to_owned();
                m.append(d.to_string().as_str());
                r.push(Finding::new(FindingCode::ImplausibleDate, offset, m.as_str()));
            }
        },
    }
    assert(r@ =~= old(r)@ + body_findings(header@, section_size, offset as int));
}

fn check_id(r: &mut ValidationReport, header: &AmdPatchHeader, offset: u64)
    requires
        offset + 29 <= u64::MAX,
    ensures
        final(r)@ == old(r)@ + id_findings(header@, offset as int),
{
    if header.patch_id == 0 {
        r.push(Finding::new(FindingCode::ZeroRevision, offset + 4, "patch id is zero"));
    }
    let reserved = header.reserved;
    proof {
        let zero = seq![0u8, 0u8, 0u8];
        if reserved@[0] == 0 && reserved@[1] == 0 && reserved@[2] == 0 {
            assert(header@.reserved =~= zero);
        } else {
            assert(header@.reserved != zero) by {
                assert(zero[0] == 0 && zero[1] == 0 && zero[2] == 0);
            }
        }
    }
    if reserved[0] != 0 || reserved[1] != 0 || reserved[2] != 0 {
        let mut m = "reserved bytes are ".to_owned();
        let mut list = "[".to_owned();
        list.append(hex_text(reserved[0] as u64, 2).as_str());
        list.append(", ");
        list.append(hex_text(reserved[1] as u64, 2).as_str());
        list.append(", ");
        list.append(hex_text(reserved[2] as u64, 2).as_str());
        list.append("]");
        m.append(list.as_str());
        r.push(Finding::new(FindingCode::ReservedFieldNonZero, offset + 29, m.as_str()));
    }
    assert(r@ =~= old(r)@ + id_findings(header@, offset as int));
}

pub fn validate_patch(
    header: &AmdPatchHeader,
    section_size: u32,
    offset: u64,
    signatures: &[CpuSignature],
) -> (r: ValidationReport)
    requires
        offset + 29 <= u64::MAX,
    ensures
        r@ == patch_report(header@, section_size, offset as int, signatures@),
{
    let mut r = ValidationReport::default();
    check_target(&mut r, header, section_size, offset, signatures);
    check_body(&mut r, header, section_size, offset);
    check_id(&mut r, header, offset);
    assert(r@ =~= patch_report(header@, section_size, offset as int, signatures@));
    r
}

} // verus!
