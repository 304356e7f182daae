use ucodectl::model::cpu::{
    CpuIdentity, CpuSignature, ObservationConfidence, ObservationScope, PlatformMask,
    RawObservation, RevisionObservation, RevisionSource, Vendor,
};
use ucodectl::model::date::UcodeDate;
use ucodectl::model::error::CoreError;
use ucodectl::model::limits::Limits;
use ucodectl::model::patch::{
    HeaderKind, PatchMeta, PatchOrigin, ProcessorMatch, RuntimeUpdatePolicy,
};
use ucodectl::model::select::{select_for_cpu, Rejection};
use ucodectl::model::validate::{Finding, FindingCode, Severity, ValidationReport};

fn patch(sig: u32, mask: u32, revision: u32, source: &str) -> PatchMeta {
    PatchMeta {
        vendor: Vendor::Intel,
        kind: HeaderKind::Microcode,
        revision,
        date: UcodeDate::from_packed_bcd(0x11172023),
        total_size: 2048,
        data_size: 2000,
        matches: vec![ProcessorMatch::intel(CpuSignature(sig), PlatformMask(mask), true)],
        runtime_update: RuntimeUpdatePolicy::Unspecified,
        min_base_revision: None,
        origin: PatchOrigin { source: source.to_string(), offset: 0, length: 2048 },
        sha256: Some([revision as u8; 32]),
    }
}

fn intel_cpu(sig: u32, mask: u32) -> CpuIdentity {
    CpuIdentity::new(Vendor::Intel, CpuSignature(sig)).with_platform_mask(PlatformMask(mask))
}

#[test]
fn raw_revision_observation_is_self_describing() {
    let observation = RevisionObservation::known_raw(
        0x1234,
        RevisionSource::WindowsRegistry,
        vec![0x34, 0x12, 0, 0],
    );
    assert!(matches!(
        &observation,
        RevisionObservation::Known { raw: Some(_), .. }
    ));
    if let RevisionObservation::Known {
        scope,
        confidence,
        raw: Some(raw),
        ..
    } = observation
    {
        assert_eq!(scope, ObservationScope::LogicalProcessor);
        assert_eq!(confidence, ObservationConfidence::Reported);
        assert_eq!(raw.encoding, "little_endian_u32");
        assert_eq!(raw.hex, "34120000");
        assert_eq!(raw.bytes, vec![0x34, 0x12, 0, 0]);
    }
}

#[test]
fn raw_encodings_go_by_length() {
    assert_eq!(
        RawObservation::from_bytes(vec![0; 8]).encoding,
        "little_endian_u32_at_offset_4"
    );
    let odd = RawObservation::from_bytes(vec![1, 0xab, 2]);
    assert_eq!(odd.encoding, "raw_bytes");
    assert_eq!(odd.hex, "01ab02");
}

#[test]
fn signature_decodes_and_encodes() {
    let tiger = CpuSignature(0x000806c1);
    assert_eq!(tiger.family(), 6);
    assert_eq!(tiger.model_for(Vendor::Intel), 0x8c);
    assert_eq!(tiger.stepping(), 1);
    assert_eq!(tiger.base_family(), 6);
    assert_eq!(tiger.extended_family(), 0);
    assert_eq!(tiger.processor_type(), 0);
    assert_eq!(tiger.raw(), 0x000806c1);
    assert_eq!(tiger.intel_firmware_name(), "06-8c-01");
    assert_eq!(tiger.to_string(), "0x000806c1");
    assert_eq!(CpuSignature::from_fms(Vendor::Intel, 6, 140, 1), tiger);

    let zen3 = CpuSignature(0x00a20f12);
    assert_eq!(zen3.family(), 0x19);
    assert_eq!(zen3.model_for(Vendor::Amd), 0x21);
    assert_eq!(zen3.stepping(), 2);
    assert_eq!(CpuSignature::from_fms(Vendor::Amd, 0x19, 0x21, 2), zen3);
}

#[test]
fn old_intel_parts_have_short_models() {
    let p = CpuSignature::from_fms(Vendor::Intel, 5, 0x14, 3);
    assert_eq!(p.raw(), 0x543);
    assert_eq!(p.model_for(Vendor::Intel), 4);
}

#[test]
fn platform_masks_match() {
    assert!(PlatformMask(0x82).matches(PlatformMask(0x80)));
    assert!(!PlatformMask(0x82).matches(PlatformMask(0x10)));
    assert!(PlatformMask::any().matches(PlatformMask(0)));
    assert!(!PlatformMask::any().matches(PlatformMask(1)));
    assert_eq!(PlatformMask::from_platform_id(3), PlatformMask(8));
    assert_eq!(PlatformMask::from_platform_id(9), PlatformMask(2));
    assert_eq!(PlatformMask(0x90).first_platform_id(), Some(4));
    assert_eq!(PlatformMask(0).first_platform_id(), None);
    assert_eq!(PlatformMask(0x2).to_string(), "0x02");
    assert_eq!(PlatformMask::default().raw(), 0);
}

#[test]
fn vendors_have_their_names() {
    assert_eq!(Vendor::from_cpuid_string("GenuineIntel"), Some(Vendor::Intel));
    assert_eq!(Vendor::from_cpuid_string("AuthenticAMD"), Some(Vendor::Amd));
    assert_eq!(Vendor::from_cpuid_string("HygonGenuine"), Some(Vendor::Amd));
    assert_eq!(Vendor::from_cpuid_string("CentaurHauls"), None);
    assert_eq!(Vendor::Intel.cpuid_string(), "GenuineIntel");
    assert_eq!(Vendor::Amd.early_blob_name(), "AuthenticAMD.bin");
    assert_eq!(Vendor::Intel.early_cpio_path(), "kernel/x86/microcode/GenuineIntel.bin");
    assert_eq!(Vendor::Amd.to_string(), "AMD");
}

#[test]
fn observations_keep_why() {
    let o = RevisionObservation::unavailable(RevisionSource::Manual, "not here");
    assert_eq!(o.known_revision(), None);
    assert_eq!(o.source(), RevisionSource::Manual);
    assert_eq!(o.scope(), ObservationScope::Unknown);
    assert_eq!(o.confidence(), ObservationConfidence::Unverified);
    let k = RevisionObservation::known(7, RevisionSource::LinuxSysfs);
    assert_eq!(k.known_revision(), Some(7));
    assert_eq!(k.confidence(), ObservationConfidence::Authoritative);
    let s = k.with_scope_confidence(ObservationScope::System, ObservationConfidence::Inferred);
    assert_eq!(s.scope(), ObservationScope::System);
    assert_eq!(s.confidence(), ObservationConfidence::Inferred);
    assert_eq!(s.known_revision(), Some(7));
    let u = RevisionObservation::unsupported(RevisionSource::WindowsRegistry, "x");
    assert!(matches!(u, RevisionObservation::Unsupported { .. }));
    let i = RevisionObservation::invalid(RevisionSource::WindowsRegistry, vec![1], "y");
    assert!(matches!(i, RevisionObservation::Invalid { .. }));
}

#[test]
fn dates_are_packed_decimal() {
    let d = UcodeDate::from_packed_bcd(0x11172023).unwrap();
    assert_eq!((d.year, d.month, d.day), (2023, 11, 17));
    assert!(d.is_plausible());
    assert_eq!(d.sort_key(), 20231117);
    assert_eq!(d.to_string(), "2023-11-17");
    assert_eq!(UcodeDate::from_packed_bcd(0x1a172023), None);
    let odd = UcodeDate::from_packed_bcd(0x13010000).unwrap();
    assert!(!odd.is_plausible());
}

#[test]
fn sort_key_is_chronological() {
    let a = UcodeDate::from_packed_bcd(0x12312022).unwrap();
    let b = UcodeDate::from_packed_bcd(0x01012023).unwrap();
    assert!(a.sort_key() < b.sort_key());
    assert!(a.raw > b.raw);
}

#[test]
fn best_patch_is_the_newest() {
    let patches = vec![
        patch(0x806c1, 0x80, 0xa4, "a"),
        patch(0x806c1, 0x80, 0xb4, "b"),
        patch(0x806c1, 0x80, 0x9a, "c"),
        patch(0x906ea, 0x80, 0xff, "d"),
    ];
    let out = select_for_cpu(&patches, &intel_cpu(0x806c1, 0x80));
    assert_eq!(out.best.unwrap().revision, 0xb4);
    let order: Vec<u32> = out.applicable.iter().map(|p| p.revision).collect();
    assert_eq!(order, vec![0xb4, 0xa4, 0x9a]);
    assert!(!out.is_ambiguous());
    assert_eq!(out.considered[3].rejection, Some(Rejection::SignatureMismatch));
}

#[test]
fn nothing_is_guessed_without_a_platform() {
    let patches = vec![patch(0x806c1, 0x80, 0xa4, "a")];
    let out = select_for_cpu(&patches, &CpuIdentity::new(Vendor::Intel, CpuSignature(0x806c1)));
    assert!(out.best.is_none());
    assert_eq!(out.considered[0].rejection, Some(Rejection::PlatformIdUnknown));
}

#[test]
fn rejections_name_the_first_reason() {
    let mut ifs = patch(0x806c1, 0x80, 1, "ifs");
    ifs.kind = HeaderKind::IntelIfsTestImage;
    let patches = vec![ifs, patch(0x806c1, 0x02, 1, "mask")];
    let out = select_for_cpu(&patches, &intel_cpu(0x806c1, 0x80));
    assert_eq!(out.considered[0].rejection, Some(Rejection::NotAMicrocodeImage));
    assert_eq!(out.considered[1].rejection, Some(Rejection::PlatformMaskMismatch));
    let amd = CpuIdentity::new(Vendor::Amd, CpuSignature(0x806c1));
    let other = select_for_cpu(&patches, &amd);
    assert_eq!(other.considered[0].rejection, Some(Rejection::WrongVendor));
}

#[test]
fn ambiguity_is_a_tie_with_other_bytes() {
    let mut twin = patch(0x806c1, 0x80, 0xb4, "b");
    twin.sha256 = Some([9; 32]);
    let patches = vec![patch(0x806c1, 0x80, 0xb4, "a"), twin];
    let out = select_for_cpu(&patches, &intel_cpu(0x806c1, 0x80));
    assert!(out.is_ambiguous());
    assert_eq!(out.ambiguous_with[0].revision, 0xb4);
    let same = vec![patch(0x806c1, 0x80, 0xb4, "a"), patch(0x806c1, 0x80, 0xb4, "b")];
    assert!(!select_for_cpu(&same, &intel_cpu(0x806c1, 0x80)).is_ambiguous());
}

#[test]
fn narrower_masks_are_preferred() {
    let mut wide = patch(0x806c1, 0xff, 5, "a");
    wide.sha256 = Some([5; 32]);
    let patches = vec![wide, patch(0x806c1, 0x80, 5, "b")];
    let out = select_for_cpu(&patches, &intel_cpu(0x806c1, 0x80));
    assert_eq!(out.best.unwrap().origin.source, "b");
}

#[test]
fn patch_metadata_answers() {
    let mut p = patch(0x806c1, 0x80, 0xb4, "a");
    assert!(p.is_loadable());
    assert!(p.is_newer_than(0xb3));
    assert!(!p.is_newer_than(0xb4));
    assert_eq!(p.runtime_update_allowed_from(1), None);
    p.runtime_update = RuntimeUpdatePolicy::RequiresBaseRevision(0xa0);
    assert_eq!(p.runtime_update_allowed_from(0xa0), Some(true));
    assert_eq!(p.runtime_update_allowed_from(0x9f), Some(false));
    p.runtime_update = RuntimeUpdatePolicy::RequiresBaseRevision(0);
    assert_eq!(p.runtime_update_allowed_from(1), None);
    assert_eq!(p.base_revision_satisfied(1), None);
    p.min_base_revision = Some(2);
    assert_eq!(p.base_revision_satisfied(1), Some(false));
    assert_eq!(p.base_revision_satisfied(2), Some(true));
    let r = p.patch_ref().unwrap();
    assert_eq!((r.revision, r.platform_mask), (0xb4, PlatformMask(0x80)));
    assert!(p.applies_to(&intel_cpu(0x806c1, 0x80)));
    assert!(!p.applies_to(&intel_cpu(0x806c1, 0x01)));
}

#[test]
fn findings_have_default_severities() {
    let f = Finding::new(FindingCode::BadChecksum, 4, "bad").with_length(8);
    assert_eq!(f.severity, Severity::Error);
    assert_eq!(f.length, Some(8));
    let soft = Finding::new(FindingCode::ZeroRevision, 0, "zero");
    assert_eq!(soft.severity, Severity::Warning);
    assert_eq!(soft.escalate(Severity::Error).severity, Severity::Error);
    let hard = Finding::new(FindingCode::BadMagic, 0, "m").escalate(Severity::Info);
    assert_eq!(hard.severity, Severity::Error);
}

#[test]
fn reports_summarise() {
    let mut r = ValidationReport::default();
    assert!(r.is_clean());
    assert_eq!(r.max_severity(), None);
    r.push(Finding::new(FindingCode::ReservedFieldNonZero, 1, "i"));
    r.push(Finding::new(FindingCode::ZeroRevision, 2, "w"));
    assert!(!r.has_errors());
    assert_eq!(r.max_severity(), Some(Severity::Warning));
    let mut more = ValidationReport::default();
    more.push(Finding::new(FindingCode::Truncated, 3, "e"));
    r.extend(more);
    assert!(r.has_errors());
    assert_eq!(r.count(Severity::Error), 1);
    assert!(r.first_error().is_some());
}

#[test]
fn core_errors_have_messages() {
    let e = CoreError::Truncated { offset: 3, needed: 8, available: 2 };
    assert_eq!(
        e.to_string(),
        "input truncated: needed 8 bytes at offset 3, only 2 available"
    );
    let e = CoreError::OutOfRange { offset: 5, what: "size".to_string() };
    assert_eq!(e.to_string(), "value out of range at offset 5: size");
    let e = CoreError::LimitExceeded { what: "patches", value: 9, limit: 4 };
    assert_eq!(e.to_string(), "resource limit exceeded: patches (9 > 4)");
    assert_eq!(CoreError::UnknownFormat.to_string(), "unrecognised container format");
    assert_eq!(CoreError::Malformed("m".to_string()).to_string(), "m");
}

#[test]
fn tiny_limits_are_smaller() {
    assert!(Limits::tiny().max_blob_bytes < Limits::default().max_blob_bytes);
    assert_eq!(Limits::default().max_patches, 65_536);
}

#[test]
fn amd_has_no_platform_mask() {
    let id = CpuIdentity::new(Vendor::Amd, CpuSignature(0x00a20f12));
    assert_eq!(id.effective_platform_mask(), Some(PlatformMask(0)));
    assert_eq!(intel_cpu(0x806c1, 0x80).effective_platform_mask(), Some(PlatformMask(0x80)));
    let bare = CpuIdentity::new(Vendor::Intel, CpuSignature(0x806c1));
    assert_eq!(bare.effective_platform_mask(), None);
}
