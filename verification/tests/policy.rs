use ucodectl::catalog::{ingest_bytes, Catalog, IngestOptions};
use ucodectl::intel::header::dword_sum;
use ucodectl::linux::{system_from_identity, SystemState, VirtualizationKind};
use ucodectl::model::cpu::{CpuIdentity, CpuSignature, PlatformMask, Vendor};
use ucodectl::model::patch::RuntimeUpdatePolicy;
use ucodectl::policy::plan::evaluate_cpu;
use ucodectl::policy::state::host_concerns;
use ucodectl::policy::{evaluate, Action, PlanInput, PlannedWrite, PolicyError, SystemStatus};

fn put(b: &mut [u8], at: usize, v: u32) {
    b[at..at + 4].copy_from_slice(&v.to_le_bytes());
}

fn update(revision: u32, mark: u8) -> Vec<u8> {
    let mut b = vec![0u8; 2048];
    put(&mut b, 0, 1);
    put(&mut b, 4, revision);
    put(&mut b, 8, 0x11172023);
    put(&mut b, 12, 0x806c1);
    put(&mut b, 20, 1);
    put(&mut b, 24, 0x80);
    put(&mut b, 28, 2000);
    put(&mut b, 32, 2048);
    b[100] = mark;
    let sum = dword_sum(&b);
    put(&mut b, 16, 0u32.wrapping_sub(sum));
    b
}

fn catalog(revisions: &[u32]) -> Catalog {
    let mut c = Catalog::default();
    for r in revisions {
        ingest_bytes(&mut c, "x", &update(*r, 0), &IngestOptions::default()).unwrap();
    }
    c
}

fn cpu(running: Option<u32>) -> CpuIdentity {
    let id = CpuIdentity::new(Vendor::Intel, CpuSignature(0x806c1))
        .with_platform_mask(PlatformMask(0x80));
    match running {
        Some(r) => id.with_revision(r),
        None => id,
    }
}

fn system(running: Option<u32>) -> SystemState {
    system_from_identity(cpu(running), "linux")
}

fn status(running: Option<u32>, best: &[u32], embedded: Option<&[u32]>, allow: bool) -> SystemStatus {
    let available = catalog(best);
    let emb = embedded.map(catalog);
    evaluate_cpu(0, &cpu(running), &available, emb.as_ref(), allow).status
}

fn input<'a>(s: &'a SystemState, available: &'a Catalog, embedded: Option<&'a Catalog>) -> PlanInput<'a> {
    PlanInput {
        system: s,
        available,
        embedded,
        allow_downgrade: false,
        want_early_image: false,
        early_output: None,
    }
}

#[test]
fn revisions_decide_the_status() {
    assert_eq!(status(Some(9), &[9], None, false), SystemStatus::UpToDate);
    assert_eq!(status(Some(9), &[9], Some(&[9]), false), SystemStatus::UpToDate);
    assert_eq!(status(Some(9), &[9], Some(&[5]), false), SystemStatus::BootArtifactOutdated);
    assert_eq!(status(Some(5), &[9], None, false), SystemStatus::InstalledButNotBootable);
    assert_eq!(status(Some(5), &[9], Some(&[7]), false), SystemStatus::BootArtifactOutdated);
    assert_eq!(status(Some(5), &[9], Some(&[9]), false), SystemStatus::RebootRequired);
    assert_eq!(status(Some(9), &[5], None, false), SystemStatus::FirmwareOlderThanBios);
    assert_eq!(status(Some(9), &[5], None, true), SystemStatus::UnsafeDowngrade);
    assert_eq!(status(None, &[5], None, false), SystemStatus::Unknown);
    assert_eq!(status(None, &[5], Some(&[3]), false), SystemStatus::BootArtifactOutdated);
    assert_eq!(status(Some(9), &[], None, false), SystemStatus::Unknown);
}

#[test]
fn reasons_are_given() {
    let e = evaluate_cpu(4, &cpu(Some(5)), &catalog(&[9]), Some(&catalog(&[7])), false);
    assert_eq!(e.processor, 4);
    assert_eq!(
        e.reasons,
        vec![
            "running 0x00000005, best available 0x00000009",
            "boot artifact embeds 0x00000007, which is outdated"
        ]
    );
    assert_eq!(e.best_available_revision, Some(9));
    assert_eq!(e.embedded_revision, Some(7));
    assert_eq!(e.best_patch.unwrap().revision, 9);
    let e = evaluate_cpu(0, &cpu(Some(9)), &catalog(&[5]), None, false);
    assert_eq!(
        e.reasons,
        vec!["best available 0x00000005 is older than running 0x00000009"]
    );
}

#[test]
fn gates_are_annotated() {
    let mut c = catalog(&[9]);
    c.patches[0].runtime_update = RuntimeUpdatePolicy::RequiresBaseRevision(6);
    c.patches[0].min_base_revision = Some(7);
    let e = evaluate_cpu(0, &cpu(Some(5)), &c, None, false);
    assert_eq!(
        e.reasons[2],
        "runtime update to 0x00000009 requires base revision ≥ 0x00000006"
    );
    assert_eq!(
        e.reasons[3],
        "AMD minimum base revision 0x00000007 not satisfied by running 0x00000005"
    );
}

#[test]
fn unknown_platforms_get_no_patch() {
    let id = CpuIdentity::new(Vendor::Intel, CpuSignature(0x806c1));
    let e = evaluate_cpu(0, &id, &catalog(&[9]), None, false);
    assert_eq!(e.status, SystemStatus::PlatformIdUnknown);
    assert!(e.best_patch.is_none());
    let other = CpuIdentity::new(Vendor::Intel, CpuSignature(0x1));
    let e = evaluate_cpu(0, &other, &catalog(&[9]), None, false);
    assert_eq!(e.status, SystemStatus::NoCompatiblePatch);
}

#[test]
fn ambiguity_is_never_resolved() {
    let mut c = catalog(&[9]);
    ingest_bytes(&mut c, "y", &update(9, 1), &IngestOptions::default()).unwrap();
    let s = system(Some(5));
    let mut i = input(&s, &c, None);
    i.want_early_image = true;
    let p = evaluate(&i);
    assert_eq!(p.overall_status, SystemStatus::AmbiguousMatch);
    assert_eq!(p.action, Action::InvestigateAmbiguity);
    assert!(p.writes.is_empty() && !p.would_change);
}

#[test]
fn a_stale_artifact_is_rebuilt() {
    let c = catalog(&[9]);
    let e = catalog(&[7]);
    let s = system(Some(9));
    let p = evaluate(&input(&s, &c, Some(&e)));
    assert_eq!(p.overall_status, SystemStatus::BootArtifactOutdated);
    assert_eq!(p.action, Action::InstallFirmwareAndRebuildEarly);
    assert!(p.would_change);
    match &p.writes[0] {
        PlannedWrite::EarlyCpio { path, intel_patches, amd_patches } => {
            assert_eq!(path, "ucode-early.cpio");
            assert_eq!((*intel_patches, *amd_patches), (1, 0));
        }
        _ => panic!("an image is written"),
    }
}

#[test]
fn a_wanted_image_is_built() {
    let c = catalog(&[9]);
    let s = system(Some(9));
    let mut i = input(&s, &c, None);
    i.want_early_image = true;
    i.early_output = Some("/out".to_string());
    let p = evaluate(&i);
    assert_eq!(p.overall_status, SystemStatus::UpToDate);
    assert_eq!(p.action, Action::RebuildEarlyImage);
    assert!(matches!(&p.writes[0], PlannedWrite::EarlyCpio { path, .. } if path == "/out"));
    assert_eq!(p.messages.len(), 2);
}

#[test]
fn a_reboot_is_recommended() {
    let c = catalog(&[9]);
    let e = catalog(&[9]);
    let s = system(Some(5));
    let p = evaluate(&input(&s, &c, Some(&e)));
    assert_eq!(p.overall_status, SystemStatus::RebootRequired);
    assert_eq!(p.action, Action::Reboot);
    assert!(!p.would_change);
    assert_eq!(p.plan_version, 1);
}

#[test]
fn up_to_date_needs_nothing() {
    let c = catalog(&[9]);
    let s = system(Some(9));
    let p = evaluate(&input(&s, &c, None));
    assert_eq!(p.action, Action::NoAction);
    assert_eq!(p.messages, vec!["running microcode matches the best available patch"]);
}

#[test]
fn guests_are_advised_but_not_hidden() {
    let mut s = system(Some(5));
    s.virtualization = VirtualizationKind::VirtualMachineGuest;
    let none = Catalog::default();
    let p = evaluate(&input(&s, &none, None));
    assert_eq!(p.overall_status, SystemStatus::VirtualMachineHostManaged);
    assert_eq!(p.action, Action::NoOpVirtualMachine);
    let c = catalog(&[9]);
    let p = evaluate(&input(&s, &c, None));
    assert_eq!(p.overall_status, SystemStatus::InstalledButNotBootable);
    assert!(p.messages[0].starts_with("guest virtualization detected ("));
}

#[test]
fn mixed_systems_are_a_concern() {
    let mut s = system(Some(9));
    assert!(host_concerns(&s).is_empty());
    s.mixed_revision = true;
    assert_eq!(host_concerns(&s), vec![SystemStatus::MixedCpuConfiguration]);
    let c = catalog(&[9]);
    let p = evaluate(&input(&s, &c, None));
    assert_eq!(p.overall_status, SystemStatus::MixedCpuConfiguration);
    assert_eq!(
        p.messages,
        vec!["mixed CPU signature or microcode revision detected across logical CPUs"]
    );
}

#[test]
fn an_empty_catalog_is_said() {
    let mut s = system(Some(9));
    s.os = "macos".to_string();
    let c = Catalog::default();
    let p = evaluate(&input(&s, &c, None));
    assert_eq!(p.overall_status, SystemStatus::Unknown);
    assert_eq!(p.messages.len(), 2);
    assert!(p.messages[0].starts_with("running on macos; "));
}

#[test]
fn identities_stand_in_for_cpus() {
    let mut s = system(Some(5));
    s.cpus.clear();
    let c = catalog(&[9]);
    let p = evaluate(&input(&s, &c, None));
    assert_eq!(p.cpus.len(), 1);
    assert_eq!(p.cpus[0].processor, 0);
}

#[test]
fn statuses_have_names() {
    assert_eq!(SystemStatus::UpToDate.as_str(), "up_to_date");
    assert_eq!(SystemStatus::PlatformIdUnknown.as_str(), "platform_id_unknown");
    assert_eq!(PolicyError::Invalid("x".to_string()).to_string(), "x");
}

#[test]
fn a_missing_catalog_is_told_apart() {
    assert_eq!(status(Some(5), &[], None, false), SystemStatus::Unknown);
    let mut s = system(Some(5));
    s.cpus[0].identity.signature = CpuSignature(0x906ea);
    let c = catalog(&[9]);
    let p = evaluate(&input(&s, &c, None));
    assert_eq!(p.cpus[0].status, SystemStatus::NoCompatiblePatch);
    assert_eq!(p.cpus[0].reasons, vec!["no applicable patch in available catalog"]);
    let none = Catalog::default();
    let p = evaluate(&input(&s, &none, None));
    assert_eq!(p.cpus[0].status, SystemStatus::Unknown);
    assert_eq!(p.cpus[0].reasons, vec!["no firmware catalog loaded"]);
}
