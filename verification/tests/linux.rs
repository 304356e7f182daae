use ucodectl::linux::cpuid::{FeatureReading, HypervisorId, Leaf};
use ucodectl::linux::discover::{
    finalise, revision_from_proc, system_from_cpuid, system_from_proc, CpuFiles, CpuidReading,
    HostReadings, WindowsReading,
};
use ucodectl::linux::firmware::{probe_named, probe_paths, DirListing};
use ucodectl::linux::paths::firmware_blob_for_vendor;
use ucodectl::linux::sysfs::{
    cpu_online_state, microcode_version_path, online_path, read_platform_id_hint,
};
use ucodectl::linux::virt::{
    classify_virtualization, dmi_guest_signal, hypervisor_probe, wsl_guest_reason, HostSignals,
    HvProbe, HypervisorReading,
};
use ucodectl::linux::{
    default_firmware_paths, default_initrd_candidates, detect_virtualization,
    detect_virtualization_info, discover_system, parse_cpuinfo, probe_firmware_tree,
    read_microcode_version, system_from_cpuinfo_text, system_from_identity, with_platform_mask,
    CpuOnlineState, LinuxError, MicrocodeAuthority, VirtualizationInfo, VirtualizationKind,
};
use ucodectl::model::cpu::{
    CpuIdentity, CpuSignature, ObservationScope, PlatformMask, RevisionObservation,
    RevisionSource, Vendor,
};

const TWO_CPUS: &str = "\
processor\t: 0
vendor_id\t: GenuineIntel
cpu family\t: 6
model\t\t: 140
stepping\t: 1
microcode\t: 0xb4
physical id\t: 0
core id\t\t: 0

processor\t: 1
vendor_id\t: GenuineIntel
cpu family\t: 6
model\t\t: 140
stepping\t: 1
microcode\t: 0xb4
physical id\t: 0
core id\t\t: 1
";

fn signals(os: &str) -> HostSignals {
    HostSignals {
        os: os.to_string(),
        dockerenv: false,
        cgroup: None,
        container: None,
        osrelease: None,
        version: None,
        wsl_env: false,
        product_name: None,
        sys_vendor: None,
        board_name: None,
    }
}

fn readings(os: &str) -> HostReadings {
    HostReadings {
        signals: signals(os),
        firmware_counts: vec![],
        cpuinfo: None,
        cpu_files: vec![],
        windows: None,
    }
}

fn no_hypervisor() -> HvProbe {
    HvProbe { bit: false, vendor_label: None, hyperv_root: false, is_guest_vendor: false }
}

fn leaf(number: u32, eax: u32, ebx: u32) -> Leaf {
    Leaf { number, eax, ebx, ecx: 7, edx: 8 }
}

/// A hypervisor whose highest leaf is `max_leaf` and whose partitions have the
/// privileges in `features`.
fn reading(identity: Option<HypervisorId>, max_leaf: u32, features: u32) -> HypervisorReading {
    HypervisorReading {
        bit: true,
        identity,
        top: leaf(0x4000_0000, max_leaf, 2),
        partitions: leaf(0x4000_0003, 3, features),
    }
}

/// Family 0x19, model 0x21, stepping 2, as leaf 1 gives them.
fn zen_features() -> FeatureReading {
    FeatureReading {
        base_family: 0xf,
        extended_family: 0xa,
        base_model: 1,
        extended_model: 2,
        stepping: 2,
        hypervisor: false,
    }
}

/// Family 6, model 140, stepping 1, as leaf 1 gives them.
fn core_features(hypervisor: bool) -> FeatureReading {
    FeatureReading {
        base_family: 6,
        extended_family: 0,
        base_model: 0xc,
        extended_model: 8,
        stepping: 1,
        hypervisor,
    }
}

#[test]
fn parses_two_cpus() {
    let text = "\
processor\t: 0
vendor_id\t: GenuineIntel
cpu family\t: 6
model\t\t: 140
stepping\t: 1
microcode\t: 0xb4
physical id\t: 0
core id\t\t: 0

processor\t: 1
vendor_id\t: GenuineIntel
cpu family\t: 6
model\t\t: 140
stepping\t: 1
microcode\t: 0xb4
physical id\t: 0
core id\t\t: 1
";
    let cpus = parse_cpuinfo(text).unwrap();
    assert_eq!(cpus.len(), 2);
    assert_eq!(cpus[0].vendor, Vendor::Intel);
    assert_eq!(cpus[0].microcode, Some(0xb4));
    assert_eq!(cpus[0].signature().model_for(Vendor::Intel), 140);
}

#[test]
fn incomplete_blocks_are_dropped() {
    let text = "processor : 0\nvendor_id : GenuineIntel\n\nprocessor : +1\nvendor_id : AuthenticAMD\ncpu family : 25\nmodel : 33\nstepping : 2\nmicrocode : 169\nmodel name : x\nnoise";
    let cpus = parse_cpuinfo(text).unwrap();
    assert_eq!(cpus.len(), 1);
    assert_eq!(cpus[0].processor, 1);
    assert_eq!(cpus[0].microcode, Some(169));
    assert_eq!(cpus[0].core_id, None);
    assert_eq!(cpus[0].to_identity().signature, CpuSignature(0x00a20f12));
    let e = parse_cpuinfo("processor : x\n").unwrap_err();
    assert_eq!(e.to_string(), "failed to parse cpuinfo: no processor blocks found");
}

#[test]
fn proc_sentinel_is_not_a_revision() {
    let observation = revision_from_proc(Some(u32::MAX));
    assert_eq!(observation.known_revision(), None);
    assert!(matches!(
        observation,
        RevisionObservation::Unavailable { .. }
    ));
}

#[test]
fn probe_does_not_panic() {
    let info = detect_virtualization_info(&signals("linux"));
    // Must classify as something concrete on x86.
    assert!(matches!(
        info.kind,
        VirtualizationKind::Native
            | VirtualizationKind::HypervisorRoot
            | VirtualizationKind::VirtualMachineGuest
            | VirtualizationKind::Container
            | VirtualizationKind::Unknown
    ));
    assert!(!info.reason.is_empty());
}

#[test]
fn recognizes_wsl2_kernel_without_dmi() {
    let reason = wsl_guest_reason(
        "6.18.33.2-microsoft-standard-WSL2",
        "Linux version 6.18.33.2-microsoft-standard-WSL2",
        false,
    );
    assert!(reason.is_some_and(|r| r.contains("WSL2 guest")));
}

#[test]
fn recognizes_wsl_environment_marker() {
    let reason = wsl_guest_reason("6.12.0-generic", "Linux version 6.12.0", true);
    assert!(reason.is_some_and(|r| r.contains("WSL guest")));
}

#[test]
fn does_not_mistake_regular_linux_for_wsl() {
    assert!(wsl_guest_reason("6.12.0-generic", "Linux version 6.12.0", false).is_none());
}

#[test]
fn containers_come_first() {
    let mut s = signals("linux");
    s.cgroup = Some("0::/system.slice/Docker-abc".to_string());
    assert_eq!(detect_virtualization(&s), VirtualizationKind::Container);
    let mut s = signals("linux");
    s.container = Some(String::new());
    let c = classify_virtualization(&s, no_hypervisor());
    assert_eq!(c.kind, VirtualizationKind::Native);
    s.container = Some("podman".to_string());
    let c = classify_virtualization(&s, no_hypervisor());
    assert_eq!(c.kind, VirtualizationKind::Container);
    assert_eq!(c.authority, MicrocodeAuthority::Unknown);
}

#[test]
fn wsl_is_a_guest() {
    let mut s = signals("linux");
    s.osrelease = Some("5.15.0-Microsoft-standard-WSL2\n".to_string());
    let probe = hypervisor_probe(&reading(Some(HypervisorId::HyperV), 0x4000_0006, 1), false);
    let v = classify_virtualization(&s, probe);
    assert_eq!(v.kind, VirtualizationKind::VirtualMachineGuest);
    assert_eq!(v.authority, MicrocodeAuthority::HypervisorHost);
    assert_eq!(v.hypervisor_vendor.as_deref(), Some("HyperV"));
    assert!(!v.hyperv_root);
    s.os = "freebsd".to_string();
    let v = classify_virtualization(&s, no_hypervisor());
    assert_eq!(v.kind, VirtualizationKind::Native);
}

#[test]
fn dmi_names_show_guests() {
    let mut s = signals("linux");
    s.product_name = Some("KVM\n".to_string());
    s.board_name = Some("None\n".to_string());
    assert_eq!(
        dmi_guest_signal(&s).as_deref(),
        Some("DMI product/board indicates guest (\"KVM\" / \"\")")
    );
    s.product_name = Some("Surface Laptop".to_string());
    s.sys_vendor = Some("Microsoft Corporation".to_string());
    assert_eq!(dmi_guest_signal(&s), None);
    s.sys_vendor = Some("QEMU".to_string());
    assert_eq!(
        dmi_guest_signal(&s).as_deref(),
        Some("DMI sys_vendor indicates QEMU (\"QEMU\")")
    );
}

#[test]
fn the_hypervisor_bit_alone_is_no_guest() {
    let s = signals("linux");
    let v = classify_virtualization(&s, hypervisor_probe(&reading(None, 0, 0), false));
    assert_eq!(v.kind, VirtualizationKind::Unknown);
    assert_eq!(
        v.reason,
        "hypervisor present (\"no vendor id\") but partition role is not known"
    );
    let odd = reading(Some(HypervisorId::Unknown(1, 2, 3)), 0, 0);
    let v = classify_virtualization(&s, hypervisor_probe(&odd, false));
    assert_eq!(v.hypervisor_vendor.as_deref(), Some("Unknown(1, 2, 3)"));
    assert_eq!(v.kind, VirtualizationKind::Unknown);
    let kvm = reading(Some(HypervisorId::Kvm), 0x4000_0001, 0);
    let v = classify_virtualization(&s, hypervisor_probe(&kvm, false));
    assert_eq!(v.kind, VirtualizationKind::VirtualMachineGuest);
    assert_eq!(v.reason, "guest hypervisor identity \"KVM\"");
}

#[test]
fn hyperv_roots_are_hosts() {
    let s = signals("windows");
    let root = reading(Some(HypervisorId::HyperV), 0x4000_0003, 1);
    let v = classify_virtualization(&s, hypervisor_probe(&root, true));
    assert_eq!(v.kind, VirtualizationKind::HypervisorRoot);
    assert_eq!(v.authority, MicrocodeAuthority::FirmwareAndOperatingSystem);
    let short = reading(Some(HypervisorId::HyperV), 0x4000_0002, 0);
    assert!(hypervisor_probe(&short, true).hyperv_root);
    assert!(!hypervisor_probe(&short, false).hyperv_root);
    let plain = reading(Some(HypervisorId::HyperV), 0x4000_0003, 2);
    assert!(!hypervisor_probe(&plain, true).hyperv_root);
}

#[test]
fn virtualization_defaults_to_unknown() {
    let v = VirtualizationInfo::default();
    assert_eq!(v.kind, VirtualizationKind::Unknown);
    assert_eq!(v.reason, "not probed");
}

#[test]
fn sysfs_files_are_read() {
    assert_eq!(read_microcode_version(Some("0xb4\n")).unwrap(), Some(0xb4));
    assert_eq!(read_microcode_version(Some(" 0XB4 ")).unwrap(), Some(0xb4));
    assert_eq!(read_microcode_version(Some("12")).unwrap(), Some(12));
    assert_eq!(read_microcode_version(None).unwrap(), None);
    let e = read_microcode_version(Some("0xzz")).unwrap_err();
    assert_eq!(
        e.to_string(),
        "failed to parse microcode version: invalid digit found in string"
    );
    let e = read_microcode_version(Some("")).unwrap_err();
    assert_eq!(
        e.to_string(),
        "failed to parse microcode version: cannot parse integer from empty string"
    );
    let e = read_microcode_version(Some("0x100000000")).unwrap_err();
    assert_eq!(
        e.to_string(),
        "failed to parse microcode version: number too large to fit in target type"
    );
    assert_eq!(cpu_online_state(3, Some("1\n")), CpuOnlineState::Online);
    assert_eq!(cpu_online_state(3, Some("0\n")), CpuOnlineState::Offline);
    assert_eq!(cpu_online_state(3, Some("?")), CpuOnlineState::Unknown);
    assert_eq!(cpu_online_state(0, None), CpuOnlineState::Online);
    assert_eq!(cpu_online_state(1, None), CpuOnlineState::Unknown);
    assert_eq!(microcode_version_path(7), "/sys/devices/system/cpu/cpu7/microcode/version");
    assert_eq!(online_path(10), "/sys/devices/system/cpu/cpu10/online");
    assert_eq!(read_platform_id_hint(0), None);
}

#[test]
fn paths_are_the_usual_ones() {
    assert_eq!(default_firmware_paths()[1], "/lib/firmware/amd-ucode");
    assert_eq!(default_firmware_paths().len(), 5);
    let c = default_initrd_candidates(Some("6.1.0\n"));
    assert_eq!(c[0], "/boot/initrd.img-6.1.0");
    assert_eq!(c[1], "/boot/initramfs-6.1.0.img");
    assert_eq!(c[2], "/boot/initrd-6.1.0");
    assert_eq!(c[3], "/boot/initrd.img");
    assert_eq!(c.len(), 8);
    assert_eq!(default_initrd_candidates(Some(" \n")).len(), 5);
    assert_eq!(default_initrd_candidates(None).len(), 5);
    assert_eq!(
        firmware_blob_for_vendor("/lib/firmware", "amd-ucode", "x.bin"),
        std::path::Path::new("/lib/firmware").join("amd-ucode").join("x.bin").display().to_string()
    );
}

#[test]
fn paths_are_joined() {
    let native = |parts: &[&str]| {
        let mut path = std::path::PathBuf::from(parts[0]);
        for part in &parts[1..] {
            path = path.join(part);
        }
        path.display().to_string()
    };
    for (root, dir, file) in [
        ("/a", "b", "c"),
        ("/a/", "b/", "c"),
        ("", "b", ""),
        ("/a", "/b", "c"),
        ("a", "b", "/c"),
        ("", "", ""),
        ("C:", "x\\y", "C:\\z"),
    ] {
        assert_eq!(firmware_blob_for_vendor(root, dir, file), native(&[root, dir, file]));
    }
}

#[test]
fn the_final_name_tells_the_vendor() {
    let d = |p: &str| DirListing { path: p.to_string(), files: Some(1) };
    let t = probe_paths(&[d("/intel/amd-ucode/./"), d("/amd/.."), d("/"), d("amd/x"), d("/amd//")]);
    assert_eq!(t.amd_dirs, vec!["/intel/amd-ucode/./", "/amd//"]);
    assert_eq!(t.intel_dirs, vec!["/amd/..", "/", "amd/x"]);
    let named = probe_named(&[d("C:\\fw"), d("x")], &["amd".to_string(), "intel".to_string()]);
    assert_eq!(named.amd_dirs, vec!["C:\\fw"]);
    assert_eq!(named.intel_dirs, vec!["x"]);
}

#[test]
fn firmware_trees_are_told_apart() {
    let d = |p: &str, n: Option<usize>| DirListing { path: p.to_string(), files: n };
    let t = probe_paths(&[
        d("/x/intel-ucode/", Some(3)),
        d("/x/amd-ucode", Some(2)),
        d("/x/misc", Some(1)),
        d("/x/gone", None),
    ]);
    assert_eq!(t.intel_dirs, vec!["/x/intel-ucode/", "/x/misc"]);
    assert_eq!(t.amd_dirs, vec!["/x/amd-ucode"]);
    assert_eq!((t.intel_files, t.amd_files), (4, 2));
    let p = probe_firmware_tree(&[None, Some(4)]);
    assert_eq!(p.amd_dirs, vec!["/lib/firmware/amd-ucode"]);
    assert_eq!((p.intel_files, p.amd_files), (0, 4));
}

#[test]
fn sysfs_beats_proc() {
    let infos = parse_cpuinfo(TWO_CPUS).unwrap();
    let mut r = readings("linux");
    r.signals.osrelease = Some("6.1.0\n".to_string());
    r.firmware_counts = vec![Some(2)];
    r.cpu_files = vec![
        CpuFiles { version: Some("0xb6\n".to_string()), online: None },
        CpuFiles { version: None, online: Some("0".to_string()) },
    ];
    let s = system_from_proc(&infos, &r, &Some("  Tiger  ".to_string()), VirtualizationInfo::default());
    assert_eq!(s.source, "proc");
    assert_eq!(s.kernel_release.as_deref(), Some("6.1.0"));
    assert_eq!(s.cpus[0].identity.current_revision, Some(0xb6));
    assert_eq!(s.cpus[0].revision.source(), RevisionSource::LinuxSysfs);
    assert_eq!(s.cpus[0].brand.as_deref(), Some("Tiger"));
    assert_eq!(s.cpus[1].identity.current_revision, Some(0xb4));
    assert_eq!(s.cpus[1].revision.source(), RevisionSource::ProcCpuinfo);
    assert!(s.has_offline_cpus);
    assert!(s.mixed_revision);
    assert!(!s.mixed_signature);
    assert_eq!(s.unique_identities.len(), 1);
    assert_eq!(s.firmware.intel_files, 2);
    assert_eq!(s.vendors(), vec![Vendor::Intel]);
    assert_eq!(s.primary_cpu().unwrap().processor, 0);
    assert_eq!(s.primary_identity().unwrap().current_revision, Some(0xb6));
}

#[test]
fn hidden_revisions_stay_hidden() {
    let text = TWO_CPUS.replace("0xb4", "0xffffffff");
    let infos = parse_cpuinfo(&text).unwrap();
    let s = system_from_proc(&infos, &readings("linux"), &None, VirtualizationInfo::default());
    assert_eq!(s.cpus[0].identity.current_revision, None);
    assert_eq!(s.cpus[0].brand, None);
    let t = system_from_cpuinfo_text(&text, &readings("linux")).unwrap();
    assert_eq!(t.source, "cpuinfo-text");
    assert_eq!(t.cpus[0].identity.current_revision, None);
    assert!(!t.mixed_revision);
    assert!(matches!(
        system_from_cpuinfo_text("", &readings("linux")),
        Err(LinuxError::Parse { .. })
    ));
}

#[test]
fn cpuid_describes_a_system() {
    let c = CpuidReading {
        vendor: Some("AuthenticAMD".to_string()),
        features: Some(zen_features()),
        leaf: leaf(1, 0x00a20f12, 0),
        brand: Some(" ".to_string()),
    };
    let s = system_from_cpuid(&c, &readings("macos"), VirtualizationInfo::default()).unwrap();
    assert_eq!(s.cpus.len(), 1);
    assert_eq!(s.cpus[0].identity.signature, CpuSignature(0x00a20f12));
    assert_eq!(s.cpus[0].brand, None);
    assert_eq!(s.cpus[0].revision.source(), RevisionSource::Unavailable);
    assert!(s.windows_microcode.is_none());
    let odd = CpuidReading { leaf: leaf(1, 0x1234, 0), ..c };
    let s = system_from_cpuid(&odd, &readings("macos"), VirtualizationInfo::default()).unwrap();
    assert_eq!(s.cpus[0].identity.signature, CpuSignature(0x00a20f12));
    let none = CpuidReading { vendor: None, features: None, leaf: leaf(1, 0, 0), brand: None };
    let e = system_from_cpuid(&none, &readings("macos"), VirtualizationInfo::default()).unwrap_err();
    assert_eq!(e.to_string(), "no CPU information available");
}

#[test]
fn windows_revisions_are_system_wide() {
    let c = CpuidReading {
        vendor: Some("GenuineIntel".to_string()),
        features: Some(core_features(true)),
        leaf: leaf(1, 0x806c1, 0),
        brand: Some("Core".to_string()),
    };
    let mut r = readings("windows");
    r.windows = Some(WindowsReading {
        count: 4,
        current: RevisionObservation::known(0xb4, RevisionSource::WindowsRegistry),
        previous: None,
    });
    let s = system_from_cpuid(&c, &r, VirtualizationInfo::default()).unwrap();
    assert_eq!(s.cpus.len(), 4);
    assert_eq!(s.cpus[3].processor, 3);
    assert_eq!(s.cpus[3].identity.current_revision, Some(0xb4));
    assert_eq!(s.cpus[3].revision.scope(), ObservationScope::System);
    let w = s.windows_microcode.unwrap();
    assert_eq!(w.logical_processor_count, 4);
    assert_eq!(w.registry_keys_observed, 0);
    assert_eq!(w.current_revision.unwrap().known_revision(), Some(0xb4));
    r.windows = Some(WindowsReading {
        count: 0,
        current: RevisionObservation::known(0xb4, RevisionSource::WindowsRegistry),
        previous: Some(RevisionObservation::known(0xb0, RevisionSource::WindowsRegistry)),
    });
    let s = system_from_cpuid(&c, &r, VirtualizationInfo::default()).unwrap();
    assert_eq!(s.cpus.len(), 1);
    assert_eq!(s.windows_microcode.unwrap().registry_keys_observed, 1);
}

#[test]
fn discovery_prefers_proc() {
    let mut r = readings("linux");
    r.cpuinfo = Some(TWO_CPUS.to_string());
    let s = discover_system(&r).unwrap();
    assert_eq!(s.source, "proc");
    assert_eq!(s.cpus.len(), 2);
    r.signals.os = "haiku".to_string();
    match discover_system(&r) {
        Ok(s) => assert_eq!(s.source, "cpuid"),
        Err(e) => assert_eq!(
            e.to_string(),
            "not running on Linux; CPU discovery requires /proc/cpuinfo or x86 CPUID"
        ),
    }
}

#[test]
fn manual_systems_know_one_cpu() {
    let id = CpuIdentity::new(Vendor::Amd, CpuSignature(0x00a20f12)).with_revision(5);
    let s = system_from_identity(id, "linux");
    assert_eq!(s.source, "manual");
    assert_eq!(s.cpus[0].identity, id);
    assert_eq!(s.unique_identities, vec![id]);
    assert_eq!(s.virtualization, VirtualizationKind::Unknown);
}

#[test]
fn kinds_are_listed_once() {
    let mut text = TWO_CPUS.to_string();
    text.push_str("\nprocessor : 2\nvendor_id : AuthenticAMD\ncpu family : 25\nmodel : 33\nstepping : 2\n");
    let infos = parse_cpuinfo(&text).unwrap();
    let s = system_from_proc(&infos, &readings("linux"), &None, VirtualizationInfo::default());
    assert_eq!(s.unique_identities.len(), 2);
    assert!(s.mixed_signature);
    assert!(!s.mixed_revision);
    assert_eq!(s.vendors(), vec![Vendor::Intel, Vendor::Amd]);
    let m = with_platform_mask(s, PlatformMask(0x80));
    assert_eq!(m.cpus[0].identity.platform_mask, Some(PlatformMask(0x80)));
    assert_eq!(m.cpus[2].identity.platform_mask, None);
    assert_eq!(m.unique_identities[0].platform_mask, Some(PlatformMask(0x80)));
    let again = with_platform_mask(m, PlatformMask(1));
    assert_eq!(again.cpus[0].identity.platform_mask, Some(PlatformMask(0x80)));
}

#[test]
fn an_empty_system_has_no_primary() {
    let s = finalise(vec![], "none", None, &readings("linux"), VirtualizationInfo::default());
    assert!(s.primary_cpu().is_none());
    assert!(s.primary_identity().is_none());
    assert!(s.vendors().is_empty());
    assert!(!s.mixed_signature && !s.has_offline_cpus);
}

#[test]
fn families_and_models_are_folded() {
    assert_eq!(zen_features().family(), 0x19);
    assert_eq!(zen_features().model(Vendor::Amd), 0x21);
    assert_eq!(core_features(false).family(), 6);
    assert_eq!(core_features(false).model(Vendor::Intel), 140);
    assert_eq!(core_features(false).model(Vendor::Amd), 0xc);
    let old = FeatureReading { base_family: 5, extended_family: 9, ..core_features(false) };
    assert_eq!(old.family(), 5);
    assert_eq!(old.model(Vendor::Intel), 0xc);
    let top = FeatureReading { extended_family: 0xff, ..zen_features() };
    assert_eq!(top.family(), 0x10e);
    assert_eq!(top.model(Vendor::Intel), 0x21);
}

#[test]
fn a_large_extended_family_is_described() {
    let c = CpuidReading {
        vendor: Some("AuthenticAMD".to_string()),
        features: Some(FeatureReading { extended_family: 0xff, ..zen_features() }),
        leaf: leaf(1, 0x0ff20f12, 0),
        brand: None,
    };
    let s = system_from_cpuid(&c, &readings("linux"), VirtualizationInfo::default()).unwrap();
    assert_eq!(s.cpus[0].identity.signature, CpuSignature(0x0ff20f12));
    assert_eq!(s.cpus[0].identity.signature.family(), 0x10e);
}

#[test]
fn a_missing_feature_leaf_is_taken_for_a_root_on_windows_alone() {
    let id = Some(HypervisorId::HyperV);
    let short = reading(id, 0x4000_0002, 1);
    assert!(hypervisor_probe(&short, true).hyperv_root);
    assert!(!hypervisor_probe(&short, false).hyperv_root);
    assert!(hypervisor_probe(&reading(id, 0x4000_0003, 1), false).hyperv_root);
    assert!(!hypervisor_probe(&reading(id, 0x4000_0003, 2), true).hyperv_root);
    let absent = HypervisorReading { bit: false, ..reading(None, 0x4000_0003, 1) };
    let probe = hypervisor_probe(&absent, true);
    assert!(!probe.bit && !probe.hyperv_root && !probe.is_guest_vendor);
}
