use ucodectl::amd::AmdContainerBuilder;
use ucodectl::archive::{scan_early_cpio, CpioBuilder};
use ucodectl::boot::initrd::inspect_members;
use ucodectl::boot::uki::{inspect_sections, pe_has_certificate_table, scan_section};
use ucodectl::boot::{
    build_early_cpio, extract_embedded_microcode, inspect_initrd_bytes, inspect_uki_bytes,
    BootError, EarlyBuildInput,
};
use ucodectl::catalog::{ingest_bytes, Catalog, IngestOptions};
use ucodectl::intel::header::dword_sum;
use ucodectl::intel::{IntelBundle, IntelValidationMode};
use ucodectl::model::cpu::{CpuIdentity, CpuSignature, PlatformMask, Vendor};
use ucodectl::model::limits::Limits;

fn put(b: &mut [u8], at: usize, v: u32) {
    b[at..at + 4].copy_from_slice(&v.to_le_bytes());
}

fn update(sig: u32, mask: u32, revision: u32) -> Vec<u8> {
    let mut b = vec![0u8; 2048];
    put(&mut b, 0, 1);
    put(&mut b, 4, revision);
    put(&mut b, 8, 0x11172023);
    put(&mut b, 12, sig);
    put(&mut b, 20, 1);
    put(&mut b, 24, mask);
    put(&mut b, 28, 2000);
    put(&mut b, 32, 2048);
    let sum = dword_sum(&b);
    put(&mut b, 16, 0u32.wrapping_sub(sum));
    b
}

fn catalog() -> Catalog {
    let mut c = Catalog::default();
    let o = IngestOptions::default();
    ingest_bytes(&mut c, "a", &update(0x806c1, 0x80, 3), &o).unwrap();
    ingest_bytes(&mut c, "b", &update(0x806c1, 0x80, 9), &o).unwrap();
    ingest_bytes(&mut c, "c", &update(0x906ea, 2, 5), &o).unwrap();
    c
}

fn input(c: &Catalog, best_only: bool) -> EarlyBuildInput<'_> {
    EarlyBuildInput { catalog: c, filter_cpus: None, emit_parent_dirs: true, best_only }
}

/// A PE32+ image with one section.
fn image(name: &str, data: &[u8], signed: bool) -> Vec<u8> {
    let mut b = vec![0u8; 512];
    b[0] = 0x4d;
    b[1] = 0x5a;
    put(&mut b, 0x3c, 0x40);
    b[0x40] = 0x50;
    b[0x41] = 0x45;
    b[0x44..0x46].copy_from_slice(&0x8664u16.to_le_bytes());
    b[0x46..0x48].copy_from_slice(&1u16.to_le_bytes());
    b[0x54..0x56].copy_from_slice(&240u16.to_le_bytes());
    b[0x56..0x58].copy_from_slice(&0x0022u16.to_le_bytes());
    let opt = 0x58;
    b[opt..opt + 2].copy_from_slice(&0x20bu16.to_le_bytes());
    put(&mut b, opt + 32, 0x1000);
    put(&mut b, opt + 36, 0x200);
    put(&mut b, opt + 108, 16);
    if signed {
        put(&mut b, opt + 112 + 32, 0x4000);
        put(&mut b, opt + 112 + 36, 0x80);
    }
    let sec = opt + 240;
    b[sec..sec + name.len()].copy_from_slice(name.as_bytes());
    put(&mut b, sec + 8, data.len() as u32);
    put(&mut b, sec + 12, 0x1000);
    put(&mut b, sec + 16, data.len() as u32);
    put(&mut b, sec + 20, 512);
    b.extend_from_slice(data);
    b
}

#[test]
fn early_image_holds_the_newest() {
    let c = catalog();
    let built = build_early_cpio(input(&c, true)).unwrap();
    assert_eq!(built.intel_patches, 2);
    assert_eq!(built.amd_patches, 0);
    assert_eq!(built.size as usize, built.bytes.len());
    assert_eq!(built.paths, vec!["kernel/x86/microcode/GenuineIntel.bin"]);
    assert_eq!(built.sha256.len(), 64);
    let all = build_early_cpio(input(&c, false)).unwrap();
    assert_eq!(all.intel_patches, 3);
    let again = build_early_cpio(input(&c, true)).unwrap();
    assert_eq!(again.bytes, built.bytes);
    let found = extract_embedded_microcode(&built.bytes, &Limits::default()).unwrap();
    assert_eq!(found.len(), 1);
    assert_eq!(found[0].0, "kernel/x86/microcode/GenuineIntel.bin");
    assert_eq!(found[0].1.len(), 2 * 2048);
}

#[test]
fn filters_keep_the_wanted_cpus() {
    let c = catalog();
    let cpus = vec![CpuIdentity::new(Vendor::Intel, CpuSignature(0x906ea))
        .with_platform_mask(PlatformMask(2))];
    let built = build_early_cpio(EarlyBuildInput {
        filter_cpus: Some(cpus.as_slice()),
        ..input(&c, true)
    })
    .unwrap();
    assert_eq!(built.intel_patches, 1);
}

#[test]
fn a_known_platform_that_differs_is_left_out() {
    let mut c = Catalog::default();
    let o = IngestOptions::default();
    ingest_bytes(&mut c, "a", &update(0x806c1, 0x01, 3), &o).unwrap();
    let cpu = CpuIdentity::new(Vendor::Intel, CpuSignature(0x806c1));
    let build = |cpus: &[CpuIdentity]| {
        build_early_cpio(EarlyBuildInput { filter_cpus: Some(cpus), ..input(&c, true) })
    };
    let other = cpu.with_platform_mask(PlatformMask(0x02));
    assert!(matches!(build(&[other]), Err(BootError::Malformed(_))));
    let same = cpu.with_platform_mask(PlatformMask(0x01));
    assert_eq!(build(&[same]).unwrap().intel_patches, 1);
    assert_eq!(build(&[cpu]).unwrap().intel_patches, 1);
    assert_eq!(build(&[other, cpu]).unwrap().intel_patches, 1);
    let amd = CpuIdentity::new(Vendor::Amd, CpuSignature(0x806c1));
    assert!(matches!(build(&[amd]), Err(BootError::Malformed(_))));
}

#[test]
fn nothing_to_build_is_an_error() {
    let c = Catalog::default();
    let e = build_early_cpio(input(&c, true)).unwrap_err();
    assert_eq!(e.to_string(), "no microcode patches selected for early CPIO");
}

#[test]
fn initrd_is_inspected() {
    let c = catalog();
    let mut blob = build_early_cpio(input(&c, true)).unwrap().bytes;
    let early = blob.len() as u64;
    blob.extend_from_slice(&[0x1f, 0x8b, 8, 0]);
    let i = inspect_initrd_bytes(&blob, "/boot/initrd.img", &Limits::default()).unwrap();
    assert!(i.has_early_cpio);
    assert_eq!(i.early_end_offset, Some(early));
    assert_eq!(i.archive_count, 1);
    assert_eq!(i.file_size, early + 4);
    assert_eq!(i.embedded.len(), 1);
    assert_eq!(i.embedded[0].vendor, Some(Vendor::Intel));
    assert_eq!(i.embedded[0].size, 4096);
    assert_eq!(i.patch_count, 2);
    assert_eq!(
        i.catalog.sources[0].path,
        "/boot/initrd.img/kernel/x86/microcode/GenuineIntel.bin"
    );
    assert!(i.findings.is_empty());
}

#[test]
fn damaged_members_become_findings() {
    let mut b = CpioBuilder::new();
    b.add_file("x/AuthenticAMD.bin", vec![9; 40]).unwrap();
    b.add_file("other", vec![1]).unwrap();
    let blob = b.build().unwrap();
    let i = inspect_initrd_bytes(&blob, "i", &Limits::default()).unwrap();
    assert_eq!(i.embedded.len(), 1);
    assert_eq!(i.embedded[0].vendor, Some(Vendor::Amd));
    assert_eq!(
        i.findings,
        vec!["x/AuthenticAMD.bin: i/x/AuthenticAMD.bin: unrecognised microcode format"]
    );
    assert_eq!(i.patch_count, 0);
}

#[test]
fn an_image_without_archive_says_so() {
    let i = inspect_initrd_bytes(&[0x1f, 0x8b, 8, 0], "i", &Limits::default()).unwrap();
    assert!(!i.has_early_cpio);
    assert_eq!(i.findings, vec!["no leading uncompressed newc CPIO found"]);
    assert!(extract_embedded_microcode(&[1, 2], &Limits::default()).unwrap().is_empty());
    let c = catalog();
    let blob = build_early_cpio(input(&c, true)).unwrap().bytes;
    let e = inspect_initrd_bytes(&blob[..60], "i", &Limits::default()).unwrap_err();
    assert!(matches!(e, BootError::Archive(_)));
}

#[test]
fn uki_sections_are_read() {
    let c = catalog();
    let early = build_early_cpio(input(&c, true)).unwrap().bytes;
    let pe = image(".ucode", &early, true);
    let u = inspect_uki_bytes(&pe, "linux.efi", &Limits::default()).unwrap();
    assert!(u.is_pe);
    assert!(u.has_ucode_section);
    assert_eq!(u.ucode_size, Some(early.len() as u64));
    assert_eq!(u.sections.len(), 1);
    assert_eq!(u.sections[0].name, ".ucode");
    assert_eq!(u.sections[0].size, early.len() as u64);
    assert_eq!(u.sections[0].sha256, u.ucode_sha256);
    assert!(u.has_authenticode);
    assert_eq!(u.patch_count, 2);
    assert!(u.findings.is_empty());
}

#[test]
fn a_raw_blob_in_the_section_is_read_too() {
    let pe = image(".ucode", &update(0x806c1, 0x80, 9), false);
    let u = inspect_uki_bytes(&pe, "u", &Limits::default()).unwrap();
    assert_eq!(u.patch_count, 1);
    assert!(!u.has_authenticode);
    let junk = inspect_uki_bytes(&image(".ucode", &[9; 40], false), "u", &Limits::default()).unwrap();
    assert_eq!(
        junk.findings,
        vec![".ucode parse: catalog error: u/.ucode: unrecognised microcode format"]
    );
    let none = inspect_uki_bytes(&image(".text", &[1; 8], false), "u", &Limits::default()).unwrap();
    assert_eq!(none.findings, vec!["no .ucode section present"]);
    let e = inspect_uki_bytes(&[1, 2, 3], "u", &Limits::default()).unwrap_err();
    assert!(e.to_string().starts_with("PE/UKI parse error: "));
}

#[test]
fn the_last_ucode_section_counts() {
    let parts = vec![
        (Some(".ucode".to_string()), 3, Some(vec![1u8, 2, 3])),
        (None, 9, None),
        (Some(".ucode".to_string()), 2048, Some(update(0x806c1, 0x80, 9))),
    ];
    let limits = Limits::default();
    let scan = scan_section(&parts, &limits);
    assert!(scan.is_none());
    let u = inspect_sections(&parts, &scan, &[0; 4], "u", &vec![], "u|.ucode", &limits);
    assert_eq!(u.catalog.sources[0].path, "u|.ucode");
    assert_eq!(u.sections[1].name, "<unnamed>");
    assert_eq!(u.sections[1].sha256, None);
    assert_eq!(u.ucode_size, Some(2048));
    assert_eq!(u.patch_count, 1);
}

#[test]
fn members_are_recorded_under_their_paths() {
    let limits = Limits::default();
    let name = "kernel/x86/microcode/GenuineIntel.bin";
    let mut cpio = CpioBuilder::new();
    cpio.add_file("a", vec![1, 2, 3]).unwrap();
    cpio.add_file(name, update(0x806c1, 0x80, 9)).unwrap();
    let blob = cpio.build().unwrap();
    let native = std::path::Path::new("dir").join("img").join(name).display().to_string();
    let base = std::path::Path::new("dir").join("img").display().to_string();
    let i = inspect_initrd_bytes(&blob, &base, &limits).unwrap();
    assert_eq!(i.catalog.sources[0].path, native);
    assert_eq!(i.embedded[0].path, name);
    let u = inspect_uki_bytes(&image(".ucode", &blob, false), &base, &limits).unwrap();
    assert_eq!(u.catalog.sources[0].path, native);

    let scan = scan_early_cpio(&blob, &limits).unwrap().unwrap();
    let paths: Vec<String> = scan.entries.iter().map(|e| format!("D:\\i\\{}", e.name)).collect();
    let i = inspect_members(&scan, &blob, "D:\\i", &paths, &limits);
    assert_eq!(i.path, "D:\\i");
    assert_eq!(i.catalog.sources[0].path, *paths.last().unwrap());
    let parts = vec![(Some(".ucode".to_string()), 1, Some(blob))];
    let scan = scan_section(&parts, &limits);
    assert_eq!(scan.as_ref().unwrap().entries.len(), paths.len());
    let u = inspect_sections(&parts, &scan, &[], "D:\\i", &paths, "", &limits);
    assert_eq!(u.catalog.sources[0].path, *paths.last().unwrap());
}

#[test]
fn certificate_tables_are_found() {
    assert!(pe_has_certificate_table(&image("x", &[], true)));
    assert!(!pe_has_certificate_table(&image("x", &[], false)));
    assert!(!pe_has_certificate_table(&[0; 16]));
    let mut odd = image("x", &[], true);
    odd[0x58] = 0;
    assert!(!pe_has_certificate_table(&odd));
}

#[test]
fn chosen_updates_read_back() {
    let c = catalog();
    let blob = build_early_cpio(input(&c, false)).unwrap().bytes;
    let found = extract_embedded_microcode(&blob, &Limits::default()).unwrap();
    assert_eq!(found.len(), 1);
    assert_eq!(found[0].0, "kernel/x86/microcode/GenuineIntel.bin");
    let expected =
        [update(0x806c1, 0x80, 3), update(0x806c1, 0x80, 9), update(0x906ea, 2, 5)].concat();
    let mut sorted: Vec<&[u8]> = found[0].1.chunks(2048).collect();
    let mut wanted: Vec<&[u8]> = expected.chunks(2048).collect();
    sorted.sort();
    wanted.sort();
    assert_eq!(sorted, wanted);
    let bundle =
        IntelBundle::parse(&found[0].1, IntelValidationMode::Strict, &Limits::default()).unwrap();
    assert_eq!(bundle.entries.len(), 3);
    assert!(bundle.report.findings.is_empty());
}

fn amd_blob(entries: &[(u32, u16)], patches: &[(u16, u32)]) -> Vec<u8> {
    let mut b = AmdContainerBuilder::new();
    for (sig, id) in entries {
        b.add_equivalence_mapping(CpuSignature(*sig), *id);
    }
    for (id, revision) in patches {
        let mut p = vec![0u8; 128];
        put(&mut p, 0, 0x11172023);
        put(&mut p, 4, *revision);
        p[24..26].copy_from_slice(&id.to_le_bytes());
        b.add_patch(*id, *revision, p);
    }
    b.build().unwrap()
}

#[test]
fn the_newest_amd_patch_is_kept() {
    let mut c = Catalog::default();
    let o = IngestOptions::default();
    let table = [(0x00a20f12, 0xa212), (0x00a20f10, 0xa210)];
    ingest_bytes(&mut c, "a", &amd_blob(&table, &[(0xa212, 3), (0xa210, 7)]), &o).unwrap();
    ingest_bytes(&mut c, "b", &amd_blob(&table, &[(0xa212, 9), (0xa210, 5)]), &o).unwrap();
    let best = build_early_cpio(input(&c, true)).unwrap();
    assert_eq!(best.amd_patches, 2);
    assert_eq!(best.paths, vec!["kernel/x86/microcode/AuthenticAMD.bin"]);
    let i = inspect_initrd_bytes(&best.bytes, "i", &Limits::default()).unwrap();
    let mut found: Vec<u32> = i.catalog.patches.iter().map(|p| p.revision).collect();
    found.sort();
    assert_eq!(found, vec![7, 9]);
    assert_eq!(build_early_cpio(input(&c, false)).unwrap().amd_patches, 4);
}
