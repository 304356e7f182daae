use ucodectl::amd::{write_container, AmdContainerBuilder};
use ucodectl::catalog::ingest::{check_file_count, plan_visit, settle_child, PathKind, Visit};
use ucodectl::catalog::{
    detect_format, diff_catalogs, ingest_bytes, AmdSidecar, Catalog, CatalogError, DetectedFormat,
    DiffKind, IngestOptions, Manifest,
};
use ucodectl::intel::header::dword_sum;
use ucodectl::model::cpu::{CpuIdentity, CpuSignature, PlatformMask, Vendor};

fn put(b: &mut [u8], at: usize, v: u32) {
    b[at..at + 4].copy_from_slice(&v.to_le_bytes());
}

fn update(sig: u32, mask: u32, revision: u32) -> Vec<u8> {
    let mut b = vec![0u8; 2048];
    put(&mut b, 0, 1);
    put(&mut b, 4, revision);
    put(&mut b, 8, 0x11172023);
    put(&mut b, 12, sig);
    put(&mut b, 20, 1);
    put(&mut b, 24, mask);
    put(&mut b, 28, 2000);
    put(&mut b, 32, 2048);
    let sum = dword_sum(&b);
    put(&mut b, 16, 0u32.wrapping_sub(sum));
    b
}

fn amd_container(id: u32) -> Vec<u8> {
    let mut p = vec![0u8; 256];
    put(&mut p, 0, 0x11172023);
    put(&mut p, 4, id);
    p[24..26].copy_from_slice(&0xa212u16.to_le_bytes());
    let mut b = AmdContainerBuilder::new();
    b.add_equivalence_mapping(CpuSignature(0x00a20f12), 0xa212);
    b.add_patch(0xa212, id, p);
    write_container(b).unwrap()
}

fn catalog(blobs: &[(&str, Vec<u8>)]) -> Catalog {
    let mut c = Catalog::default();
    for (path, bytes) in blobs {
        ingest_bytes(&mut c, path, bytes, &IngestOptions::default()).unwrap();
    }
    c
}

#[test]
fn parses_minimum_base_revision() {
    let text = "\
Microcode patches in microcode_amd_fam19h.bin:
  Family=0x19 Model=0x01 Stepping=0x01: Patch=0x0a0011d5 Length=5568 bytes
    Minimum base ucode version for loading: 0x0a0011d9
  Family=0x19 Model=0x11 Stepping=0x01: Patch=0x0a101148 Length=5568 bytes
";
    let s = AmdSidecar::parse_linux_firmware_readme(text).unwrap();
    assert_eq!(s.min_base_revision(0x0a0011d5), Some(0x0a0011d9));
    assert_eq!(s.min_base_revision(0x0a101148), None);
    assert_eq!(s.len(), 1);
}

#[test]
fn misplaced_minimums_are_refused() {
    let e = AmdSidecar::parse_linux_firmware_readme(
        "Minimum base ucode version for loading: 0x1\n",
    )
    .unwrap_err();
    assert_eq!(
        e.to_string(),
        "sidecar metadata error: found a minimum-base line before any patch line"
    );
    let e = AmdSidecar::parse_linux_firmware_readme(
        "Patch=0x1\nMinimum base ucode version for loading: soon\n",
    )
    .unwrap_err();
    assert_eq!(
        e.to_string(),
        "sidecar metadata error: unparseable minimum revision in \"Minimum base ucode version for loading: soon\""
    );
    let s = AmdSidecar::parse_linux_firmware_readme("Patch=0x1\nNote: x\n").unwrap();
    assert!(s.is_empty());
    assert_eq!(s.note(1), Some("Note: x"));
}

#[test]
fn bytes_decide_the_format() {
    assert_eq!(detect_format(&update(0x806c1, 0x80, 1)), DetectedFormat::IntelBinary);
    assert_eq!(detect_format(&amd_container(1)), DetectedFormat::AmdContainer);
    assert_eq!(detect_format("0x1, 0x2,".as_bytes()), DetectedFormat::IntelDat);
    assert_eq!(detect_format(&[9; 40]), DetectedFormat::Unknown);
}

#[test]
fn ingestion_only_adds() {
    let mut c = catalog(&[("a", update(0x806c1, 0x80, 0xb4))]);
    assert_eq!(c.len(), 1);
    assert_eq!(c.sources[0].patch_count, 1);
    assert_ne!(c.sources[0].sha256, [0u8; 32]);
    let e = ingest_bytes(&mut c, "junk", &[9; 40], &IngestOptions::default()).unwrap_err();
    assert_eq!(e.to_string(), "junk: unrecognised microcode format");
    assert_eq!(c.len(), 1);
    let only_amd = IngestOptions { only_vendor: Some(Vendor::Amd), ..IngestOptions::default() };
    ingest_bytes(&mut c, "b", &update(0x906ea, 2, 1), &only_amd).unwrap();
    assert_eq!(c.len(), 1);
    assert_eq!(c.sources.len(), 1);
    ingest_bytes(&mut c, "b", &amd_container(5), &only_amd).unwrap();
    assert_eq!(c.len(), 2);
    assert_eq!(c.sources.len(), 2);
    assert_eq!(c.sources[1].path, "b");
    assert_eq!(c.sources[1].patch_count, 1);
    assert_eq!(c.vendors(), vec![Vendor::Intel, Vendor::Amd]);
}

#[test]
fn dat_text_is_ingested() {
    let bin = update(0x806c1, 0x80, 0xb4);
    let mut text = String::new();
    for w in bin.chunks(4) {
        let v = u32::from_le_bytes([w[0], w[1], w[2], w[3]]);
        text.push_str(&format!("0x{v:08x},\n"));
    }
    let c = catalog(&[("microcode.dat", text.into_bytes())]);
    assert_eq!(c.patches[0].revision, 0xb4);
    assert_eq!(c.sources[0].format, DetectedFormat::IntelDat);
}

#[test]
fn normalising_sorts_and_drops_copies() {
    let a = update(0x906ea, 2, 7);
    let b = update(0x806c1, 0x80, 3);
    let mut c = catalog(&[("x", a.clone()), ("y", b.clone()), ("z", a.clone())]);
    c.normalise();
    assert_eq!(c.len(), 2);
    assert_eq!(c.patches[0].revision, 3);
    assert_eq!(c.patches[1].revision, 7);
    assert_eq!(c.payload_for(&c.patches[1]).unwrap(), &a[..]);
    let once: Vec<u32> = c.patches.iter().map(|p| p.revision).collect();
    c.normalise();
    let twice: Vec<u32> = c.patches.iter().map(|p| p.revision).collect();
    assert_eq!(once, twice);
    assert_eq!(c.iter().len(), 2);
}

#[test]
fn catalogs_select() {
    let c = catalog(&[("x", update(0x806c1, 0x80, 3)), ("y", update(0x806c1, 0x80, 9))]);
    let cpu = CpuIdentity::new(Vendor::Intel, CpuSignature(0x806c1))
        .with_platform_mask(PlatformMask(0x80));
    assert_eq!(c.select(&cpu).best.unwrap().revision, 9);
    let groups = c.by_signature();
    assert_eq!(groups.len(), 1);
    assert_eq!(groups[0].1.len(), 2);
}

#[test]
fn sidecar_minimums_are_applied() {
    let mut c = catalog(&[("x", amd_container(0x0a0011d5))]);
    let s = AmdSidecar::parse_linux_firmware_readme(
        "Patch=0x0a0011d5 Length=1\nMinimum base ucode version for loading: 0x0a0011d9\n",
    )
    .unwrap();
    assert_eq!(c.apply_sidecar(&s), 1);
    assert_eq!(c.patches[0].min_base_revision, Some(0x0a0011d9));
}

#[test]
fn diffs_are_antisymmetric() {
    let old = catalog(&[("x", update(0x806c1, 0x80, 3)), ("y", update(0x906ea, 2, 7))]);
    let new = catalog(&[("x", update(0x806c1, 0x80, 9)), ("z", amd_container(1))]);
    let d = diff_catalogs(&old, &new, true);
    assert_eq!((d.added, d.removed, d.upgraded, d.downgraded), (1, 1, 1, 0));
    let back = diff_catalogs(&new, &old, true);
    assert_eq!((back.added, back.removed, back.upgraded, back.downgraded), (1, 1, 0, 1));
    let up = d.entries.iter().find(|e| e.kind == DiffKind::Upgraded).unwrap();
    assert_eq!(up.signature, "0x000806c1");
    assert_eq!(up.old_revision.as_deref(), Some("0x00000003"));
    assert_eq!(up.new_revision.as_deref(), Some("0x00000009"));
    assert_eq!(up.new_date.as_deref(), Some("2023-11-17"));
}

#[test]
fn a_catalog_does_not_differ_from_itself() {
    let c = catalog(&[("x", update(0x806c1, 0x80, 3))]);
    let d = diff_catalogs(&c, &c, false);
    assert_eq!(d.entries.len(), 0);
    assert_eq!(d.unchanged, 1);
}

#[test]
fn manifest_describes_the_catalog() {
    let c = catalog(&[("x", update(0x806c1, 0x80, 3))]);
    let m = Manifest::from_catalog(&c, "me");
    assert_eq!(m.manifest_version, 1);
    assert_eq!(m.generator, "me");
    assert_eq!(m.totals.patch_count, 1);
    assert_eq!(m.totals.byte_count, 2048);
    assert_eq!(m.entries[0].signature, "0x000806c1");
    assert_eq!(m.entries[0].platform_mask, "0x80");
    assert_eq!(m.entries[0].revision, "0x00000003");
    assert_eq!(m.entries[0].sha256.as_ref().unwrap().len(), 64);
}

#[test]
fn trees_are_walked_with_care() {
    let o = IngestOptions::default();
    assert_eq!(plan_visit(PathKind::Symlink, 0, 0, &o).unwrap(), Visit::Resolve);
    assert_eq!(plan_visit(PathKind::Directory, 0, 3, &o).unwrap(), Visit::Descend);
    assert_eq!(plan_visit(PathKind::File, 10, 1, &o).unwrap(), Visit::Read);
    assert_eq!(plan_visit(PathKind::File, 0, 1, &o).unwrap(), Visit::Skip);
    assert_eq!(plan_visit(PathKind::Other, 10, 1, &o).unwrap(), Visit::Skip);
    assert!(plan_visit(PathKind::File, 10, 33, &o).is_err());
    let flat = IngestOptions { recursive: false, ..o };
    assert_eq!(plan_visit(PathKind::Directory, 0, 1, &flat).unwrap(), Visit::Skip);
    assert_eq!(plan_visit(PathKind::Directory, 0, 0, &flat).unwrap(), Visit::Descend);
}

#[test]
fn failures_are_noted_or_handed_on() {
    let mut c = Catalog::default();
    assert!(check_file_count(&c, &IngestOptions::default()).is_ok());
    let fail = || Err(CatalogError::Symlink { path: "l".to_string() });
    let o = IngestOptions::default();
    settle_child(&mut c, "l", fail(), &o).unwrap();
    assert_eq!(c.failures[0].0, "l");
    assert_eq!(c.failures[0].1, "l: refusing to follow symlink");
    let strict = IngestOptions { tolerate_failures: false, ..o };
    assert!(settle_child(&mut c, "l", fail(), &strict).is_err());
    assert_eq!(c.failures.len(), 1);
}

#[test]
fn broken_blobs_name_their_path() {
    let strict = IngestOptions::default();
    let mut c = Catalog::default();
    let mut bad = update(0x806c1, 0x80, 1);
    bad[500] ^= 1;
    let e = ingest_bytes(&mut c, "p", &bad, &strict).unwrap_err();
    assert!(matches!(e, CatalogError::Intel { .. }));
    assert!(e.to_string().starts_with("p: "));
    assert!(c.is_empty());
    let amd = amd_container(5);
    let e = ingest_bytes(&mut c, "q", &amd[..20], &strict).unwrap_err();
    assert!(matches!(e, CatalogError::Amd { .. }));
    assert!(e.to_string().starts_with("q: input truncated at offset 12"));
    assert!(c.is_empty());
    let deep = plan_visit(PathKind::Directory, 0, 33, &strict).unwrap_err();
    assert!(matches!(deep, CatalogError::LimitExceeded("directory recursion depth")));
}

#[test]
fn file_counts_are_limited() {
    let c = catalog(&[("a", update(0x806c1, 0x80, 1))]);
    let mut o = IngestOptions::default();
    assert!(check_file_count(&c, &o).is_ok());
    o.limits.max_catalog_files = 1;
    assert!(matches!(
        check_file_count(&c, &o),
        Err(CatalogError::LimitExceeded("too many files"))
    ));
}
