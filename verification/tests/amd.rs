use ucodectl::amd::validate::validate_patch;
use ucodectl::amd::{
    max_patch_size_for_family, write_container, AmdContainer, AmdContainerBuilder, AmdError,
    AmdPatchHeader, EquivalenceEntry, EquivalenceTable,
};
use ucodectl::model::cpu::CpuSignature;
use ucodectl::model::limits::Limits;
use ucodectl::model::validate::FindingCode;

/// A patch with the given equivalence and patch ids.
fn patch(equiv: u16, id: u32) -> Vec<u8> {
    let mut b = vec![0u8; 256];
    b[0..4].copy_from_slice(&0x11172023u32.to_le_bytes());
    b[4..8].copy_from_slice(&id.to_le_bytes());
    b[24..26].copy_from_slice(&equiv.to_le_bytes());
    b[100] = 0x5a;
    b
}

fn container() -> Vec<u8> {
    let mut b = AmdContainerBuilder::new();
    b.add_equivalence_mapping(CpuSignature(0x00a20f12), 0xa212);
    b.add_equivalence_mapping(CpuSignature(0x00a20f10), 0xa210);
    b.add_patch(0xa212, 0x0a20120e, patch(0xa212, 0x0a20120e));
    write_container(b).unwrap()
}

#[test]
fn built_container_reads_back() {
    let blob = container();
    assert!(AmdContainer::looks_like_amd(&blob));
    let all = AmdContainer::parse_all(&blob, &Limits::default()).unwrap();
    assert_eq!(all.len(), 1);
    let c = &all[0];
    assert_eq!(c.length as usize, blob.len());
    assert_eq!(c.equivalence.equiv_id_for(CpuSignature(0x00a20f12)), Some(0xa212));
    assert_eq!(c.patches.len(), 1);
    let p = &c.patches[0];
    assert_eq!(p.header.patch_id, 0x0a20120e);
    assert_eq!(p.signatures, vec![CpuSignature(0x00a20f12)]);
    assert_eq!(p.bytes(&blob).unwrap(), &patch(0xa212, 0x0a20120e)[..]);
    let meta = p.to_meta("x");
    assert_eq!(meta.revision, 0x0a20120e);
    assert_eq!(meta.matches[0].equivalence_id, Some(0xa212));
}

#[test]
fn table_is_sorted_and_keyed() {
    let blob = container();
    let c = &AmdContainer::parse_all(&blob, &Limits::default()).unwrap()[0];
    let ids: Vec<u16> = c.equivalence.entries.iter().map(|e| e.equiv_id).collect();
    assert_eq!(ids, vec![0xa210, 0xa212]);
    let mut b = AmdContainerBuilder::new();
    assert!(b.is_empty());
    b.add_equivalence_mapping(CpuSignature(1), 7);
    b.add_equivalence_mapping(CpuSignature(1), 7);
    b.add_patch(7, 3, patch(7, 3));
    let one = write_container(b).unwrap();
    let table = &AmdContainer::parse_all(&one, &Limits::default()).unwrap()[0].equivalence;
    assert_eq!(table.entries.len(), 1);
}

#[test]
fn a_built_container_has_a_clean_report() {
    let mut b = AmdContainerBuilder::new();
    b.add_equivalence_mapping(CpuSignature(0x00a20f12), 0xa212);
    b.add_equivalence_mapping(CpuSignature(0x00a20f10), 0xa210);
    b.add_patch(0xa212, 5, patch(0xa212, 5));
    b.add_patch(0xa210, 9, patch(0xa210, 9));
    b.add_patch(0xa212, 4, patch(0xa212, 4));
    let blob = write_container(b).unwrap();
    let all = AmdContainer::parse_all(&blob, &Limits::default()).unwrap();
    assert_eq!(all.len(), 1);
    assert!(all[0].report.is_clean());
    let ids: Vec<(u16, u32)> = all[0]
        .patches
        .iter()
        .map(|p| (p.header.processor_rev_id, p.header.patch_id))
        .collect();
    assert_eq!(ids, vec![(0xa210, 9), (0xa212, 4), (0xa212, 5)]);
    for (p, (equiv, id)) in all[0].patches.iter().zip(ids) {
        assert_eq!(p.bytes(&blob).unwrap(), &patch(equiv, id)[..]);
    }
}

#[test]
fn a_processor_that_is_mapped_twice_is_a_warning() {
    let mut b = AmdContainerBuilder::new();
    b.add_equivalence_mapping(CpuSignature(7), 1);
    b.add_equivalence_mapping(CpuSignature(7), 2);
    b.add_patch(1, 3, patch(1, 3));
    let blob = write_container(b).unwrap();
    let c = &AmdContainer::parse_all(&blob, &Limits::default()).unwrap()[0];
    assert!(!c.report.is_clean());
    assert!(!c.report.has_errors());
}

#[test]
fn signatures_of_a_patch_are_limited() {
    let mut b = AmdContainerBuilder::new();
    for sig in 1..=3u32 {
        b.add_equivalence_mapping(CpuSignature(sig), 7);
    }
    b.add_patch(7, 1, patch(7, 1));
    let blob = write_container(b).unwrap();
    let at_most = |n: u32| Limits { max_signatures_per_patch: n, ..Limits::default() };
    assert!(matches!(
        AmdContainer::parse_all(&blob, &at_most(2)),
        Err(AmdError::LimitExceeded("equivalence entry count"))
    ));
    let all = AmdContainer::parse_all(&blob, &at_most(3)).unwrap();
    assert_eq!(all[0].patches[0].signatures.len(), 3);
}

#[test]
fn several_containers_follow_each_other() {
    let mut blob = container();
    let first = blob.len();
    blob.extend_from_slice(&container());
    let all = AmdContainer::parse_all(&blob, &Limits::default()).unwrap();
    assert_eq!(all.len(), 2);
    assert_eq!(all[1].offset as usize, first);
}

#[test]
fn signatures_of_an_id_are_sorted() {
    let entry = |sig: u32, id: u16| EquivalenceEntry {
        installed_cpu: CpuSignature(sig),
        fixed_errata_mask: 0,
        fixed_errata_compare: 0,
        equiv_id: id,
        reserved: 0,
        offset: 0,
    };
    let t = EquivalenceTable { entries: vec![entry(9, 1), entry(3, 1), entry(5, 2), entry(3, 1)] };
    assert_eq!(t.signatures_for(1), vec![CpuSignature(3), CpuSignature(9)]);
    assert_eq!(t.equiv_id_for(CpuSignature(5)), Some(2));
    assert_eq!(t.equiv_id_for(CpuSignature(6)), None);
    assert_eq!(entry(0x0403_0201, 0x0605).raw_bytes()[..4], [1, 2, 3, 4]);
    assert_eq!(entry(0x0403_0201, 0x0605).raw_bytes()[12..14], [5, 6]);
}

#[test]
fn family_limits() {
    assert_eq!(max_patch_size_for_family(0x10), Some(2048));
    assert_eq!(max_patch_size_for_family(0x14), Some(1824));
    assert_eq!(max_patch_size_for_family(0x16), Some(3458));
    assert_eq!(max_patch_size_for_family(0x17), Some(3200));
    assert_eq!(max_patch_size_for_family(0x19), Some(5568));
    assert_eq!(max_patch_size_for_family(0x1a), Some(16384));
    assert_eq!(max_patch_size_for_family(0x0f), None);
}

#[test]
fn unknown_equivalence_is_reported() {
    let b = patch(0xbeef, 1);
    let h = AmdPatchHeader::parse(&b).unwrap();
    assert_eq!(h.processor_rev_id, 0xbeef);
    let r = validate_patch(&h, 256, 0, &[]);
    assert!(r.findings.iter().any(|f| f.code == FindingCode::EquivalenceIdNotInTable));
    let big = validate_patch(&h, 9000, 0, &[CpuSignature(0x00a20f12)]);
    assert!(big.findings.iter().any(|f| f.code == FindingCode::PatchSizeExceedsFamilyMaximum));
}

#[test]
fn amd_damage_is_named() {
    assert!(matches!(
        AmdContainer::parse_all(&[1, 2, 3, 4, 5, 6, 7, 8, 9, 10, 11, 12], &Limits::default()),
        Err(AmdError::NotAmdFormat)
    ));
    let blob = container();
    assert!(AmdContainer::parse_all(&blob[..20], &Limits::default()).is_err());
    assert!(AmdPatchHeader::parse(&[0; 10]).is_err());
    let e = write_container(AmdContainerBuilder::new()).unwrap_err();
    assert_eq!(
        e.to_string(),
        "malformed container at offset 0: refusing to build an empty AMD container"
    );
    assert_eq!(
        AmdError::NotAmdFormat.to_string(),
        "not an AMD microcode container (missing DMA\\0 magic)"
    );
    assert_eq!(
        AmdError::Truncated { offset: 4, need: 8, have: 1 }.to_string(),
        "input truncated at offset 4: need 8 bytes, have 1"
    );
}

#[test]
fn family_nibble_is_the_top_byte() {
    let h = AmdPatchHeader::parse(&patch(1, 0x0a20120e)).unwrap();
    assert_eq!(h.implied_family_nibble(), 0x0a);
}

#[test]
fn damaged_sections_are_named() {
    let limits = Limits::default();
    let blob = container();
    // Two table entries and the terminator: the patch section starts at 60.
    assert_eq!(blob[60..64], [1, 0, 0, 0]);
    assert!(matches!(
        AmdContainer::parse_all(&blob[..20], &limits),
        Err(AmdError::Truncated { offset: 12, need: 48, have: 8 })
    ));
    let mut first = blob.clone();
    first[4] = 9;
    match AmdContainer::parse_all(&first, &limits) {
        Err(AmdError::Malformed { offset: 4, reason }) => {
            assert_eq!(reason, "first section type is 0x00000009, expected 0")
        }
        _ => panic!("a foreign section was accepted"),
    }
    assert!(matches!(
        AmdContainer::parse_all(&blob[..100], &limits),
        Err(AmdError::Truncated { offset: 68, need: 256, have: 32 })
    ));
    let mut tiny = blob.clone();
    tiny[64..68].copy_from_slice(&8u32.to_le_bytes());
    match AmdContainer::parse_all(&tiny, &limits) {
        Err(AmdError::Malformed { offset: 64, reason }) => {
            assert_eq!(reason, "patch size 8 is smaller than the 64-byte header")
        }
        _ => panic!("a patch without a header was accepted"),
    }
    assert!(matches!(
        AmdContainer::parse_all(&blob, &Limits { max_patch_bytes: 64, ..limits }),
        Err(AmdError::LimitExceeded("patch larger than max_patch_bytes"))
    ));
    assert!(matches!(
        AmdContainer::parse_all(&blob, &Limits { max_patches: 0, ..limits }),
        Err(AmdError::LimitExceeded("too many patches"))
    ));
    assert!(matches!(
        AmdContainer::parse_all(&blob, &Limits { max_blob_bytes: 9, ..limits }),
        Err(AmdError::LimitExceeded("blob larger than max_blob_bytes"))
    ));
}

#[test]
fn insertion_order_of_patches_does_not_matter() {
    let mut a = AmdContainerBuilder::new();
    a.add_equivalence_mapping(CpuSignature(0x00a20f12), 0xa212);
    a.add_equivalence_mapping(CpuSignature(0x00a20f10), 0xa210);
    a.add_patch(0xa212, 9, patch(0xa212, 9));
    a.add_patch(0xa210, 5, patch(0xa210, 5));
    let mut b = AmdContainerBuilder::new();
    b.add_patch(0xa210, 5, patch(0xa210, 5));
    b.add_patch(0xa212, 9, patch(0xa212, 9));
    b.add_patch(0xa210, 5, patch(0xa210, 5));
    b.add_equivalence_mapping(CpuSignature(0x00a20f10), 0xa210);
    b.add_equivalence_mapping(CpuSignature(0x00a20f12), 0xa212);
    let blob = a.build().unwrap();
    assert_eq!(blob, b.build().unwrap());
    let c = &AmdContainer::parse_all(&blob, &Limits::default()).unwrap()[0];
    let ids: Vec<u32> = c.patches.iter().map(|p| p.header.patch_id).collect();
    assert_eq!(ids, vec![5, 9]);
}
