use ucodectl::archive::writer::validate_member_name;
use ucodectl::archive::{
    find_first_archive_end, scan_early_cpio, ArchiveError, CpioBuilder, CpioReader, NEWC_MAGIC,
};
use ucodectl::model::limits::Limits;

#[test]
fn round_trip() {
    let mut b = CpioBuilder::new();
    b.add_file("kernel/x86/microcode/GenuineIntel.bin", vec![7u8; 300])
        .unwrap();
    let blob = b.build().unwrap();

    let scan = scan_early_cpio(&blob, &Limits::default()).unwrap().unwrap();
    assert_eq!(scan.archive_count, 1);
    let file = scan
        .entries
        .iter()
        .find(|e| e.name == "kernel/x86/microcode/GenuineIntel.bin")
        .expect("file present");
    assert_eq!(file.data_len, 300);
    assert_eq!(file.mtime, 0);
    assert_eq!(file.uid, 0);
    assert_eq!(file.data(&blob).unwrap(), &vec![7u8; 300][..]);
}

#[test]
fn archive_is_byte_reproducible() {
    let build = || {
        let mut b = CpioBuilder::new();
        b.add_file("kernel/x86/microcode/GenuineIntel.bin", vec![0xaa; 1024])
            .unwrap();
        b.build().unwrap()
    };
    assert_eq!(build(), build());
}

#[test]
fn everything_is_four_byte_aligned() {
    let mut b = CpioBuilder::new();
    b.add_file("kernel/x86/microcode/AuthenticAMD.bin", vec![1, 2, 3])
        .unwrap();
    let out = b.build().unwrap();
    assert_eq!(out.len() % 4, 0);
    assert_eq!(&out[..6], NEWC_MAGIC);
}

#[test]
fn rejects_traversal() {
    let mut b = CpioBuilder::new();
    assert!(b.add_file("../etc/passwd", vec![]).is_err());
}

#[test]
fn insertion_order_does_not_matter() {
    let mut a = CpioBuilder::new();
    a.add_file("b/x", vec![1]).unwrap();
    a.add_file("a/y", vec![2]).unwrap();
    let mut b = CpioBuilder::new();
    b.add_file("a/y", vec![2]).unwrap();
    b.add_file("b/x", vec![1]).unwrap();
    assert_eq!(a.total_payload_bytes(), 2);
    assert!(!a.is_empty());
    assert_eq!(a.build().unwrap(), b.build().unwrap());
}

#[test]
fn parents_come_first_and_sorted() {
    let mut b = CpioBuilder::new();
    b.add_file("kernel/x86/microcode/GenuineIntel.bin", vec![1; 5]).unwrap();
    let blob = b.build().unwrap();
    let (entries, end) = CpioReader::new(&blob, Limits::default()).entries().unwrap();
    let names: Vec<&str> = entries.iter().map(|e| e.name.as_str()).collect();
    assert_eq!(
        names,
        vec![
            "kernel",
            "kernel/x86",
            "kernel/x86/microcode",
            "kernel/x86/microcode/GenuineIntel.bin"
        ]
    );
    assert!(entries[0].is_dir());
    assert!(entries[3].is_file());
    assert_eq!(find_first_archive_end(&blob, &Limits::default()).unwrap(), Some(end as u64));
}

#[test]
fn concatenated_archives_are_followed() {
    let mut one = CpioBuilder::new();
    one.add_file("a", vec![1]).unwrap();
    let mut two = CpioBuilder::new();
    two.add_file("b", vec![2, 3]).unwrap();
    let mut blob = one.build().unwrap();
    let first = blob.len() as u64;
    blob.extend_from_slice(&two.build().unwrap());
    blob.extend_from_slice(&[0x1f, 0x8b, 8, 0]);
    let scan = scan_early_cpio(&blob, &Limits::default()).unwrap().unwrap();
    assert_eq!(scan.archive_count, 2);
    assert_eq!(scan.entries.len(), 2);
    assert_eq!(scan.entries[1].data(&blob).unwrap(), &[2, 3]);
    assert_eq!(scan.end_offset as usize, blob.len() - 4);
    let names: Vec<&str> = scan.entries.iter().map(|e| e.name.as_str()).collect();
    assert_eq!(names, vec!["a", "b"]);
    assert_eq!(find_first_archive_end(&blob, &Limits::default()).unwrap(), Some(first));
    let tail = &blob[blob.len() - 4..];
    assert!(scan_early_cpio(tail, &Limits::default()).unwrap().is_none());
}

#[test]
fn no_archive_is_no_error() {
    assert!(scan_early_cpio(&[0x1f, 0x8b, 8, 0, 0, 0, 0], &Limits::default()).unwrap().is_none());
    assert_eq!(find_first_archive_end(&[1, 2], &Limits::default()).unwrap(), None);
}

#[test]
fn damage_is_named() {
    let mut b = CpioBuilder::new();
    b.add_file("a", vec![1; 40]).unwrap();
    let blob = b.build().unwrap();
    let cut = scan_early_cpio(&blob[..60], &Limits::default());
    assert!(matches!(cut, Err(ArchiveError::Truncated { .. })));
    let mut bad = blob.clone();
    bad[60] = 0x7a;
    let field = scan_early_cpio(&bad, &Limits::default());
    assert!(matches!(field, Err(ArchiveError::BadField { .. })));
    let magic = CpioReader::at(&blob, 4, Limits::default()).next_entry();
    assert!(matches!(magic, Err(ArchiveError::BadMagic { offset: 4 })));
}

#[test]
fn member_names_stay_inside() {
    assert!(validate_member_name("kernel/x86").is_ok());
    for bad in ["", "/etc", "a/../b", "a/./b", "a//b"] {
        assert!(validate_member_name(bad).is_err(), "{bad}");
    }
    let e = validate_member_name("../x").unwrap_err();
    assert!(e.to_string().starts_with("unsafe cpio member name \"../x\": "));
}

#[test]
fn archive_errors_have_messages() {
    assert_eq!(
        ArchiveError::BadMagic { offset: 12 }.to_string(),
        "not a newc cpio archive at offset 12"
    );
    assert_eq!(
        ArchiveError::BadField { field: "mode", offset: 3 }.to_string(),
        "invalid cpio header field \"mode\" at offset 3"
    );
    assert_eq!(
        ArchiveError::MissingTrailer.to_string(),
        "archive is missing a TRAILER!!! record"
    );
    assert_eq!(ArchiveError::LimitExceeded("x").to_string(), "resource limit exceeded: x");
    assert_eq!(ArchiveError::Io("disk".to_string()).to_string(), "disk");
}

#[test]
fn archive_limits_are_kept() {
    let mut b = CpioBuilder::new();
    b.add_file("a", vec![1; 40]).unwrap();
    b.add_file("b", vec![2; 40]).unwrap();
    let blob = b.build().unwrap();
    let one = Limits { max_archive_entries: 1, ..Limits::default() };
    assert!(matches!(
        scan_early_cpio(&blob, &one),
        Err(ArchiveError::LimitExceeded("too many cpio entries"))
    ));
    assert!(scan_early_cpio(&blob, &Limits { max_archive_entries: 2, ..one }).is_ok());
}
