use ucodectl::intel::dat::{dat_to_binary, looks_like_dat};
use ucodectl::intel::header::{dword_sum, IntelHeader};
use ucodectl::intel::{scan_for_microcode, validate_entry, IntelBundle, IntelError, IntelValidationMode};
use ucodectl::model::cpu::{CpuSignature, PlatformMask};
use ucodectl::model::limits::Limits;
use ucodectl::model::validate::FindingCode;

fn put(b: &mut [u8], at: usize, v: u32) {
    b[at..at + 4].copy_from_slice(&v.to_le_bytes());
}

/// A well-formed update of 2048 bytes, its checksum balanced.
fn update(sig: u32, mask: u32, revision: u32) -> Vec<u8> {
    let mut b = vec![0u8; 2048];
    put(&mut b, 0, 1);
    put(&mut b, 4, revision);
    put(&mut b, 8, 0x11172023);
    put(&mut b, 12, sig);
    put(&mut b, 20, 1);
    put(&mut b, 24, mask);
    put(&mut b, 28, 2000);
    put(&mut b, 32, 2048);
    put(&mut b, 100, 0xdeadbeef);
    balance(&mut b);
    b
}

fn balance(b: &mut [u8]) {
    put(b, 16, 0);
    let sum = dword_sum(b);
    put(b, 16, 0u32.wrapping_sub(sum));
}

#[test]
fn parses_four_words_per_line() {
    let text = "/* header */\n0x00000001, 0x000000ff, 0x11172023, 0x000806ec,\n";
    let bin = dat_to_binary(text).expect("parse");
    assert_eq!(bin.len(), 16);
    assert_eq!(&bin[0..4], &1u32.to_le_bytes());
    assert_eq!(&bin[12..16], &0x000806ecu32.to_le_bytes());
}

#[test]
fn rejects_non_hex() {
    assert!(dat_to_binary("hello, world").is_err());
}

#[test]
fn dat_is_sniffed() {
    assert!(looks_like_dat("0x00000001, 0x2".as_bytes()));
    assert!(!looks_like_dat("0x00000001".as_bytes()));
    assert!(!looks_like_dat(&[0xff, 0xfe, 0x30]));
}

#[test]
fn dword_sum_wraps() {
    assert_eq!(dword_sum(&[1, 0, 0, 0, 2, 0, 0, 0]), 3);
    assert_eq!(dword_sum(&[0xff, 0xff, 0xff, 0xff, 2, 0, 0, 0]), 1);
    assert_eq!(dword_sum(&update(0x806c1, 0x80, 0xb4)), 0);
}

#[test]
fn header_round_trips() {
    let b = update(0x806c1, 0x80, 0xb4);
    let h = IntelHeader::parse(&b).unwrap();
    assert_eq!(h.revision, 0xb4);
    assert_eq!(h.signature, CpuSignature(0x806c1));
    assert_eq!(h.platform_mask, PlatformMask(0x80));
    assert_eq!(h.data_size(), 2000);
    assert_eq!(h.total_size(), 2048);
    assert_eq!(h.extended_table_offset(), None);
    assert!(h.is_microcode());
    assert!(!h.is_ifs_image());
    assert_eq!(IntelHeader::from_raw(&h.to_raw()), h);
    assert!(IntelHeader::parse(&b[..40]).is_err());
}

#[test]
fn bundle_is_read_entry_by_entry() {
    let mut b = update(0x806c1, 0x80, 0xb4);
    b.extend_from_slice(&update(0x906ea, 0x22, 0xf0));
    assert!(IntelBundle::looks_like_intel(&b));
    let bundle = IntelBundle::parse(&b, IntelValidationMode::Strict, &Limits::default()).unwrap();
    assert_eq!(bundle.entries.len(), 2);
    let second = &bundle.entries[1];
    assert_eq!(second.header.revision, 0xf0);
    assert_eq!(second.bytes(&b).unwrap(), &b[2048..]);
    let meta = second.to_meta("x");
    assert_eq!(meta.revision, 0xf0);
    assert_eq!(meta.origin.offset, 2048);
    assert_eq!(second.processor_matches().len(), 1);
}

#[test]
fn digests_are_sha256() {
    let b = update(0x806c1, 0x80, 0xb4);
    let bundle = IntelBundle::parse(&b, IntelValidationMode::Strict, &Limits::default()).unwrap();
    let meta = bundle.entries[0].to_meta("x");
    let digest = meta.sha256.unwrap();
    assert_ne!(&digest[..], &b[..32]);
    let again = update(0x806c1, 0x80, 0xb5);
    let other = IntelBundle::parse(&again, IntelValidationMode::Strict, &Limits::default()).unwrap();
    assert_ne!(other.entries[0].to_meta("x").sha256.unwrap(), digest);
}

#[test]
fn a_broken_checksum_is_an_error() {
    let mut b = update(0x806c1, 0x80, 0xb4);
    b[200] ^= 1;
    assert!(IntelBundle::parse(&b, IntelValidationMode::Strict, &Limits::default()).is_err());
    let lenient =
        IntelBundle::parse(&b, IntelValidationMode::Recovery, &Limits::default()).unwrap();
    assert!(lenient.entries[0].report.has_errors());
    let h = IntelHeader::parse(&b).unwrap();
    let r = validate_entry(&b, &h, &[], IntelValidationMode::Recovery, 0);
    assert!(r.findings.iter().any(|f| f.code == FindingCode::BadChecksum));
}

#[test]
fn findings_name_what_is_odd() {
    let mut b = update(0x806c1, 0x80, 0);
    put(&mut b, 8, 0xabcdef12);
    balance(&mut b);
    let h = IntelHeader::parse(&b).unwrap();
    let r = validate_entry(&b, &h, &[], IntelValidationMode::Recovery, 0);
    assert!(r.findings.iter().any(|f| f.code == FindingCode::NonBcdDate));
    assert!(r.findings.iter().any(|f| f.code == FindingCode::ZeroRevision));
    let short = validate_entry(&b[..1024], &h, &[], IntelValidationMode::Recovery, 0);
    assert!(short.findings.iter().any(|f| f.code == FindingCode::Truncated));
}

#[test]
fn foreign_bytes_are_refused() {
    let r = IntelBundle::parse(&[0x55; 64], IntelValidationMode::Strict, &Limits::default());
    assert!(r.is_err());
    assert_eq!(
        IntelError::NotIntelFormat.to_string(),
        "not an Intel microcode bundle"
    );
    assert_eq!(
        IntelError::Dat { line: 3, reason: "x".to_string() }.to_string(),
        "malformed .dat input at line 3: x"
    );
    assert_eq!(
        IntelError::Truncated { offset: 1, need: 48, have: 2 }.to_string(),
        "input too short at offset 1: need 48 bytes, have 2"
    );
}

#[test]
fn scanning_finds_the_next_update() {
    let mut b = vec![0u8; 32];
    b.extend_from_slice(&update(0x806c1, 0x80, 0xb4));
    assert_eq!(scan_for_microcode(&b, 0), Some(32));
    assert_eq!(scan_for_microcode(&[0; 64], 0), None);
}

/// An update of 3072 bytes that ends in an extended table of the given pairs,
/// everything balanced.
fn extended(sig: u32, mask: u32, more: &[(u32, u32)]) -> Vec<u8> {
    let table = 3072 - 20 - 12 * more.len();
    let mut b = update(sig, mask, 0xb4);
    b.resize(table, 0x11);
    put(&mut b, 28, table as u32 - 48);
    put(&mut b, 32, 3072);
    balance(&mut b);
    let primary = u32::from_le_bytes([b[16], b[17], b[18], b[19]]);
    let mut t = vec![0u8; 20];
    put(&mut t, 0, more.len() as u32);
    for (s, m) in more {
        let sum = sig.wrapping_add(mask).wrapping_add(primary).wrapping_sub(*s).wrapping_sub(*m);
        t.extend_from_slice(&s.to_le_bytes());
        t.extend_from_slice(&m.to_le_bytes());
        t.extend_from_slice(&sum.to_le_bytes());
    }
    let sum = dword_sum(&t);
    put(&mut t, 4, 0u32.wrapping_sub(sum));
    b.extend_from_slice(&t);
    b
}

#[test]
fn extended_signatures_are_read() {
    let b = extended(0x806c1, 0x80, &[(0x806c2, 0xc2), (0x806d1, 0xc2)]);
    let bundle = IntelBundle::parse(&b, IntelValidationMode::Strict, &Limits::default()).unwrap();
    let e = &bundle.entries[0];
    assert!(e.report.findings.is_empty());
    assert_eq!(e.header.extended_table_offset(), Some(3028));
    assert_eq!(e.extended_signatures.len(), 2);
    assert_eq!(e.extended_signatures[1].signature, CpuSignature(0x806d1));
    assert_eq!(e.extended_signatures[1].platform_mask, PlatformMask(0xc2));
    let m = e.processor_matches();
    let pairs: Vec<u32> = m.iter().map(|x| x.signature.0).collect();
    assert_eq!(pairs, vec![0x806c1, 0x806c2, 0x806d1]);
}

#[test]
fn extended_triples_are_interchangeable() {
    let b = extended(0x806c1, 0x80, &[(0x806c2, 0xc2)]);
    let mut swapped = b.clone();
    swapped.copy_within(3060..3064, 12);
    swapped.copy_within(3064..3068, 24);
    swapped.copy_within(3068..3072, 16);
    assert_ne!(swapped, b);
    assert_eq!(dword_sum(&swapped[..3040]), 0);
}

#[test]
fn unbalanced_and_repeated_signatures_are_reported() {
    let mut b = extended(0x806c1, 0x80, &[(0x806c2, 0xc2), (0x806c1, 0x80)]);
    let found = |b: &[u8]| {
        let bundle =
            IntelBundle::parse(b, IntelValidationMode::Recovery, &Limits::default()).unwrap();
        let codes: Vec<FindingCode> =
            bundle.entries[0].report.findings.iter().map(|f| f.code).collect();
        codes
    };
    assert_eq!(found(&b), vec![FindingCode::DuplicateSignature]);
    let pairs = IntelBundle::parse(&b, IntelValidationMode::Recovery, &Limits::default()).unwrap()
        .entries[0]
        .processor_matches()
        .len();
    assert_eq!(pairs, 2);
    b[3056] ^= 1;
    assert!(found(&b).contains(&FindingCode::BadExtendedSignatureChecksum));
    assert!(found(&b).contains(&FindingCode::BadExtendedTableChecksum));
    assert!(IntelBundle::parse(&b, IntelValidationMode::Strict, &Limits::default()).is_err());
}

#[test]
fn concatenated_updates_read_back() {
    let parts = [
        update(0x806c1, 0x80, 1),
        extended(0x906ea, 2, &[(0x906eb, 2)]),
        update(0xa0671, 2, 3),
    ];
    let b = parts.concat();
    let bundle = IntelBundle::parse(&b, IntelValidationMode::Strict, &Limits::default()).unwrap();
    assert!(bundle.report.findings.is_empty());
    assert_eq!(bundle.entries.len(), 3);
    let mut at: u64 = 0;
    for (e, p) in bundle.entries.iter().zip(&parts) {
        assert_eq!(e.offset, at);
        assert_eq!(e.size as usize, p.len());
        assert_eq!(e.header, IntelHeader::parse(p).unwrap());
        let alone = IntelBundle::parse(p, IntelValidationMode::Strict, &Limits::default()).unwrap();
        assert_eq!(alone.entries[0].sha256, e.sha256);
        at += p.len() as u64;
    }
}

#[test]
fn intel_damage_is_named() {
    let strict = IntelValidationMode::Strict;
    let b = update(0x806c1, 0x80, 0xb4);
    assert!(matches!(
        IntelHeader::parse(&b[..40]),
        Err(IntelError::Truncated { offset: 0, need: 48, have: 40 })
    ));
    assert!(matches!(
        IntelBundle::parse(&b[..10], strict, &Limits::default()),
        Err(IntelError::NotIntelFormat)
    ));
    match IntelBundle::parse(&b[..1000], strict, &Limits::default()) {
        Err(IntelError::Malformed { offset: 0, reason }) => {
            assert_eq!(reason, "declared total size 2048 does not fit in 1000 remaining bytes")
        }
        _ => panic!("a cut update was accepted"),
    }
    let few = Limits { max_patches: 1, ..Limits::default() };
    let two = [b.clone(), b.clone()].concat();
    assert!(matches!(
        IntelBundle::parse(&two, strict, &few),
        Err(IntelError::LimitExceeded("too many microcode entries"))
    ));
    let small = Limits { max_blob_bytes: 100, ..Limits::default() };
    assert!(matches!(
        IntelBundle::parse(&b, strict, &small),
        Err(IntelError::LimitExceeded("blob larger than max_blob_bytes"))
    ));
    let lone = Limits { max_signatures_per_patch: 1, ..Limits::default() };
    let more = extended(0x806c1, 0x80, &[(0x806c2, 1), (0x806c3, 1)]);
    assert!(matches!(
        IntelBundle::parse(&more, strict, &lone),
        Err(IntelError::LimitExceeded("extended signature count"))
    ));
    assert!(matches!(dat_to_binary("/* x"), Err(IntelError::Dat { .. })));
    assert!(matches!(dat_to_binary("0x+1"), Err(IntelError::Dat { line: 1, .. })));
    assert!(matches!(dat_to_binary("0x1,\n+1"), Err(IntelError::Dat { line: 2, .. })));
    assert!(matches!(dat_to_binary("0x"), Err(IntelError::Dat { line: 1, .. })));
    assert_eq!(dat_to_binary("0x1").unwrap(), vec![1, 0, 0, 0]);
}

#[test]
fn another_base_only_shifts_the_findings() {
    let mut b = extended(0x806c1, 0x80, &[(0x806c2, 1), (0x806c2, 1)]);
    b[4] = 0;
    b[9] = 0xff;
    b[44] = 7;
    let h = IntelHeader::parse(&b).unwrap();
    let strict = IntelValidationMode::Strict;
    let ext = IntelBundle::parse(&b, IntelValidationMode::Recovery, &Limits::default())
        .unwrap()
        .entries
        .remove(0)
        .extended_signatures;
    for entry in [&b[..], &b[..1024]] {
        let at_zero = validate_entry(entry, &h, &ext, strict, 0);
        assert!(!at_zero.findings.is_empty());
        for mode in [strict, IntelValidationMode::Recovery] {
            let base = 0x7fff_0000_0000u64;
            let moved = validate_entry(entry, &h, &ext, mode, base);
            assert_eq!(moved.findings.len(), at_zero.findings.len());
            for (m, z) in moved.findings.iter().zip(&at_zero.findings) {
                assert_eq!(m.offset, z.offset + base);
                assert_eq!((m.code, m.severity, m.length), (z.code, z.severity, z.length));
                assert_eq!(m.message, z.message);
            }
        }
    }
}
