use ucodectl::model::cpu::RevisionObservation;
use ucodectl::windows::{
    after_open, after_query, decode_update_revision, previous_update_revision, processor_key,
    revision_value, update_revision, RegistryRead,
};

fn read(open: u32, query: u32, kind: u32, fetch: u32, bytes: Vec<u8>) -> RegistryRead {
    let len = bytes.len() as u32;
    RegistryRead { open, query, kind, fetch, bytes, len }
}

fn reason(o: &RevisionObservation) -> String {
    match o {
        RevisionObservation::Unavailable { reason, .. } => reason.clone(),
        RevisionObservation::Unsupported { reason, .. } => reason.clone(),
        RevisionObservation::Invalid { reason, .. } => reason.clone(),
        RevisionObservation::Known { .. } => String::new(),
    }
}

#[test]
fn decodes_only_the_known_eight_byte_layout() {
    let value = decode_update_revision(vec![0, 0, 0, 0, 0x34, 0x12, 0, 0]);
    assert_eq!(value.known_revision(), Some(0x1234));
}

#[test]
fn decodes_the_known_four_byte_layout() {
    let value = decode_update_revision(vec![0x21, 1, 0, 0]);
    assert_eq!(value.known_revision(), Some(0x121));
}

#[test]
fn other_lengths_are_invalid() {
    let value = decode_update_revision(vec![1, 2, 3]);
    assert!(matches!(&value, RevisionObservation::Invalid { raw, .. } if raw.bytes == vec![1, 2, 3]));
}

#[test]
fn each_step_can_fail() {
    assert!(after_open(0).is_none());
    assert_eq!(
        reason(&revision_value(read(2, 0, 0, 0, vec![]))),
        "Update Revision is not present for this logical processor"
    );
    assert_eq!(
        reason(&revision_value(read(5, 0, 0, 0, vec![]))),
        "cannot open processor registry key (Win32 error 5)"
    );
    assert!(after_query(0, 3).is_none());
    assert_eq!(
        reason(&revision_value(read(0, 2, 0, 0, vec![]))),
        "Update Revision is not present"
    );
    assert_eq!(
        reason(&revision_value(read(0, 6, 0, 0, vec![]))),
        "cannot read Update Revision length (Win32 error 6)"
    );
    assert_eq!(
        reason(&revision_value(read(0, 0, 4, 0, vec![]))),
        "Update Revision has registry type 4, expected REG_BINARY"
    );
    assert_eq!(
        reason(&revision_value(read(0, 0, 3, 7, vec![]))),
        "cannot read Update Revision data (Win32 error 7)"
    );
}

#[test]
fn the_reported_length_counts() {
    let mut r = read(0, 0, 3, 0, vec![0x21, 1, 0, 0, 9, 9, 9, 9]);
    r.len = 4;
    assert_eq!(revision_value(r).known_revision(), Some(0x121));
    let r = read(0, 0, 3, 0, vec![0, 0, 0, 0, 0x34, 0x12, 0, 0]);
    assert_eq!(update_revision(Some(r)).known_revision(), Some(0x1234));
}

#[test]
fn other_systems_have_no_registry() {
    assert_eq!(
        reason(&update_revision(None)),
        "Windows registry is unavailable on this OS"
    );
    assert!(previous_update_revision(None).is_none());
}

#[test]
fn an_absent_previous_revision_is_nothing() {
    assert!(previous_update_revision(Some(read(2, 0, 0, 0, vec![]))).is_none());
    assert!(previous_update_revision(Some(read(0, 2, 0, 0, vec![]))).is_none());
    let denied = previous_update_revision(Some(read(5, 0, 0, 0, vec![]))).unwrap();
    assert_eq!(denied.known_revision(), None);
    let got = previous_update_revision(Some(read(0, 0, 3, 0, vec![1, 0, 0, 0]))).unwrap();
    assert_eq!(got.known_revision(), Some(1));
}

#[test]
fn keys_are_per_processor() {
    assert_eq!(
        processor_key(12),
        "HARDWARE\\DESCRIPTION\\System\\CentralProcessor\\12"
    );
}
