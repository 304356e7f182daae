use ucodectl::archive::scan_early_cpio;
use ucodectl::boot::BootError;
use ucodectl::catalog::{ingest_bytes, Catalog, IngestOptions};
use ucodectl::intel::header::dword_sum;
use ucodectl::model::limits::Limits;
use ucodectl::policy::{Action, Plan, PlannedWrite, PolicyError, SystemStatus};
use ucodectl::transaction::apply::{check_written, Begun, Clock, Store};
use ucodectl::transaction::journal::{backup_name, check_destination, sha256_hex};
use ucodectl::transaction::preflight::{require_ok, RootFacts, TargetFacts};
use ucodectl::transaction::{begin, preflight, ApplyOptions, JournalEntry, TransactionError};

fn put(b: &mut [u8], at: usize, v: u32) {
    b[at..at + 4].copy_from_slice(&v.to_le_bytes());
}

fn update() -> Vec<u8> {
    let mut b = vec![0u8; 2048];
    put(&mut b, 0, 1);
    put(&mut b, 4, 9);
    put(&mut b, 8, 0x11172023);
    put(&mut b, 12, 0x806c1);
    put(&mut b, 20, 1);
    put(&mut b, 24, 0x80);
    put(&mut b, 28, 2000);
    put(&mut b, 32, 2048);
    let sum = dword_sum(&b);
    put(&mut b, 16, 0u32.wrapping_sub(sum));
    b
}

fn options(dry_run: bool, full: bool) -> ApplyOptions {
    let mut catalog = Catalog::default();
    if full {
        ingest_bytes(&mut catalog, "x", &update(), &IngestOptions::default()).unwrap();
    }
    ApplyOptions {
        dry_run,
        backup_dir: "/backup".to_string(),
        journal_path: "/journal".to_string(),
        confinement_root: None,
        catalog,
        filter_cpus: vec![],
        plan_id: "p1".to_string(),
        receipt_path: Some("/receipt".to_string()),
    }
}

fn plan(writes: Vec<PlannedWrite>) -> Plan {
    Plan {
        plan_version: 1,
        overall_status: SystemStatus::Unknown,
        action: Action::NoAction,
        cpus: vec![],
        would_change: !writes.is_empty(),
        writes,
        messages: vec!["hello".to_string()],
    }
}

fn image(path: &str) -> PlannedWrite {
    PlannedWrite::EarlyCpio { path: path.to_string(), intel_patches: 1, amd_patches: 0 }
}

fn clock() -> Clock {
    Clock { secs: 10, nanos: 20, started_unix: 11 }
}

fn facts() -> TargetFacts {
    TargetFacts {
        absolute: false,
        resolved: None,
        exists: false,
        symlink: false,
        write_failure: None,
    }
}

fn parts(names: &[&str]) -> Option<Vec<String>> {
    Some(names.iter().map(|s| s.to_string()).collect())
}

#[test]
fn preflight_accepts_a_plain_target() {
    let p = plan(vec![image("out")]);
    let r = preflight(&p, &[facts()], None);
    assert!(r.ok);
    assert_eq!(r.target_paths, vec!["out"]);
    assert!(require_ok(&r).is_ok());
}

#[test]
fn preflight_names_every_issue() {
    let mut empty = plan(vec![]);
    empty.would_change = true;
    let r = preflight(&empty, &[], None);
    assert_eq!(r.issues, vec!["plan claims changes but lists no writes"]);

    let p = plan(vec![image(""), image("/etc/x")]);
    let f = vec![
        facts(),
        TargetFacts {
            absolute: true,
            resolved: parts(&["/", "etc", "x"]),
            exists: true,
            symlink: true,
            write_failure: Some(("/etc".to_string(), "denied".to_string())),
        },
    ];
    let root = RootFacts { path: "/boot".to_string(), resolved: parts(&["/", "boot"]) };
    let r = preflight(&p, &f, Some(&root));
    assert_eq!(
        r.issues,
        vec![
            "empty target path",
            "path /etc/x escapes confinement root /boot",
            "refusing to overwrite symlink /etc/x",
            "cannot write to /etc: denied"
        ]
    );
    let e = require_ok(&r).unwrap_err();
    assert_eq!(
        e.to_string(),
        "preflight failed: empty target path; path /etc/x escapes confinement root /boot; refusing to overwrite symlink /etc/x; cannot write to /etc: denied"
    );
}

#[test]
fn confinement_goes_by_components() {
    let p = plan(vec![image("/boot2/x")]);
    let root = RootFacts { path: "/boot".to_string(), resolved: parts(&["/", "boot"]) };
    let at = |names: &[&str]| TargetFacts { absolute: true, resolved: parts(names), ..facts() };
    assert!(!preflight(&p, &[at(&["/", "boot2", "x"])], Some(&root)).ok);
    assert!(preflight(&p, &[at(&["/", "boot", "x"])], Some(&root)).ok);
    let unresolved = TargetFacts { absolute: true, ..facts() };
    assert!(preflight(&p, &[unresolved], Some(&root)).ok);
    assert!(preflight(&p, &[at(&["/", "etc"])], None).ok);
}

#[test]
fn dry_runs_only_describe() {
    let p = plan(vec![
        image("a\"b"),
        PlannedWrite::AmdFirmwareDir { dir: "d".to_string(), file_count: 3 },
    ]);
    let o = options(true, true);
    match begin(&p, &o, &[], None, clock()).unwrap() {
        Begun::Described(r) => {
            assert!(r.dry_run && !r.committed);
            assert_eq!(r.transaction_id, "tx-10-20");
            assert_eq!(r.receipt_path, None);
            assert_eq!(
                r.messages,
                vec![
                    "hello",
                    "dry-run: would apply EarlyCpio { path: \"a\\\"b\", intel_patches: 1, amd_patches: 0 }",
                    "dry-run: would apply AmdFirmwareDir { dir: \"d\", file_count: 3 }"
                ]
            );
        }
        _ => panic!("only described"),
    }
}

#[test]
fn an_empty_plan_commits_nothing() {
    let p = plan(vec![]);
    let o = options(false, true);
    match begin(&p, &o, &[], None, clock()).unwrap() {
        Begun::Nothing { receipt, report } => {
            assert!(report.committed);
            assert_eq!(report.messages, vec!["hello", "nothing to apply"]);
            assert_eq!(report.receipt_path.as_deref(), Some("/receipt"));
            assert_eq!(receipt.receipt_path, None);
            assert_eq!(receipt.plan_id, "p1");
        }
        _ => panic!("nothing to do"),
    }
}

#[test]
fn a_transaction_takes_its_course() {
    let p = plan(vec![
        PlannedWrite::IntelFirmwareDir { dir: "fw".to_string(), file_count: 1 },
        image("out"),
    ]);
    let o = options(false, true);
    let mut t = match begin(&p, &o, &[], None, clock()).unwrap() {
        Begun::Open(t) => t,
        _ => panic!("there are writes"),
    };
    let s = t.next_write().unwrap().unwrap();
    assert_eq!(s.path, "out");
    let scan = scan_early_cpio(&s.bytes, &Limits::default()).unwrap().unwrap();
    assert_eq!(scan.entries.len(), 4);
    t.stored(&s, Some("/backup/out.bak".to_string()));
    assert!(t.next_write().unwrap().is_none());
    t.commit();
    assert_eq!(t.journal.entries.len(), 3);
    assert!(matches!(
        &t.journal.entries[0],
        JournalEntry::Begin { id, started_unix: 11, .. } if id == "tx-10-20"
    ));
    assert!(matches!(
        &t.journal.entries[1],
        JournalEntry::Wrote { path, bytes, .. } if path == "out" && *bytes == s.bytes.len() as u64
    ));
    assert!(matches!(&t.journal.entries[2], JournalEntry::Commit { id } if id == "tx-10-20"));
    t.journal_failed("disk full");
    assert!(check_written(&t.results[0], Ok(&s.bytes)).is_ok());
    let r = t.report();
    assert!(r.committed && !r.dry_run);
    assert_eq!(r.results.len(), 1);
    assert_eq!(r.results[0].backup.as_deref(), Some("/backup/out.bak"));
    assert_eq!(r.receipt_path.as_deref(), Some("/receipt"));
    assert_eq!(
        r.messages,
        vec![
            "hello",
            "skipped firmware directory write to fw (not implemented in v0.1)",
            "warning: journal not written: disk full"
        ]
    );
}

#[test]
fn an_empty_catalog_fails_the_build() {
    let p = plan(vec![image("out")]);
    let o = options(false, false);
    let mut t = match begin(&p, &o, &[], None, clock()).unwrap() {
        Begun::Open(t) => t,
        _ => panic!("there are writes"),
    };
    let e = t.next_write().unwrap_err();
    assert_eq!(
        e.to_string(),
        "boot build failed: no microcode patches selected for early CPIO"
    );
}

#[test]
fn refused_plans_do_not_start() {
    let p = plan(vec![image("")]);
    let o = options(true, true);
    assert!(matches!(
        begin(&p, &o, &[], None, clock()),
        Err(TransactionError::Preflight(_))
    ));
}

#[test]
fn read_backs_are_compared() {
    let p = plan(vec![image("out")]);
    let o = options(false, true);
    let mut t = match begin(&p, &o, &[], None, clock()).unwrap() {
        Begun::Open(t) => t,
        _ => panic!("there are writes"),
    };
    let s = Store { path: "out".to_string(), bytes: vec![1, 2, 3] };
    t.stored(&s, None);
    let e = check_written(&t.results[0], Ok(&[1, 2, 4])).unwrap_err();
    assert!(e.to_string().starts_with("post-write hash mismatch for out: expected 039058c6"));
    let e = check_written(&t.results[0], Err("gone")).unwrap_err();
    assert_eq!(e.to_string(), "out: gone");
}

#[test]
fn digests_are_those_of_sha256() {
    assert_eq!(
        sha256_hex(&[]),
        "e3b0c44298fc1c149afbf4c8996fb92427ae41e4649b934ca495991b7852b855"
    );
    assert_eq!(
        sha256_hex("abc".as_bytes()),
        "ba7816bf8f01cfea414140de5dae2223b00361a396177a9cb410ff61f20015ad"
    );
}

#[test]
fn backups_keep_the_name() {
    assert_eq!(backup_name(Some("out.img")), "out.img.bak");
    assert_eq!(backup_name(None), "file.bak");
}

#[test]
fn links_are_not_written_through() {
    assert!(check_destination("x", true, false).is_ok());
    assert!(check_destination("x", false, true).is_ok());
    assert_eq!(
        check_destination("x", true, true).unwrap_err().to_string(),
        "refusing to write through symlink: x"
    );
}

#[test]
fn transaction_errors_have_messages() {
    let e = TransactionError::PathEscape { path: "/x".to_string() };
    assert_eq!(e.to_string(), "path escapes confinement root: /x");
    let e = TransactionError::from(PolicyError::Invalid("p".to_string()));
    assert_eq!(e.to_string(), "policy error: p");
    let e = TransactionError::from(BootError::LimitExceeded("l"));
    assert_eq!(e.to_string(), "boot build failed: resource limit exceeded: l");
    assert_eq!(TransactionError::Other("o".to_string()).to_string(), "o");
}
