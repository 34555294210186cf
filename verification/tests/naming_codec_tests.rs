use backup_metadata::metadata::EpochEndingBackupMeta;
use backup_metadata::metadata::EpochEndingBackupMetaRange;
use backup_metadata::metadata::IdentityMeta;
use backup_metadata::metadata::Metadata;
use backup_metadata::metadata::StateSnapshotBackupMeta;
use backup_metadata::metadata::StateSnapshotBackupMetaRange;
use backup_metadata::metadata::TransactionBackupMeta;
use backup_metadata::metadata::TransactionBackupMetaRange;
use backup_metadata::storage::ShellSafeName;
use backup_metadata::storage::TextLine;

fn round_trip(m: &Metadata) -> Metadata {
    let line = m.to_text_line();
    Metadata::from_text_line(line.as_str()).expect("canonical line must decode")
}

#[test]
fn names_follow_the_templates() {
    let m = Metadata::new_epoch_ending_backup(0, 4, 0, 400, "m".to_string());
    assert_eq!(m.name().as_str(), "epoch_ending_0-4.meta");
    let m = Metadata::new_state_snapshot_backup(9, 1234, "m".to_string());
    assert_eq!(m.name().as_str(), "state_snapshot_ver_1234.meta");
    let m = Metadata::new_transaction_backup(17, 2000, "m".to_string());
    assert_eq!(m.name().as_str(), "transaction_17-2000.meta");
    let m = Metadata::EpochEndingBackupRange(EpochEndingBackupMetaRange {
        first_epoch: 2,
        last_epoch: 10,
        first_version: 5,
        last_version: 50,
        backup_metas: vec![],
    });
    assert_eq!(m.name().as_str(), "epoch_ending_compacted_2-10.meta");
    let m = Metadata::StateSnapshotBackupRange(StateSnapshotBackupMetaRange {
        first_epoch: 2,
        last_epoch: 3,
        first_version: 8,
        last_version: 9,
        backup_metas: vec![],
    });
    assert_eq!(m.name().as_str(), "state_snapshot_compacted_ver_8-9.meta");
    let m = Metadata::TransactionBackupRange(TransactionBackupMetaRange {
        first_version: 0,
        last_version: u64::MAX,
        backup_metas: vec![],
    });
    assert_eq!(
        m.name().as_str(),
        "transaction_compacted_0-18446744073709551615.meta"
    );
    let m = Metadata::new_random_identity();
    assert_eq!(m.name().as_str(), "identity.meta");
}

#[test]
fn naming_is_coordinate_keyed() {
    let a = Metadata::new_epoch_ending_backup(1, 2, 3, 4, "first-handle".to_string());
    let b = Metadata::new_epoch_ending_backup(1, 2, 3, 4, "another-handle".to_string());
    assert_eq!(a.name().as_str(), b.name().as_str());
    let c = Metadata::new_epoch_ending_backup(1, 3, 3, 4, "first-handle".to_string());
    assert_ne!(a.name().as_str(), c.name().as_str());
}

#[test]
fn encoding_is_exact_for_a_leaf() {
    let m = Metadata::new_epoch_ending_backup(1, 2, 3, 4, "files/epoch.manifest".to_string());
    assert_eq!(
        m.to_text_line().as_str(),
        "{\"EpochEndingBackup\":{\"first_epoch\":1,\"last_epoch\":2,\"first_version\":3,\"last_version\":4,\"manifest\":\"files/epoch.manifest\"}}"
    );
}

#[test]
fn encoding_escapes_the_manifest() {
    let m = Metadata::new_transaction_backup(0, 1, "a\"b\\c\nd\u{1}e".to_string());
    let line = m.to_text_line();
    assert_eq!(
        line.as_str(),
        "{\"TransactionBackup\":{\"first_version\":0,\"last_version\":1,\"manifest\":\"a\\\"b\\\\c\\u000ad\\u0001e\"}}"
    );
    assert!(!line.as_str().contains('\n'));
    assert_eq!(round_trip(&m), m);
}

#[test]
fn round_trip_leaves() {
    let m = Metadata::new_epoch_ending_backup(0, 4, 0, 400, "m1".to_string());
    assert_eq!(round_trip(&m), m);
    let m = Metadata::new_state_snapshot_backup(10, 1000, "s1".to_string());
    assert_eq!(round_trip(&m), m);
    let m = Metadata::new_transaction_backup(5, 9, "t1".to_string());
    assert_eq!(round_trip(&m), m);
}

#[test]
fn round_trip_extreme_coordinates() {
    let m = Metadata::new_epoch_ending_backup(0, u64::MAX, 0, u64::MAX, "".to_string());
    assert_eq!(round_trip(&m), m);
}

#[test]
fn round_trip_ranges() {
    let a = EpochEndingBackupMeta {
        first_epoch: 0,
        last_epoch: 4,
        first_version: 0,
        last_version: 400,
        manifest: "a".to_string(),
    };
    let b = EpochEndingBackupMeta {
        first_epoch: 5,
        last_epoch: 9,
        first_version: 401,
        last_version: 900,
        manifest: "b".to_string(),
    };
    let m = Metadata::new_epoch_ending_backup_range(vec![a, b]).unwrap();
    assert_eq!(round_trip(&m), m);

    let s1 = StateSnapshotBackupMeta {
        epoch: 1,
        version: 10,
        manifest: "s1".to_string(),
    };
    let s2 = StateSnapshotBackupMeta {
        epoch: 2,
        version: 11,
        manifest: "s2".to_string(),
    };
    let m = Metadata::new_statesnapshot_backup_range(vec![s1, s2]).unwrap();
    assert_eq!(round_trip(&m), m);

    let t1 = TransactionBackupMeta {
        first_version: 0,
        last_version: 9,
        manifest: "t1".to_string(),
    };
    let m = Metadata::new_transaction_backup_range(vec![t1]).unwrap();
    assert_eq!(round_trip(&m), m);
}

#[test]
fn round_trip_identity() {
    let m = Metadata::new_random_identity();
    let line = m.to_text_line();
    assert_eq!(Metadata::from_text_line(line.as_str()), Some(m));
}

#[test]
fn identity_encoding_is_hex() {
    let m = Metadata::Identity(IdentityMeta { id: vec![0u8; 32] });
    let line = m.to_text_line();
    let expected = format!("{{\"Identity\":{{\"id\":\"{}\"}}}}", "0".repeat(64));
    assert_eq!(line.as_str(), expected);
    assert_eq!(round_trip(&m), m);
}

#[test]
fn decode_rejects_malformed_lines() {
    assert_eq!(Metadata::from_text_line(""), None);
    assert_eq!(Metadata::from_text_line("{}"), None);
    assert_eq!(Metadata::from_text_line("{\"EpochEndingBackup\":{}}"), None);
    assert_eq!(
        Metadata::from_text_line("{\"Unknown\":{\"first_epoch\":1}}"),
        None
    );
    // trailing garbage after a valid record
    assert_eq!(
        Metadata::from_text_line(
            "{\"TransactionBackup\":{\"first_version\":0,\"last_version\":1,\"manifest\":\"m\"}} "
        ),
        None
    );
    // non-canonical number with a leading zero
    assert_eq!(
        Metadata::from_text_line(
            "{\"TransactionBackup\":{\"first_version\":01,\"last_version\":1,\"manifest\":\"m\"}}"
        ),
        None
    );
    // number beyond the 64-bit coordinate space
    assert_eq!(
        Metadata::from_text_line(
            "{\"TransactionBackup\":{\"first_version\":18446744073709551616,\"last_version\":1,\"manifest\":\"m\"}}"
        ),
        None
    );
}

#[test]
fn shell_safe_name_validation() {
    assert!(ShellSafeName::new("epoch_ending_0-4.meta".to_string()).is_ok());
    assert!(ShellSafeName::new("".to_string()).is_err());
    assert!(ShellSafeName::new("-leading-dash".to_string()).is_err());
    assert!(ShellSafeName::new("has space".to_string()).is_err());
    assert!(ShellSafeName::new("semi;colon".to_string()).is_err());
    assert!(ShellSafeName::new("a/b".to_string()).is_err());
    assert!(ShellSafeName::new("a".repeat(127)).is_ok());
    assert!(ShellSafeName::new("a".repeat(128)).is_err());
}

#[test]
fn text_line_rejects_line_breaks() {
    assert!(TextLine::new("one line".to_string()).is_ok());
    assert!(TextLine::new("two\nlines".to_string()).is_err());
    assert!(TextLine::new("carriage\rreturn".to_string()).is_err());
}
