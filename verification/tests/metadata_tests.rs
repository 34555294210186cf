use backup_metadata::metadata::CompactionError;
use backup_metadata::metadata::CoordinateAxis;
use backup_metadata::metadata::EpochEndingBackupMeta;
use backup_metadata::metadata::Metadata;
use backup_metadata::metadata::StateSnapshotBackupMeta;
use backup_metadata::metadata::TransactionBackupMeta;

fn ee(first_epoch: u64, last_epoch: u64, first_version: u64, last_version: u64) -> EpochEndingBackupMeta {
    EpochEndingBackupMeta {
        first_epoch,
        last_epoch,
        first_version,
        last_version,
        manifest: format!("m-{first_epoch}-{last_epoch}"),
    }
}

fn ss(epoch: u64, version: u64) -> StateSnapshotBackupMeta {
    StateSnapshotBackupMeta {
        epoch,
        version,
        manifest: format!("s-{epoch}"),
    }
}

fn tx(first_version: u64, last_version: u64) -> TransactionBackupMeta {
    TransactionBackupMeta {
        first_version,
        last_version,
        manifest: format!("t-{first_version}"),
    }
}

#[test]
fn single_element_epoch_ending_compaction() {
    let leaf = ee(3, 7, 100, 200);
    let r = Metadata::new_epoch_ending_backup_range(vec![leaf.clone()]).unwrap();
    match r {
        Metadata::EpochEndingBackupRange(rg) => {
            assert_eq!(rg.first_epoch, 3);
            assert_eq!(rg.last_epoch, 7);
            assert_eq!(rg.first_version, 100);
            assert_eq!(rg.last_version, 200);
            assert_eq!(rg.backup_metas.len(), 1);
            assert_eq!(rg.backup_metas[0], leaf);
        }
        _ => panic!("wrong variant"),
    }
}

#[test]
fn single_element_snapshot_compaction() {
    let leaf = ss(5, 555);
    let r = Metadata::new_statesnapshot_backup_range(vec![leaf.clone()]).unwrap();
    match r {
        Metadata::StateSnapshotBackupRange(rg) => {
            assert_eq!(rg.first_epoch, 5);
            assert_eq!(rg.last_epoch, 5);
            assert_eq!(rg.first_version, 555);
            assert_eq!(rg.last_version, 555);
            assert_eq!(rg.backup_metas, vec![leaf]);
        }
        _ => panic!("wrong variant"),
    }
}

#[test]
fn single_element_transaction_compaction() {
    let leaf = tx(10, 20);
    let r = Metadata::new_transaction_backup_range(vec![leaf.clone()]).unwrap();
    match r {
        Metadata::TransactionBackupRange(rg) => {
            assert_eq!(rg.first_version, 10);
            assert_eq!(rg.last_version, 20);
            assert_eq!(rg.backup_metas, vec![leaf]);
        }
        _ => panic!("wrong variant"),
    }
}

#[test]
fn continuity_acceptance_epoch_ending() {
    let a = ee(0, 4, 0, 400);
    let b = ee(5, 9, 401, 900);
    let r = Metadata::new_epoch_ending_backup_range(vec![a, b]).unwrap();
    match r {
        Metadata::EpochEndingBackupRange(rg) => {
            assert_eq!(rg.first_epoch, 0);
            assert_eq!(rg.last_epoch, 9);
            assert_eq!(rg.first_version, 0);
            assert_eq!(rg.last_version, 900);
            assert_eq!(rg.backup_metas.len(), 2);
        }
        _ => panic!("wrong variant"),
    }
}

#[test]
fn continuity_rejection_gap() {
    let a = ee(0, 4, 0, 400);
    let c = ee(6, 9, 401, 900);
    let err = Metadata::new_epoch_ending_backup_range(vec![a, c]).unwrap_err();
    assert_eq!(
        err,
        CompactionError::Discontinuity {
            axis: CoordinateAxis::Epoch,
            expected: 5,
            actual: 6,
        }
    );
}

#[test]
fn continuity_rejection_overlap() {
    let a = ee(0, 4, 0, 400);
    let d = ee(4, 9, 401, 900);
    let err = Metadata::new_epoch_ending_backup_range(vec![a, d]).unwrap_err();
    assert_eq!(
        err,
        CompactionError::Discontinuity {
            axis: CoordinateAxis::Epoch,
            expected: 5,
            actual: 4,
        }
    );
}

#[test]
fn continuity_rejection_reports_first_break() {
    let a = ee(0, 4, 0, 400);
    let b = ee(5, 9, 401, 900);
    let gap1 = ee(11, 12, 901, 950);
    let gap2 = ee(20, 30, 951, 990);
    let err = Metadata::new_epoch_ending_backup_range(vec![a, b, gap1, gap2]).unwrap_err();
    assert_eq!(
        err,
        CompactionError::Discontinuity {
            axis: CoordinateAxis::Epoch,
            expected: 10,
            actual: 11,
        }
    );
}

#[test]
fn snapshot_lockstep_acceptance() {
    let s1 = ss(10, 1000);
    let s2 = ss(11, 1001);
    let r = Metadata::new_statesnapshot_backup_range(vec![s1, s2]).unwrap();
    match r {
        Metadata::StateSnapshotBackupRange(rg) => {
            assert_eq!(rg.first_epoch, 10);
            assert_eq!(rg.last_epoch, 11);
            assert_eq!(rg.first_version, 1000);
            assert_eq!(rg.last_version, 1001);
        }
        _ => panic!("wrong variant"),
    }
}

#[test]
fn snapshot_lockstep_version_violation() {
    let s1 = ss(10, 1000);
    let s3 = ss(11, 1002);
    let err = Metadata::new_statesnapshot_backup_range(vec![s1, s3]).unwrap_err();
    assert_eq!(
        err,
        CompactionError::Discontinuity {
            axis: CoordinateAxis::Version,
            expected: 1001,
            actual: 1002,
        }
    );
}

#[test]
fn snapshot_epoch_checked_before_version() {
    let s1 = ss(10, 1000);
    let bad = ss(12, 1002);
    let err = Metadata::new_statesnapshot_backup_range(vec![s1, bad]).unwrap_err();
    assert_eq!(
        err,
        CompactionError::Discontinuity {
            axis: CoordinateAxis::Epoch,
            expected: 11,
            actual: 12,
        }
    );
}

#[test]
fn transaction_continuity() {
    let a = tx(0, 99);
    let b = tx(100, 250);
    let r = Metadata::new_transaction_backup_range(vec![a, b]).unwrap();
    match r {
        Metadata::TransactionBackupRange(rg) => {
            assert_eq!(rg.first_version, 0);
            assert_eq!(rg.last_version, 250);
        }
        _ => panic!("wrong variant"),
    }
    let c = tx(0, 99);
    let d = tx(101, 250);
    let err = Metadata::new_transaction_backup_range(vec![c, d]).unwrap_err();
    assert_eq!(
        err,
        CompactionError::Discontinuity {
            axis: CoordinateAxis::Version,
            expected: 100,
            actual: 101,
        }
    );
}

#[test]
fn empty_compaction_rejection() {
    assert_eq!(
        Metadata::new_epoch_ending_backup_range(vec![]).unwrap_err(),
        CompactionError::EmptyInput
    );
    assert_eq!(
        Metadata::new_statesnapshot_backup_range(vec![]).unwrap_err(),
        CompactionError::EmptyInput
    );
    assert_eq!(
        Metadata::new_transaction_backup_range(vec![]).unwrap_err(),
        CompactionError::EmptyInput
    );
}

#[test]
fn overflow_is_a_hard_failure() {
    let a = ee(0, u64::MAX, 0, 1);
    let b = ee(0, 0, 2, 3);
    let err = Metadata::new_epoch_ending_backup_range(vec![a, b]).unwrap_err();
    assert_eq!(
        err,
        CompactionError::CoordinateOverflow {
            axis: CoordinateAxis::Epoch,
        }
    );
    let c = tx(0, u64::MAX);
    let d = tx(0, 1);
    let err = Metadata::new_transaction_backup_range(vec![c, d]).unwrap_err();
    assert_eq!(
        err,
        CompactionError::CoordinateOverflow {
            axis: CoordinateAxis::Version,
        }
    );
}

#[test]
fn leaf_constructors_set_fields() {
    let m = Metadata::new_epoch_ending_backup(1, 2, 3, 4, "h".to_string());
    match m {
        Metadata::EpochEndingBackup(e) => {
            assert_eq!(e.first_epoch, 1);
            assert_eq!(e.last_epoch, 2);
            assert_eq!(e.first_version, 3);
            assert_eq!(e.last_version, 4);
            assert_eq!(e.manifest, "h");
        }
        _ => panic!("wrong variant"),
    }
    let m = Metadata::new_state_snapshot_backup(7, 70, "x".to_string());
    match m {
        Metadata::StateSnapshotBackup(e) => {
            assert_eq!(e.epoch, 7);
            assert_eq!(e.version, 70);
            assert_eq!(e.manifest, "x");
        }
        _ => panic!("wrong variant"),
    }
    let m = Metadata::new_transaction_backup(8, 80, "y".to_string());
    match m {
        Metadata::TransactionBackup(e) => {
            assert_eq!(e.first_version, 8);
            assert_eq!(e.last_version, 80);
            assert_eq!(e.manifest, "y");
        }
        _ => panic!("wrong variant"),
    }
}

#[test]
fn identity_ids_are_unique() {
    let mut ids: Vec<Vec<u8>> = Vec::new();
    for _ in 0..10_000 {
        match Metadata::new_random_identity() {
            Metadata::Identity(i) => {
                assert_eq!(i.id.len(), 32);
                ids.push(i.id);
            }
            _ => panic!("wrong variant"),
        }
    }
    ids.sort();
    for w in ids.windows(2) {
        assert_ne!(w[0], w[1], "collision among generated identity ids");
    }
}
