//! The record model for the backup metadata index and the continuity and
//! compaction engine that merges ordered runs of same-kind leaf records into
//! validated range records.

use vstd::prelude::*;

use crate::storage::FileHandle;

verus! {

// ------------------------------------------------------------------
// Mathematical models of the records.
//
// Every exec record has a view in which the manifest handle is a plain
// character sequence and member vectors are sequences; all contracts of this
// module speak of these models.
// ------------------------------------------------------------------

/// Model of a leaf backup covering the closed epoch range
/// `[first_epoch, last_epoch]` with version span `[first_version, last_version]`.
#[verifier::ext_equal]
pub struct EpochEndingBackupMetaView {
    pub first_epoch: u64,
    pub last_epoch: u64,
    pub first_version: u64,
    pub last_version: u64,
    pub manifest: Seq<char>,
}

/// Model of a compacted run of epoch-ending leaf backups.
#[verifier::ext_equal]
pub struct EpochEndingBackupMetaRangeView {
    pub first_epoch: u64,
    pub last_epoch: u64,
    pub first_version: u64,
    pub last_version: u64,
    pub backup_metas: Seq<EpochEndingBackupMetaView>,
}

/// Model of a point-in-time snapshot of full ledger state at one
/// `(epoch, version)` pair.
#[verifier::ext_equal]
pub struct StateSnapshotBackupMetaView {
    pub epoch: u64,
    pub version: u64,
    pub manifest: Seq<char>,
}

/// Model of a compacted run of consecutive snapshot backups.
#[verifier::ext_equal]
pub struct StateSnapshotBackupMetaRangeView {
    pub first_epoch: u64,
    pub last_epoch: u64,
    pub first_version: u64,
    pub last_version: u64,
    pub backup_metas: Seq<StateSnapshotBackupMetaView>,
}

/// Model of a leaf backup covering the closed version range
/// `[first_version, last_version]` of committed transactions.
#[verifier::ext_equal]
pub struct TransactionBackupMetaView {
    pub first_version: u64,
    pub last_version: u64,
    pub manifest: Seq<char>,
}

/// Model of a compacted run of transaction leaf backups.
#[verifier::ext_equal]
pub struct TransactionBackupMetaRangeView {
    pub first_version: u64,
    pub last_version: u64,
    pub backup_metas: Seq<TransactionBackupMetaView>,
}

/// Model of the identity marker: a 256-bit random fingerprint of a backup
/// target, held as its 32 bytes.
#[verifier::ext_equal]
pub struct IdentityMetaView {
    pub id: Seq<u8>,
}

/// Model of a metadata record: exactly one of the seven kinds.
#[verifier::ext_equal]
pub enum MetadataView {
    EpochEndingBackup(EpochEndingBackupMetaView),
    EpochEndingBackupRange(EpochEndingBackupMetaRangeView),
    StateSnapshotBackup(StateSnapshotBackupMetaView),
    StateSnapshotBackupRange(StateSnapshotBackupMetaRangeView),
    TransactionBackup(TransactionBackupMetaView),
    TransactionBackupRange(TransactionBackupMetaRangeView),
    Identity(IdentityMetaView),
}

// ------------------------------------------------------------------
// The records themselves.
// ------------------------------------------------------------------

/// Metadata of one physical backup covering a contiguous closed range of
/// epochs, with the version span of that range and the handle of the backup's
/// manifest object.
#[derive(Clone, Debug, PartialEq, Eq, PartialOrd, Ord)]
pub struct EpochEndingBackupMeta {
    pub first_epoch: u64,
    pub last_epoch: u64,
    pub first_version: u64,
    pub last_version: u64,
    pub manifest: FileHandle,
}

impl View for EpochEndingBackupMeta {
    type V = EpochEndingBackupMetaView;

    open spec fn view(&self) -> EpochEndingBackupMetaView {
        EpochEndingBackupMetaView {
            first_epoch: self.first_epoch,
            last_epoch: self.last_epoch,
            first_version: self.first_version,
            last_version: self.last_version,
            manifest: self.manifest@,
        }
    }
}

impl DeepView for EpochEndingBackupMeta {
    type V = EpochEndingBackupMetaView;

    open spec fn deep_view(&self) -> EpochEndingBackupMetaView {
        self.view()
    }
}

/// Metadata of a compaction of one or more contiguous epoch-ending leaf
/// backups; its bounds are the union bounds of its members.
#[derive(Clone, Debug, PartialEq, Eq, PartialOrd, Ord)]
pub struct EpochEndingBackupMetaRange {
    pub first_epoch: u64,
    pub last_epoch: u64,
    pub first_version: u64,
    pub last_version: u64,
    pub backup_metas: Vec<EpochEndingBackupMeta>,
}

impl View for EpochEndingBackupMetaRange {
    type V = EpochEndingBackupMetaRangeView;

    open spec fn view(&self) -> EpochEndingBackupMetaRangeView {
        EpochEndingBackupMetaRangeView {
            first_epoch: self.first_epoch,
            last_epoch: self.last_epoch,
            first_version: self.first_version,
            last_version: self.last_version,
            backup_metas: self.backup_metas.deep_view(),
        }
    }
}

/// Metadata of a single point-in-time snapshot of full ledger state.
#[derive(Clone, Debug, PartialEq, Eq, PartialOrd, Ord)]
pub struct StateSnapshotBackupMeta {
    pub epoch: u64,
    pub version: u64,
    pub manifest: FileHandle,
}

impl View for StateSnapshotBackupMeta {
    type V = StateSnapshotBackupMetaView;

    open spec fn view(&self) -> StateSnapshotBackupMetaView {
        StateSnapshotBackupMetaView {
            epoch: self.epoch,
            version: self.version,
            manifest: self.manifest@,
        }
    }
}

impl DeepView for StateSnapshotBackupMeta {
    type V = StateSnapshotBackupMetaView;

    open spec fn deep_view(&self) -> StateSnapshotBackupMetaView {
        self.view()
    }
}

/// Metadata of a compaction of consecutive snapshot backups whose epoch and
/// version both advance by exactly one between members.
#[derive(Clone, Debug, PartialEq, Eq, PartialOrd, Ord)]
pub struct StateSnapshotBackupMetaRange {
    pub first_epoch: u64,
    pub last_epoch: u64,
    pub first_version: u64,
    pub last_version: u64,
    pub backup_metas: Vec<StateSnapshotBackupMeta>,
}

impl View for StateSnapshotBackupMetaRange {
    type V = StateSnapshotBackupMetaRangeView;

    open spec fn view(&self) -> StateSnapshotBackupMetaRangeView {
        StateSnapshotBackupMetaRangeView {
            first_epoch: self.first_epoch,
            last_epoch: self.last_epoch,
            first_version: self.first_version,
            last_version: self.last_version,
            backup_metas: self.backup_metas.deep_view(),
        }
    }
}

/// Metadata of one physical backup covering a contiguous closed version span
/// of committed transactions.
#[derive(Clone, Debug, PartialEq, Eq, PartialOrd, Ord)]
pub struct TransactionBackupMeta {
    pub first_version: u64,
    pub last_version: u64,
    pub manifest: FileHandle,
}

impl View for TransactionBackupMeta {
    type V = TransactionBackupMetaView;

    open spec fn view(&self) -> TransactionBackupMetaView {
        TransactionBackupMetaView {
            first_version: self.first_version,
            last_version: self.last_version,
            manifest: self.manifest@,
        }
    }
}

impl DeepView for TransactionBackupMeta {
    type V = TransactionBackupMetaView;

    open spec fn deep_view(&self) -> TransactionBackupMetaView {
        self.view()
    }
}

/// Metadata of a compaction of transaction leaf backups whose version spans
/// are exactly adjacent.
#[derive(Clone, Debug, PartialEq, Eq, PartialOrd, Ord)]
pub struct TransactionBackupMetaRange {
    pub first_version: u64,
    pub last_version: u64,
    pub backup_metas: Vec<TransactionBackupMeta>,
}

impl View for TransactionBackupMetaRange {
    type V = TransactionBackupMetaRangeView;

    open spec fn view(&self) -> TransactionBackupMetaRangeView {
        TransactionBackupMetaRangeView {
            first_version: self.first_version,
            last_version: self.last_version,
            backup_metas: self.backup_metas.deep_view(),
        }
    }
}

/// Marker record uniquely identifying a backup target: a 256-bit random value
/// held as 32 bytes.
#[derive(Clone, Debug, PartialEq, Eq, PartialOrd, Ord)]
pub struct IdentityMeta {
    pub id: Vec<u8>,
}

impl View for IdentityMeta {
    type V = IdentityMetaView;

    open spec fn view(&self) -> IdentityMetaView {
        IdentityMetaView { id: self.id@ }
    }
}

/// A metadata record of the backup index: exactly one of the seven kinds.
#[derive(Clone, Debug, PartialEq, Eq)]
pub enum Metadata {
    EpochEndingBackup(EpochEndingBackupMeta),
    EpochEndingBackupRange(EpochEndingBackupMetaRange),
    StateSnapshotBackup(StateSnapshotBackupMeta),
    StateSnapshotBackupRange(StateSnapshotBackupMetaRange),
    TransactionBackup(TransactionBackupMeta),
    TransactionBackupRange(TransactionBackupMetaRange),
    Identity(IdentityMeta),
}

impl View for Metadata {
    type V = MetadataView;

    open spec fn view(&self) -> MetadataView {
        match self {
            Metadata::EpochEndingBackup(m) => MetadataView::EpochEndingBackup(m@),
            Metadata::EpochEndingBackupRange(m) => MetadataView::EpochEndingBackupRange(m@),
            Metadata::StateSnapshotBackup(m) => MetadataView::StateSnapshotBackup(m@),
            Metadata::StateSnapshotBackupRange(m) => MetadataView::StateSnapshotBackupRange(m@),
            Metadata::TransactionBackup(m) => MetadataView::TransactionBackup(m@),
            Metadata::TransactionBackupRange(m) => MetadataView::TransactionBackupRange(m@),
            Metadata::Identity(m) => MetadataView::Identity(m@),
        }
    }
}

// ------------------------------------------------------------------
// Errors of the compaction engine.
// ------------------------------------------------------------------

/// The coordinate space in which a continuity check failed.
#[derive(Clone, Copy, Debug, PartialEq, Eq, Structural)]
pub enum CoordinateAxis {
    Epoch,
    Version,
}

/// Failure of a compaction attempt. No partially validated range record is
/// ever produced: on any of these, the input leaves are left untouched.
#[derive(Clone, Copy, Debug, PartialEq, Eq, Structural)]
pub enum CompactionError {
    /// Compaction was invoked with zero leaf records.
    EmptyInput,
    /// Two adjacent leaf records do not chain: the next record was expected
    /// to start at `expected` on `axis` but starts at `actual`.
    Discontinuity { axis: CoordinateAxis, expected: u64, actual: u64 },
    /// The next expected coordinate on `axis` would exceed the 64-bit
    /// coordinate space; rejected as a hard failure rather than wrapping.
    CoordinateOverflow { axis: CoordinateAxis },
}

// ------------------------------------------------------------------
// Continuity invariants and the mathematical compaction.
// ------------------------------------------------------------------

/// Epoch continuity: each member's epoch range starts right after its
/// predecessor's — no gap, no overlap, no repeated epoch.
pub open spec fn epoch_chain_ok(s: Seq<EpochEndingBackupMetaView>) -> bool {
    forall|i: int|
        #![trigger s[i]]
        0 <= i < s.len() - 1 ==> s[i + 1].first_epoch == s[i].last_epoch + 1
}

/// `j` is the first adjacent pair at which epoch continuity fails.
pub open spec fn epoch_first_break(s: Seq<EpochEndingBackupMetaView>, j: int) -> bool {
    &&& 0 <= j < s.len() - 1
    &&& s[j + 1].first_epoch != s[j].last_epoch + 1
    &&& forall|i: int| #![trigger s[i]] 0 <= i < j ==> s[i + 1].first_epoch == s[i].last_epoch + 1
}

/// The error reported for the first epoch-continuity break at pair `j`.
pub open spec fn epoch_break_error(s: Seq<EpochEndingBackupMetaView>, j: int) -> CompactionError {
    if s[j].last_epoch < u64::MAX {
        CompactionError::Discontinuity {
            axis: CoordinateAxis::Epoch,
            expected: (s[j].last_epoch + 1) as u64,
            actual: s[j + 1].first_epoch,
        }
    } else {
        CompactionError::CoordinateOverflow { axis: CoordinateAxis::Epoch }
    }
}

/// The compaction of an ordered run of epoch-ending leaves: defined exactly
/// when the run is non-empty and epoch-continuous, and then a range with the
/// union bounds and the input members, order preserved.
pub open spec fn spec_compact_epoch_ending(s: Seq<EpochEndingBackupMetaView>) -> Option<
    EpochEndingBackupMetaRangeView,
> {
    if s.len() > 0 && epoch_chain_ok(s) {
        Some(
            EpochEndingBackupMetaRangeView {
                first_epoch: s[0].first_epoch,
                last_epoch: s[s.len() - 1].last_epoch,
                first_version: s[0].first_version,
                last_version: s[s.len() - 1].last_version,
                backup_metas: s,
            },
        )
    } else {
        None
    }
}

/// Snapshot continuity for one adjacent pair: epoch and version both advance
/// by exactly one, in lockstep.
pub open spec fn snapshot_pair_ok(
    a: StateSnapshotBackupMetaView,
    b: StateSnapshotBackupMetaView,
) -> bool {
    b.epoch == a.epoch + 1 && b.version == a.version + 1
}

/// Snapshot continuity over the whole run.
pub open spec fn snapshot_chain_ok(s: Seq<StateSnapshotBackupMetaView>) -> bool {
    forall|i: int| #![trigger s[i]] 0 <= i < s.len() - 1 ==> snapshot_pair_ok(s[i], s[i + 1])
}

/// `j` is the first adjacent pair at which snapshot continuity fails on
/// either axis.
pub open spec fn snapshot_first_break(s: Seq<StateSnapshotBackupMetaView>, j: int) -> bool {
    &&& 0 <= j < s.len() - 1
    &&& !snapshot_pair_ok(s[j], s[j + 1])
    &&& forall|i: int| #![trigger s[i]] 0 <= i < j ==> snapshot_pair_ok(s[i], s[i + 1])
}

/// The error reported for the first snapshot-continuity break at pair `j`:
/// the epoch axis is checked first, the version axis only once the epoch
/// chains.
pub open spec fn snapshot_break_error(
    s: Seq<StateSnapshotBackupMetaView>,
    j: int,
) -> CompactionError {
    if s[j + 1].epoch != s[j].epoch + 1 {
        if s[j].epoch < u64::MAX {
            CompactionError::Discontinuity {
                axis: CoordinateAxis::Epoch,
                expected: (s[j].epoch + 1) as u64,
                actual: s[j + 1].epoch,
            }
        } else {
            CompactionError::CoordinateOverflow { axis: CoordinateAxis::Epoch }
        }
    } else {
        if s[j].version < u64::MAX {
            CompactionError::Discontinuity {
                axis: CoordinateAxis::Version,
                expected: (s[j].version + 1) as u64,
                actual: s[j + 1].version,
            }
        } else {
            CompactionError::CoordinateOverflow { axis: CoordinateAxis::Version }
        }
    }
}

/// The compaction of an ordered run of snapshot leaves.
pub open spec fn spec_compact_state_snapshot(s: Seq<StateSnapshotBackupMetaView>) -> Option<
    StateSnapshotBackupMetaRangeView,
> {
    if s.len() > 0 && snapshot_chain_ok(s) {
        Some(
            StateSnapshotBackupMetaRangeView {
                first_epoch: s[0].epoch,
                last_epoch: s[s.len() - 1].epoch,
                first_version: s[0].version,
                last_version: s[s.len() - 1].version,
                backup_metas: s,
            },
        )
    } else {
        None
    }
}

/// Transaction continuity: each member's version span starts right after its
/// predecessor's — no gap, no overlap.
pub open spec fn transaction_chain_ok(s: Seq<TransactionBackupMetaView>) -> bool {
    forall|i: int|
        #![trigger s[i]]
        0 <= i < s.len() - 1 ==> s[i + 1].first_version == s[i].last_version + 1
}

/// `j` is the first adjacent pair at which transaction continuity fails.
pub open spec fn transaction_first_break(s: Seq<TransactionBackupMetaView>, j: int) -> bool {
    &&& 0 <= j < s.len() - 1
    &&& s[j + 1].first_version != s[j].last_version + 1
    &&& forall|i: int|
        #![trigger s[i]]
        0 <= i < j ==> s[i + 1].first_version == s[i].last_version + 1
}

/// The error reported for the first transaction-continuity break at pair `j`.
pub open spec fn transaction_break_error(
    s: Seq<TransactionBackupMetaView>,
    j: int,
) -> CompactionError {
    if s[j].last_version < u64::MAX {
        CompactionError::Discontinuity {
            axis: CoordinateAxis::Version,
            expected: (s[j].last_version + 1) as u64,
            actual: s[j + 1].first_version,
        }
    } else {
        CompactionError::CoordinateOverflow { axis: CoordinateAxis::Version }
    }
}

/// The compaction of an ordered run of transaction leaves.
pub open spec fn spec_compact_transaction(s: Seq<TransactionBackupMetaView>) -> Option<
    TransactionBackupMetaRangeView,
> {
    if s.len() > 0 && transaction_chain_ok(s) {
        Some(
            TransactionBackupMetaRangeView {
                first_version: s[0].first_version,
                last_version: s[s.len() - 1].last_version,
                backup_metas: s,
            },
        )
    } else {
        None
    }
}


// ------------------------------------------------------------------
// Well-formedness of range records.
// ------------------------------------------------------------------

/// The invariant of every constructed epoch-ending range: at least one
/// member, epoch continuity across the members, and bounds equal to the
/// union of the first member's lower and the last member's upper bound.
pub open spec fn epoch_range_wf(r: EpochEndingBackupMetaRangeView) -> bool {
    &&& r.backup_metas.len() >= 1
    &&& epoch_chain_ok(r.backup_metas)
    &&& r.first_epoch == r.backup_metas[0].first_epoch
    &&& r.last_epoch == r.backup_metas[r.backup_metas.len() - 1].last_epoch
    &&& r.first_version == r.backup_metas[0].first_version
    &&& r.last_version == r.backup_metas[r.backup_metas.len() - 1].last_version
}

/// The invariant of every constructed snapshot range.
pub open spec fn snapshot_range_wf(r: StateSnapshotBackupMetaRangeView) -> bool {
    &&& r.backup_metas.len() >= 1
    &&& snapshot_chain_ok(r.backup_metas)
    &&& r.first_epoch == r.backup_metas[0].epoch
    &&& r.last_epoch == r.backup_metas[r.backup_metas.len() - 1].epoch
    &&& r.first_version == r.backup_metas[0].version
    &&& r.last_version == r.backup_metas[r.backup_metas.len() - 1].version
}

/// The invariant of every constructed transaction range.
pub open spec fn transaction_range_wf(r: TransactionBackupMetaRangeView) -> bool {
    &&& r.backup_metas.len() >= 1
    &&& transaction_chain_ok(r.backup_metas)
    &&& r.first_version == r.backup_metas[0].first_version
    &&& r.last_version == r.backup_metas[r.backup_metas.len() - 1].last_version
}

/// Every range the compaction engine produces satisfies the range invariant.
pub proof fn lemma_compaction_establishes_wf(
    s1: Seq<EpochEndingBackupMetaView>,
    s2: Seq<StateSnapshotBackupMetaView>,
    s3: Seq<TransactionBackupMetaView>,
)
    ensures
        spec_compact_epoch_ending(s1) matches Some(r1) ==> epoch_range_wf(r1),
        spec_compact_state_snapshot(s2) matches Some(r2) ==> snapshot_range_wf(r2),
        spec_compact_transaction(s3) matches Some(r3) ==> transaction_range_wf(r3),
{
}

// ------------------------------------------------------------------
// First-break uniqueness: the error each compaction reports is determined.
// ------------------------------------------------------------------

/// At most one pair is the first epoch-continuity break.
pub proof fn lemma_epoch_first_break_unique(
    s: Seq<EpochEndingBackupMetaView>,
    j1: int,
    j2: int,
)
    requires
        epoch_first_break(s, j1),
        epoch_first_break(s, j2),
    ensures
        j1 == j2,
{
    if j1 < j2 {
        assert(s[j1 + 1].first_epoch == s[j1].last_epoch + 1);
    } else if j2 < j1 {
        assert(s[j2 + 1].first_epoch == s[j2].last_epoch + 1);
    }
}

/// At most one pair is the first snapshot-continuity break.
pub proof fn lemma_snapshot_first_break_unique(
    s: Seq<StateSnapshotBackupMetaView>,
    j1: int,
    j2: int,
)
    requires
        snapshot_first_break(s, j1),
        snapshot_first_break(s, j2),
    ensures
        j1 == j2,
{
    if j1 < j2 {
        assert(snapshot_pair_ok(s[j1], s[j1 + 1]));
    } else if j2 < j1 {
        assert(snapshot_pair_ok(s[j2], s[j2 + 1]));
    }
}

/// At most one pair is the first transaction-continuity break.
pub proof fn lemma_transaction_first_break_unique(
    s: Seq<TransactionBackupMetaView>,
    j1: int,
    j2: int,
)
    requires
        transaction_first_break(s, j1),
        transaction_first_break(s, j2),
    ensures
        j1 == j2,
{
    if j1 < j2 {
        assert(s[j1 + 1].first_version == s[j1].last_version + 1);
    } else if j2 < j1 {
        assert(s[j2 + 1].first_version == s[j2].last_version + 1);
    }
}

// ------------------------------------------------------------------
// Constructors and the compaction engine.
// ------------------------------------------------------------------

impl Metadata {
    /// Leaf constructor for an epoch-ending backup: a pure, always-succeeding
    /// function of its scalar inputs and the manifest handle.
    pub fn new_epoch_ending_backup(
        first_epoch: u64,
        last_epoch: u64,
        first_version: u64,
        last_version: u64,
        manifest: FileHandle,
    ) -> (r: Self)
        ensures
            r@ == MetadataView::EpochEndingBackup(
                EpochEndingBackupMetaView {
                    first_epoch,
                    last_epoch,
                    first_version,
                    last_version,
                    manifest: manifest@,
                },
            ),
    {
        Self::EpochEndingBackup(
            EpochEndingBackupMeta {
                first_epoch,
                last_epoch,
                first_version,
                last_version,
                manifest,
            },
        )
    }

    /// Leaf constructor for a state-snapshot backup.
    pub fn new_state_snapshot_backup(epoch: u64, version: u64, manifest: FileHandle) -> (r: Self)
        ensures
            r@ == MetadataView::StateSnapshotBackup(
                StateSnapshotBackupMetaView { epoch, version, manifest: manifest@ },
            ),
    {
        Self::StateSnapshotBackup(StateSnapshotBackupMeta { epoch, version, manifest })
    }

    /// Leaf constructor for a transaction backup.
    pub fn new_transaction_backup(
        first_version: u64,
        last_version: u64,
        manifest: FileHandle,
    ) -> (r: Self)
        ensures
            r@ == MetadataView::TransactionBackup(
                TransactionBackupMetaView { first_version, last_version, manifest: manifest@ },
            ),
    {
        Self::TransactionBackup(TransactionBackupMeta { first_version, last_version, manifest })
    }

    /// Compacts an ordered run of epoch-ending leaf backups into one range
    /// record, verifying epoch continuity of the order given; on any failure
    /// no record is produced and the error names the first break.
    pub fn new_epoch_ending_backup_range(backup_metas: Vec<EpochEndingBackupMeta>) -> (r: Result<
        Self,
        CompactionError,
    >)
        ensures
            r is Ok <==> spec_compact_epoch_ending(backup_metas.deep_view()) is Some,
            r is Ok ==> r->Ok_0@ == MetadataView::EpochEndingBackupRange(
                spec_compact_epoch_ending(backup_metas.deep_view())->Some_0,
            ),
            backup_metas@.len() == 0 ==> r == Err::<Self, CompactionError>(
                CompactionError::EmptyInput,
            ),
            forall|j: int|
                epoch_first_break(backup_metas.deep_view(), j) ==> r == Err::<
                    Self,
                    CompactionError,
                >(epoch_break_error(backup_metas.deep_view(), j)),
    {
        let ghost s = backup_metas.deep_view();
        let n = backup_metas.len();
        if n == 0 {
            return Err(CompactionError::EmptyInput);
        }
        let mut i: usize = 1;
        while i < n
            invariant
                1 <= i <= n,
                n == s.len(),
                s == backup_metas.deep_view(),
                forall|k: int|
                    #![trigger s[k]]
                    0 <= k < i - 1 ==> s[k + 1].first_epoch == s[k].last_epoch + 1,
            decreases n - i,
        {
            let prev_last = backup_metas[i - 1].last_epoch;
            let cur_first = backup_metas[i].first_epoch;
            if prev_last == u64::MAX {
                let r = Err(CompactionError::CoordinateOverflow { axis: CoordinateAxis::Epoch });
                proof {
                    assert(epoch_first_break(s, i - 1));
                    assert forall|j: int| epoch_first_break(s, j) implies r == Err::<
                        Self,
                        CompactionError,
                    >(epoch_break_error(s, j)) by {
                        lemma_epoch_first_break_unique(s, j, i - 1);
                    }
                }
                return r;
            }
            let expected = prev_last + 1;
            if cur_first != expected {
                let r = Err(
                    CompactionError::Discontinuity {
                        axis: CoordinateAxis::Epoch,
                        expected,
                        actual: cur_first,
                    },
                );
                proof {
                    assert(epoch_first_break(s, i - 1));
                    assert forall|j: int| epoch_first_break(s, j) implies r == Err::<
                        Self,
                        CompactionError,
                    >(epoch_break_error(s, j)) by {
                        lemma_epoch_first_break_unique(s, j, i - 1);
                    }
                }
                return r;
            }
            i += 1;
        }
        let first_epoch = backup_metas[0].first_epoch;
        let first_version = backup_metas[0].first_version;
        let last_epoch = backup_metas[n - 1].last_epoch;
        let last_version = backup_metas[n - 1].last_version;
        let range = EpochEndingBackupMetaRange {
            first_epoch,
            last_epoch,
            first_version,
            last_version,
            backup_metas,
        };
        proof {
            assert(epoch_chain_ok(s));
            assert(range@ =~= spec_compact_epoch_ending(s)->Some_0);
        }
        Ok(Self::EpochEndingBackupRange(range))
    }

    /// Compacts an ordered run of snapshot backups, verifying that epoch and
    /// version advance in lockstep by exactly one between members; within a
    /// failing pair the epoch axis is checked first.
    pub fn new_statesnapshot_backup_range(backup_metas: Vec<StateSnapshotBackupMeta>) -> (r:
        Result<Self, CompactionError>)
        ensures
            r is Ok <==> spec_compact_state_snapshot(backup_metas.deep_view()) is Some,
            r is Ok ==> r->Ok_0@ == MetadataView::StateSnapshotBackupRange(
                spec_compact_state_snapshot(backup_metas.deep_view())->Some_0,
            ),
            backup_metas@.len() == 0 ==> r == Err::<Self, CompactionError>(
                CompactionError::EmptyInput,
            ),
            forall|j: int|
                snapshot_first_break(backup_metas.deep_view(), j) ==> r == Err::<
                    Self,
                    CompactionError,
                >(snapshot_break_error(backup_metas.deep_view(), j)),
    {
        let ghost s = backup_metas.deep_view();
        let n = backup_metas.len();
        if n == 0 {
            return Err(CompactionError::EmptyInput);
        }
        let mut i: usize = 1;
        while i < n
            invariant
                1 <= i <= n,
                n == s.len(),
                s == backup_metas.deep_view(),
                forall|k: int| #![trigger s[k]] 0 <= k < i - 1 ==> snapshot_pair_ok(s[k], s[k + 1]),
            decreases n - i,
        {
            let prev_epoch = backup_metas[i - 1].epoch;
            let prev_version = backup_metas[i - 1].version;
            let cur_epoch = backup_metas[i].epoch;
            let cur_version = backup_metas[i].version;
            let epoch_err: Option<CompactionError> = if prev_epoch == u64::MAX {
                Some(CompactionError::CoordinateOverflow { axis: CoordinateAxis::Epoch })
            } else if cur_epoch != prev_epoch + 1 {
                Some(
                    CompactionError::Discontinuity {
                        axis: CoordinateAxis::Epoch,
                        expected: prev_epoch + 1,
                        actual: cur_epoch,
                    },
                )
            } else {
                None
            };
            let version_err: Option<CompactionError> = if prev_version == u64::MAX {
                Some(CompactionError::CoordinateOverflow { axis: CoordinateAxis::Version })
            } else if cur_version != prev_version + 1 {
                Some(
                    CompactionError::Discontinuity {
                        axis: CoordinateAxis::Version,
                        expected: prev_version + 1,
                        actual: cur_version,
                    },
                )
            } else {
                None
            };
            if epoch_err.is_some() || version_err.is_some() {
                let e = if let Some(e) = epoch_err {
                    e
                } else {
                    version_err.unwrap()
                };
                let r = Err(e);
                proof {
                    assert(snapshot_first_break(s, i - 1));
                    assert(e == snapshot_break_error(s, i - 1));
                    assert forall|j: int| snapshot_first_break(s, j) implies r == Err::<
                        Self,
                        CompactionError,
                    >(snapshot_break_error(s, j)) by {
                        lemma_snapshot_first_break_unique(s, j, i - 1);
                    }
                }
                return r;
            }
            i += 1;
        }
        let first_epoch = backup_metas[0].epoch;
        let first_version = backup_metas[0].version;
        let last_epoch = backup_metas[n - 1].epoch;
        let last_version = backup_metas[n - 1].version;
        let range = StateSnapshotBackupMetaRange {
            first_epoch,
            last_epoch,
            first_version,
            last_version,
            backup_metas,
        };
        proof {
            assert(snapshot_chain_ok(s));
            assert(range@ =~= spec_compact_state_snapshot(s)->Some_0);
        }
        Ok(Self::StateSnapshotBackupRange(range))
    }

    /// Compacts an ordered run of transaction leaf backups, verifying that
    /// each member's version span starts right after its predecessor's.
    pub fn new_transaction_backup_range(backup_metas: Vec<TransactionBackupMeta>) -> (r: Result<
        Self,
        CompactionError,
    >)
        ensures
            r is Ok <==> spec_compact_transaction(backup_metas.deep_view()) is Some,
            r is Ok ==> r->Ok_0@ == MetadataView::TransactionBackupRange(
                spec_compact_transaction(backup_metas.deep_view())->Some_0,
            ),
            backup_metas@.len() == 0 ==> r == Err::<Self, CompactionError>(
                CompactionError::EmptyInput,
            ),
            forall|j: int|
                transaction_first_break(backup_metas.deep_view(), j) ==> r == Err::<
                    Self,
                    CompactionError,
                >(transaction_break_error(backup_metas.deep_view(), j)),
    {
        let ghost s = backup_metas.deep_view();
        let n = backup_metas.len();
        if n == 0 {
            return Err(CompactionError::EmptyInput);
        }
        let mut i: usize = 1;
        while i < n
            invariant
                1 <= i <= n,
                n == s.len(),
                s == backup_metas.deep_view(),
                forall|k: int|
                    #![trigger s[k]]
                    0 <= k < i - 1 ==> s[k + 1].first_version == s[k].last_version + 1,
            decreases n - i,
        {
            let prev_last = backup_metas[i - 1].last_version;
            let cur_first = backup_metas[i].first_version;
            if prev_last == u64::MAX {
                let r = Err(CompactionError::CoordinateOverflow { axis: CoordinateAxis::Version });
                proof {
                    assert(transaction_first_break(s, i - 1));
                    assert forall|j: int| transaction_first_break(s, j) implies r == Err::<
                        Self,
                        CompactionError,
                    >(transaction_break_error(s, j)) by {
                        lemma_transaction_first_break_unique(s, j, i - 1);
                    }
                }
                return r;
            }
            let expected = prev_last + 1;
            if cur_first != expected {
                let r = Err(
                    CompactionError::Discontinuity {
                        axis: CoordinateAxis::Version,
                        expected,
                        actual: cur_first,
                    },
                );
                proof {
                    assert(transaction_first_break(s, i - 1));
                    assert forall|j: int| transaction_first_break(s, j) implies r == Err::<
                        Self,
                        CompactionError,
                    >(transaction_break_error(s, j)) by {
                        lemma_transaction_first_break_unique(s, j, i - 1);
                    }
                }
                return r;
            }
            i += 1;
        }
        let first_version = backup_metas[0].first_version;
        let last_version = backup_metas[n - 1].last_version;
        let range = TransactionBackupMetaRange { first_version, last_version, backup_metas };
        proof {
            assert(transaction_chain_ok(s));
            assert(range@ =~= spec_compact_transaction(s)->Some_0);
        }
        Ok(Self::TransactionBackupRange(range))
    }

    /// Constructs an identity marker with a fresh 256-bit random id.
    pub fn new_random_identity() -> (r: Self)
        ensures
            r@ matches MetadataView::Identity(m) && m.id.len() == 32,
    {
        Self::Identity(IdentityMeta { id: random_hash_bytes() })
    }
}

/// Relies on `rand::thread_rng` and `rand::RngCore::fill_bytes`: fills the
/// buffer from a cryptographically secure generator. Nothing is assumed of
/// the drawn value itself, only that 32 bytes come back.
#[verifier::external_body]
fn random_hash_bytes() -> (r: Vec<u8>)
    ensures
        r@.len() == 32,
{
    let mut bytes = vec![0u8; 32];
    rand::RngCore::fill_bytes(&mut rand::thread_rng(), &mut bytes);
    bytes
}

// ------------------------------------------------------------------
// Laws of single-element compaction.
// ------------------------------------------------------------------

/// Law: compacting a one-element run of epoch-ending leaves always succeeds,
/// and the range's bounds equal the single leaf's bounds while its member
/// sequence is the one-element input itself.
pub proof fn lemma_compact_single_epoch_ending(s: Seq<EpochEndingBackupMetaView>)
    requires
        s.len() == 1,
    ensures
        spec_compact_epoch_ending(s) == Some(
            EpochEndingBackupMetaRangeView {
                first_epoch: s[0].first_epoch,
                last_epoch: s[0].last_epoch,
                first_version: s[0].first_version,
                last_version: s[0].last_version,
                backup_metas: s,
            },
        ),
{
    assert(epoch_chain_ok(s));
}

/// Law: compacting a one-element run of snapshot leaves always succeeds, and
/// the range's bounds equal the single leaf's coordinates while its member
/// sequence is the one-element input itself.
pub proof fn lemma_compact_single_state_snapshot(s: Seq<StateSnapshotBackupMetaView>)
    requires
        s.len() == 1,
    ensures
        spec_compact_state_snapshot(s) == Some(
            StateSnapshotBackupMetaRangeView {
                first_epoch: s[0].epoch,
                last_epoch: s[0].epoch,
                first_version: s[0].version,
                last_version: s[0].version,
                backup_metas: s,
            },
        ),
{
    assert(snapshot_chain_ok(s));
}

/// Law: compacting a one-element run of transaction leaves always succeeds,
/// and the range's bounds equal the single leaf's bounds while its member
/// sequence is the one-element input itself.
pub proof fn lemma_compact_single_transaction(s: Seq<TransactionBackupMetaView>)
    requires
        s.len() == 1,
    ensures
        spec_compact_transaction(s) == Some(
            TransactionBackupMetaRangeView {
                first_version: s[0].first_version,
                last_version: s[0].last_version,
                backup_metas: s,
            },
        ),
{
    assert(transaction_chain_ok(s));
}

} // verus!
