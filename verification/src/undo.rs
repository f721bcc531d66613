//! The undo manager: the reversible trail behind destructive operations.
//! While a deletion batch runs, each backed-up file is recorded against a
//! pending operation; finalizing commits the operation to the history with
//! status `Available` — until then no phantom undo target is visible, and
//! an operation with no backed-up file is never committed. Undoing plans a
//! copy of every backup back to its original; an operation turns
//! `Restored` only when every file of it is back, otherwise it stays
//! `Available` so a retry can finish the rest. Old operations can be
//! expired, purging their records and naming the backup files to delete.
//! The binary persists this state and performs the copies; the state
//! transitions here are what it must follow.

use vstd::prelude::*;

use crate::bytes::{bytes_eq, copy_bytes};

verus! {

/// Where an operation stands in its lifecycle.
#[derive(Clone, Copy, Debug, PartialEq, Eq, Structural)]
pub enum UndoStatus {
    Available,
    Restored,
    Expired,
}

/// What kind of destructive operation was recorded.
#[derive(Clone, Copy, Debug, PartialEq, Eq, Structural)]
pub enum UndoOperationType {
    MoveToTrash,
    Delete,
    SecureDelete,
    Move,
}

/// Why an undo request failed as a whole.
#[derive(Debug)]
pub enum UndoError {
    NotFound(Vec<u8>),
    CannotUndo(Vec<u8>),
    RestoreFailed(Vec<u8>),
    TrashError(Vec<u8>),
}

/// One backed-up file: where it lived, where its copy lies, its size, and
/// whether it has been restored.
#[derive(Debug)]
pub struct RestorePoint {
    pub original_path: Vec<u8>,
    pub backup_path: Vec<u8>,
    pub file_size: u64,
    pub restored: bool,
}

/// One backup operation not yet finalized.
#[derive(Debug)]
pub struct PendingOp {
    pub id: Vec<u8>,
    pub files: Vec<RestorePoint>,
}

/// One committed operation in the history.
#[derive(Debug)]
pub struct UndoRecord {
    pub id: Vec<u8>,
    pub created_at: u64,
    pub operation_type: UndoOperationType,
    pub files: Vec<RestorePoint>,
    pub files_count: u64,
    pub bytes_freed: u64,
    pub status: UndoStatus,
}

/// A history summary of one operation.
#[derive(Debug)]
pub struct UndoEntry {
    pub id: Vec<u8>,
    pub created_at: u64,
    pub files_count: u64,
    pub bytes_freed: u64,
    pub status: UndoStatus,
}

/// One copy the binary must perform to restore a file.
#[derive(Debug)]
pub struct RestoreAction {
    pub backup_path: Vec<u8>,
    pub original_path: Vec<u8>,
    pub file_size: u64,
}

/// What the binary reports for one attempted restore.
#[derive(Debug)]
pub struct RestoreOutcome {
    pub ok: bool,
    pub error: Vec<u8>,
}

/// What an applied undo did.
#[derive(Debug)]
pub struct UndoResult {
    pub operation_id: Vec<u8>,
    pub files_restored: u64,
    pub files_failed: u64,
    pub errors: Vec<Vec<u8>>,
}

/// The history keeps at most this many operations; committing one more
/// drops the oldest.
pub const MAX_UNDO_HISTORY: usize = 100;

/// Index `i` holds the first pending operation with this id.
pub open spec fn spec_pending_at(pending: Seq<PendingOp>, id: Seq<u8>, i: int) -> bool {
    &&& 0 <= i < pending.len()
    &&& pending[i].id@ == id
    &&& forall|j: int| 0 <= j < i ==> (#[trigger] pending[j]).id@ != id
}

/// Index `i` holds the first committed record with this id.
pub open spec fn spec_record_at(records: Seq<UndoRecord>, id: Seq<u8>, i: int) -> bool {
    &&& 0 <= i < records.len()
    &&& records[i].id@ == id
    &&& forall|j: int| 0 <= j < i ==> (#[trigger] records[j]).id@ != id
}

/// The files of an operation that still await restoration, in order.
pub open spec fn spec_unrestored(files: Seq<RestorePoint>) -> Seq<RestorePoint>
    decreases files.len(),
{
    if files.len() == 0 {
        Seq::<RestorePoint>::empty()
    } else {
        let prefix = spec_unrestored(files.drop_last());
        if !files.last().restored {
            prefix.push(files.last())
        } else {
            prefix
        }
    }
}

/// The undo manager's state: operations still being backed up, and the
/// committed history in recording order (newest last).
pub struct UndoManager {
    pub pending: Vec<PendingOp>,
    pub records: Vec<UndoRecord>,
}

impl UndoManager {
    /// An empty trail.
    pub fn new() -> (r: Self)
        ensures
            r.pending@.len() == 0,
            r.records@.len() == 0,
    {
        UndoManager { pending: Vec::new(), records: Vec::new() }
    }

    /// The first pending operation with this id.
    fn find_pending(&self, operation_id: &Vec<u8>) -> (r: Option<usize>)
        ensures
            match r {
                Some(i) => spec_pending_at(self.pending@, operation_id@, i as int),
                None => forall|j: int| 0 <= j < self.pending@.len()
                    ==> (#[trigger] self.pending@[j]).id@ != operation_id@,
            },
    {
        let mut i: usize = 0;
        while i < self.pending.len()
            invariant
                i <= self.pending@.len(),
                forall|j: int| 0 <= j < i ==> (#[trigger] self.pending@[j]).id@ != operation_id@,
            decreases self.pending@.len() - i,
        {
            if bytes_eq(&self.pending[i].id, operation_id) {
                return Some(i);
            }
            i = i + 1;
        }
        None
    }

    /// The first committed record with this id.
    pub fn find_record(&self, operation_id: &Vec<u8>) -> (r: Option<usize>)
        ensures
            match r {
                Some(i) => spec_record_at(self.records@, operation_id@, i as int),
                None => forall|j: int| 0 <= j < self.records@.len()
                    ==> (#[trigger] self.records@[j]).id@ != operation_id@,
            },
    {
        let mut i: usize = 0;
        while i < self.records.len()
            invariant
                i <= self.records@.len(),
                forall|j: int| 0 <= j < i ==> (#[trigger] self.records@[j]).id@ != operation_id@,
            decreases self.records@.len() - i,
        {
            if bytes_eq(&self.records[i].id, operation_id) {
                return Some(i);
            }
            i = i + 1;
        }
        None
    }

    /// Record one backed-up file against its operation, opening the
    /// operation if this is its first file. The committed history does not
    /// change: nothing of the operation is visible before it is finalized.
    pub fn backup_file(&mut self, operation_id: &Vec<u8>, original_path: &Vec<u8>, backup_path: &Vec<u8>, size: u64)
        ensures
            final(self).records == old(self).records,
            ({
                let before = old(self).pending@;
                let after = final(self).pending@;
                if exists|i: int| spec_pending_at(before, operation_id@, i) {
                    exists|i: int|
                        {
                            &&& #[trigger] spec_pending_at(before, operation_id@, i)
                            &&& after.len() == before.len()
                            &&& forall|j: int| 0 <= j < before.len() && j != i ==> after[j] == before[j]
                            &&& after[i].id@ == operation_id@
                            &&& after[i].files@.len() == before[i].files@.len() + 1
                            &&& forall|k: int| 0 <= k < before[i].files@.len()
                                ==> after[i].files@[k] == before[i].files@[k]
                            &&& after[i].files@.last().original_path@ == original_path@
                            &&& after[i].files@.last().backup_path@ == backup_path@
                            &&& after[i].files@.last().file_size == size
                            &&& after[i].files@.last().restored == false
                        }
                } else {
                    &&& after.len() == before.len() + 1
                    &&& forall|j: int| 0 <= j < before.len() ==> after[j] == before[j]
                    &&& after.last().id@ == operation_id@
                    &&& after.last().files@.len() == 1
                    &&& after.last().files@[0].original_path@ == original_path@
                    &&& after.last().files@[0].backup_path@ == backup_path@
                    &&& after.last().files@[0].file_size == size
                    &&& after.last().files@[0].restored == false
                }
            }),
    {
        let rp = RestorePoint {
            original_path: copy_bytes(original_path),
            backup_path: copy_bytes(backup_path),
            file_size: size,
            restored: false,
        };
        match self.find_pending(operation_id) {
            Some(i) => {
                let ghost before = self.pending@;
                let mut op = self.pending.remove(i);
                op.files.push(rp);
                self.pending.insert(i, op);
                proof {
                    assert(self.pending@ =~= before.update(i as int, self.pending@[i as int]));
                }
            },
            None => {
                let mut files: Vec<RestorePoint> = Vec::new();
                files.push(rp);
                self.pending.push(PendingOp { id: copy_bytes(operation_id), files });
            },
        }
    }

    /// Commit a pending operation to the history with status `Available`,
    /// trimming the history to its bound by dropping the oldest records.
    /// An operation with no backed-up file — or none at all — is refused
    /// and leaves no record.
    pub fn finalize_entry(&mut self, operation_id: &Vec<u8>, files_count: u64, bytes_freed: u64, operation_type: UndoOperationType, now: u64) -> (r: Result<(), UndoError>)
        ensures
            ({
                let before_p = old(self).pending@;
                let before_r = old(self).records@;
                let dropped: int = if before_r.len() + 1 <= MAX_UNDO_HISTORY {
                    0
                } else {
                    before_r.len() + 1 - MAX_UNDO_HISTORY
                };
                match r {
                    Ok(()) => exists|i: int|
                        {
                            &&& #[trigger] spec_pending_at(before_p, operation_id@, i)
                            &&& before_p[i].files@.len() > 0
                            &&& final(self).pending@ =~= before_p.remove(i)
                            &&& final(self).records@.len() == before_r.len() + 1 - dropped
                            &&& forall|j: int| 0 <= j < final(self).records@.len() - 1
                                ==> final(self).records@[j] == before_r[j + dropped]
                            &&& final(self).records@.last().id@ == operation_id@
                            &&& final(self).records@.last().created_at == now
                            &&& final(self).records@.last().operation_type == operation_type
                            &&& final(self).records@.last().files == before_p[i].files
                            &&& final(self).records@.last().files_count == files_count
                            &&& final(self).records@.last().bytes_freed == bytes_freed
                            &&& final(self).records@.last().status == UndoStatus::Available
                        },
                    Err(e) => {
                        &&& e matches UndoError::NotFound(_)
                        &&& *final(self) == *old(self)
                        &&& !(exists|i: int|
                            #[trigger] spec_pending_at(before_p, operation_id@, i)
                                && before_p[i].files@.len() > 0)
                    },
                }
            }),
    {
        match self.find_pending(operation_id) {
            Some(i) => {
                if self.pending[i].files.len() == 0 {
                    proof {
                        assert forall|t: int| !(#[trigger] spec_pending_at(
                            old(self).pending@,
                            operation_id@,
                            t,
                        ) && old(self).pending@[t].files@.len() > 0) by {
                            if spec_pending_at(old(self).pending@, operation_id@, t) {
                                assert(t == i as int);
                            }
                        }
                    }
                    return Err(UndoError::NotFound(copy_bytes(operation_id)));
                }
                let op = self.pending.remove(i);
                self.records.push(UndoRecord {
                    id: op.id,
                    created_at: now,
                    operation_type,
                    files: op.files,
                    files_count,
                    bytes_freed,
                    status: UndoStatus::Available,
                });
                let ghost appended = self.records@;
                let ghost pending_now = self.pending@;
                proof {
                    assert(self.records.len() == appended.len());
                }
                while self.records.len() > MAX_UNDO_HISTORY
                    invariant
                        1 <= self.records@.len() <= appended.len(),
                        appended.len() <= usize::MAX,
                        self.records@.len() >= MAX_UNDO_HISTORY || self.records@.len() == appended.len(),
                        self.records@ == appended.skip(appended.len() - self.records@.len()),
                        self.pending@ == pending_now,
                    decreases self.records@.len(),
                {
                    let ghost d = appended.len() - self.records@.len();
                    self.records.remove(0);
                    proof {
                        assert(self.records@ =~= appended.skip(d + 1));
                    }
                }
                proof {
                    let d = appended.len() - self.records@.len();
                    assert(self.records@ == appended.skip(d));
                    assert forall|j: int| 0 <= j < self.records@.len() - 1 implies self.records@[j]
                        == old(self).records@[j + d] by {
                        assert(appended.skip(d)[j] == appended[j + d]);
                        assert(appended[j + d] == old(self).records@[j + d]);
                    }
                    assert(self.records@.last() == appended.last());
                }
                Ok(())
            },
            None => Err(UndoError::NotFound(copy_bytes(operation_id))),
        }
    }
}

/// How many of the first `k` files still await restoration.
pub open spec fn spec_unrestored_before(files: Seq<RestorePoint>, k: int) -> int
    decreases k,
{
    if k <= 0 {
        0
    } else {
        spec_unrestored_before(files, k - 1) + if !files[k - 1].restored {
            1int
        } else {
            0int
        }
    }
}

/// How many of the first `n` outcomes succeeded.
pub open spec fn spec_count_ok(outcomes: Seq<RestoreOutcome>, n: int) -> int
    decreases n,
{
    if n <= 0 {
        0
    } else {
        spec_count_ok(outcomes, n - 1) + if outcomes[n - 1].ok {
            1int
        } else {
            0int
        }
    }
}

/// The indices of the failed outcomes, in order.
pub open spec fn spec_failed_outcomes(outcomes: Seq<RestoreOutcome>, n: int) -> Seq<int>
    decreases n,
{
    if n <= 0 {
        Seq::<int>::empty()
    } else {
        let prefix = spec_failed_outcomes(outcomes, n - 1);
        if !outcomes[n - 1].ok {
            prefix.push(n - 1)
        } else {
            prefix
        }
    }
}

proof fn lemma_unrestored_counts(files: Seq<RestorePoint>, k: int)
    requires
        0 <= k <= files.len(),
    ensures
        0 <= spec_unrestored_before(files, k) <= k,
        spec_unrestored_before(files, files.len() as int) == spec_unrestored(files).len(),
        k < files.len() && !files[k].restored
            ==> spec_unrestored_before(files, k) < spec_unrestored(files).len(),
    decreases files.len(),
{
    lemma_unrestored_before_bounds(files, k);
    lemma_unrestored_align(files, files.len() as int);
    assert(files.take(files.len() as int) =~= files);
    if k < files.len() && !files[k].restored {
        lemma_unrestored_step_bound(files, k);
    }
}

proof fn lemma_unrestored_before_bounds(files: Seq<RestorePoint>, k: int)
    requires
        0 <= k,
    ensures
        0 <= spec_unrestored_before(files, k) <= k,
    decreases k,
{
    if k > 0 {
        lemma_unrestored_before_bounds(files, k - 1);
    }
}

proof fn lemma_unrestored_align(files: Seq<RestorePoint>, k: int)
    requires
        0 <= k <= files.len(),
    ensures
        spec_unrestored_before(files, k) == spec_unrestored(files.take(k)).len(),
    decreases k,
{
    if k > 0 {
        lemma_unrestored_align(files, k - 1);
        assert(files.take(k).drop_last() =~= files.take(k - 1));
        assert(files.take(k).last() == files[k - 1]);
    }
    if k == files.len() {
        assert(files.take(k) =~= files);
    }
}

proof fn lemma_unrestored_step_bound(files: Seq<RestorePoint>, k: int)
    requires
        0 <= k < files.len(),
        !files[k].restored,
    ensures
        spec_unrestored_before(files, k) < spec_unrestored_before(files, files.len() as int),
    decreases files.len() - k,
{
    if k + 1 < files.len() {
        lemma_unrestored_step_bound_mono(files, k + 1, files.len() as int);
    }
}

proof fn lemma_unrestored_step_bound_mono(files: Seq<RestorePoint>, a: int, b: int)
    requires
        0 <= a <= b,
    ensures
        spec_unrestored_before(files, a) <= spec_unrestored_before(files, b),
    decreases b,
{
    if a < b {
        lemma_unrestored_step_bound_mono(files, a, b - 1);
    }
}

/// The unrestored files of `files`, position by position: the `t`-th
/// action of a restore plan addresses the `t`-th file that awaits
/// restoration.
proof fn lemma_unrestored_index(files: Seq<RestorePoint>, k: int)
    requires
        0 <= k < files.len(),
        !files[k].restored,
    ensures
        spec_unrestored_before(files, k) < spec_unrestored(files).len(),
        spec_unrestored(files)[spec_unrestored_before(files, k)] == files[k],
    decreases files.len(),
{
    let pre = spec_unrestored(files.drop_last());
    if k == files.len() - 1 {
        lemma_unrestored_align(files, k);
        assert(files.take(k) =~= files.drop_last());
        assert(spec_unrestored_before(files, k) == pre.len());
        assert(spec_unrestored(files) == pre.push(files.last()));
        assert(spec_unrestored(files)[pre.len() as int] == files.last());
    } else {
        assert(files.drop_last()[k] == files[k]);
        lemma_unrestored_index(files.drop_last(), k);
        lemma_unrestored_before_same(files, k);
        lemma_unrestored_before_bounds(files, k);
        let ix = spec_unrestored_before(files, k);
        assert(pre[ix] == files[k]);
        if !files.last().restored {
            assert(spec_unrestored(files) == pre.push(files.last()));
            assert(pre.push(files.last())[ix] == pre[ix]);
        } else {
            assert(spec_unrestored(files) == pre);
        }
    }
}

proof fn lemma_unrestored_before_same(files: Seq<RestorePoint>, k: int)
    requires
        0 <= k < files.len(),
    ensures
        spec_unrestored_before(files.drop_last(), k) == spec_unrestored_before(files, k),
    decreases k,
{
    if k > 0 {
        lemma_unrestored_before_same(files, k - 1);
        assert(files.drop_last()[k - 1] == files[k - 1]);
    }
}

impl UndoManager {
    /// Plan the undo of one committed operation: one copy, backup back to
    /// original, for every file of it that still awaits restoration. Only
    /// an `Available` operation can be undone; an unknown id is refused.
    pub fn restore_plan(&self, operation_id: &Vec<u8>) -> (r: Result<Vec<RestoreAction>, UndoError>)
        ensures
            match r {
                Ok(acts) => exists|i: int|
                    {
                        &&& #[trigger] spec_record_at(self.records@, operation_id@, i)
                        &&& self.records@[i].status == UndoStatus::Available
                        &&& acts@.len() == spec_unrestored(self.records@[i].files@).len()
                        &&& forall|t: int| 0 <= t < acts@.len() ==> {
                            let u = spec_unrestored(self.records@[i].files@)[t];
                            &&& (#[trigger] acts@[t]).backup_path@ == u.backup_path@
                            &&& acts@[t].original_path@ == u.original_path@
                            &&& acts@[t].file_size == u.file_size
                        }
                    },
                Err(e) => match e {
                    UndoError::NotFound(_) => forall|j: int| 0 <= j < self.records@.len()
                        ==> (#[trigger] self.records@[j]).id@ != operation_id@,
                    UndoError::CannotUndo(_) => exists|i: int|
                        #[trigger] spec_record_at(self.records@, operation_id@, i)
                            && self.records@[i].status != UndoStatus::Available,
                    _ => false,
                },
            },
    {
        let i = match self.find_record(operation_id) {
            Some(i) => i,
            None => {
                return Err(UndoError::NotFound(copy_bytes(operation_id)));
            },
        };
        if !(self.records[i].status == UndoStatus::Available) {
            return Err(UndoError::CannotUndo(copy_bytes(operation_id)));
        }
        let files = &self.records[i].files;
        let mut acts: Vec<RestoreAction> = Vec::new();
        let mut k: usize = 0;
        while k < files.len()
            invariant
                k <= files@.len(),
                files == &self.records@[i as int].files,
                i < self.records@.len(),
                acts@.len() == spec_unrestored(files@.take(k as int)).len(),
                forall|t: int| 0 <= t < acts@.len() ==> {
                    let u = spec_unrestored(files@.take(k as int))[t];
                    &&& (#[trigger] acts@[t]).backup_path@ == u.backup_path@
                    &&& acts@[t].original_path@ == u.original_path@
                    &&& acts@[t].file_size == u.file_size
                },
            decreases files@.len() - k,
        {
            proof {
                assert(files@.take(k + 1).drop_last() =~= files@.take(k as int));
                assert(files@.take(k + 1).last() == files@[k as int]);
            }
            let rp = &files[k];
            if !rp.restored {
                acts.push(RestoreAction {
                    backup_path: copy_bytes(&rp.backup_path),
                    original_path: copy_bytes(&rp.original_path),
                    file_size: rp.file_size,
                });
            }
            k = k + 1;
        }
        proof {
            assert(files@.take(files@.len() as int) =~= files@);
        }
        Ok(acts)
    }

    /// Apply the binary's per-file restore outcomes to one operation: each
    /// file that awaited restoration is marked restored on success; the
    /// operation turns `Restored` only when every file of it is restored,
    /// and otherwise stays `Available` for a retry.
    pub fn apply_restore_outcomes(&mut self, index: usize, outcomes: &Vec<RestoreOutcome>) -> (r: UndoResult)
        requires
            index < old(self).records@.len(),
            old(self).records@[index as int].status == UndoStatus::Available,
            outcomes@.len() == spec_unrestored(old(self).records@[index as int].files@).len(),
        ensures
            final(self).pending == old(self).pending,
            final(self).records@.len() == old(self).records@.len(),
            forall|j: int| 0 <= j < old(self).records@.len() && j != index
                ==> final(self).records@[j] == old(self).records@[j],
            ({
                let before = old(self).records@[index as int];
                let after = final(self).records@[index as int];
                &&& after.id == before.id
                &&& after.created_at == before.created_at
                &&& after.operation_type == before.operation_type
                &&& after.files_count == before.files_count
                &&& after.bytes_freed == before.bytes_freed
                &&& after.files@.len() == before.files@.len()
                &&& forall|k: int| 0 <= k < before.files@.len() ==> {
                    let fb = before.files@[k];
                    let fa = #[trigger] after.files@[k];
                    &&& fa.original_path == fb.original_path
                    &&& fa.backup_path == fb.backup_path
                    &&& fa.file_size == fb.file_size
                    &&& fa.restored == (fb.restored
                        || outcomes@[spec_unrestored_before(before.files@, k)].ok)
                }
                &&& after.status == (if forall|k: int|
                    0 <= k < after.files@.len() ==> (#[trigger] after.files@[k]).restored {
                    UndoStatus::Restored
                } else {
                    UndoStatus::Available
                })
            }),
            r.operation_id@ == old(self).records@[index as int].id@,
            r.files_restored == spec_count_ok(outcomes@, outcomes@.len() as int),
            r.files_failed == outcomes@.len() - spec_count_ok(outcomes@, outcomes@.len() as int),
            r.errors@.len() == spec_failed_outcomes(outcomes@, outcomes@.len() as int).len(),
            forall|t: int| 0 <= t < r.errors@.len()
                ==> (#[trigger] r.errors@[t])@ == outcomes@[spec_failed_outcomes(
                    outcomes@,
                    outcomes@.len() as int,
                )[t]].error@,
    {
        let ghost before_records = self.records@;
        let mut rec = self.records.remove(index);
        let ghost before = before_records[index as int];
        let ghost bf = rec.files@;
        let op_id = copy_bytes(&rec.id);
        let mut new_files: Vec<RestorePoint> = Vec::new();
        let mut t: usize = 0;
        let mut restored_count: u64 = 0;
        let mut errors: Vec<Vec<u8>> = Vec::new();
        let total_files = rec.files.len();
        proof {
            assert(bf.len() == total_files);
            assert(outcomes@.len() == outcomes.len());
        }
        let mut k: usize = 0;
        while rec.files.len() > 0
            invariant
                bf.len() <= usize::MAX,
                outcomes@.len() <= usize::MAX,
                rec.id == before.id,
                rec.created_at == before.created_at,
                rec.operation_type == before.operation_type,
                rec.files_count == before.files_count,
                rec.bytes_freed == before.bytes_freed,
                k + rec.files@.len() == bf.len(),
                rec.files@ == bf.skip(k as int),
                bf == before.files@,
                outcomes@.len() == spec_unrestored(bf).len(),
                new_files@.len() == k,
                t == spec_unrestored_before(bf, k as int),
                t <= outcomes@.len(),
                forall|j: int| 0 <= j < k ==> {
                    let fb = bf[j];
                    let fa = #[trigger] new_files@[j];
                    &&& fa.original_path == fb.original_path
                    &&& fa.backup_path == fb.backup_path
                    &&& fa.file_size == fb.file_size
                    &&& fa.restored == (fb.restored || outcomes@[spec_unrestored_before(bf, j)].ok)
                },
                restored_count == spec_count_ok(outcomes@, t as int),
                errors@.len() == spec_failed_outcomes(outcomes@, t as int).len(),
                forall|u: int| 0 <= u < errors@.len()
                    ==> (#[trigger] errors@[u])@ == outcomes@[spec_failed_outcomes(outcomes@, t as int)[u]].error@,
            decreases rec.files@.len(),
        {
            proof {
                lemma_unrestored_counts(bf, k as int);
                lemma_count_ok_bounds(outcomes@, t as int);
                assert(bf.skip(k as int)[0] == bf[k as int]);
            }
            let mut rp = rec.files.remove(0);
            proof {
                assert(rec.files@ =~= bf.skip(k + 1));
            }
            if rp.restored {
                new_files.push(rp);
            } else {
                proof {
                    assert(rp == bf[k as int]);
                    assert(!bf[k as int].restored);
                    assert(t < outcomes@.len());
                }
                let oc = &outcomes[t];
                if oc.ok {
                    restored_count = restored_count + 1;
                } else {
                    errors.push(copy_bytes(&oc.error));
                }
                rp.restored = oc.ok;
                new_files.push(rp);
                t = t + 1;
            }
            k = k + 1;
        }
        proof {
            lemma_unrestored_counts(bf, bf.len() as int);
            assert(t == outcomes@.len());
        }

        let mut all_restored = true;
        let mut k2: usize = 0;
        while k2 < new_files.len()
            invariant
                k2 <= new_files@.len(),
                all_restored == forall|j: int| 0 <= j < k2 ==> (#[trigger] new_files@[j]).restored,
            decreases new_files@.len() - k2,
        {
            if !new_files[k2].restored {
                all_restored = false;
            }
            k2 = k2 + 1;
        }

        proof {
            lemma_count_ok_bounds(outcomes@, outcomes@.len() as int);
        }
        let failed_count = (outcomes.len() as u64) - restored_count;
        let new_rec = UndoRecord {
            id: rec.id,
            created_at: rec.created_at,
            operation_type: rec.operation_type,
            files: new_files,
            files_count: rec.files_count,
            bytes_freed: rec.bytes_freed,
            status: if all_restored {
                UndoStatus::Restored
            } else {
                UndoStatus::Available
            },
        };
        let ghost gnew = new_rec;
        self.records.insert(index, new_rec);
        proof {
            assert(self.records@ =~= before_records.update(index as int, gnew));
        }
        UndoResult {
            operation_id: op_id,
            files_restored: restored_count,
            files_failed: failed_count,
            errors,
        }
    }

    /// The most recent `Available` operation: latest creation time, and
    /// among equals the one recorded last. With no `Available` operation
    /// at all, a not-found error — and, taking the manager by shared
    /// reference, no state changes either way.
    pub fn undo_last(&self) -> (r: Result<Vec<u8>, UndoError>)
        ensures
            match r {
                Ok(id) => exists|i: int|
                    {
                        &&& 0 <= i < self.records@.len()
                        &&& (#[trigger] self.records@[i]).status == UndoStatus::Available
                        &&& id@ == self.records@[i].id@
                        &&& forall|j: int|
                            0 <= j < self.records@.len() && (#[trigger] self.records@[j]).status
                                == UndoStatus::Available ==> self.records@[j].created_at
                                < self.records@[i].created_at || (self.records@[j].created_at
                                == self.records@[i].created_at && j <= i)
                    },
                Err(e) => e matches UndoError::NotFound(_) && forall|j: int|
                    0 <= j < self.records@.len()
                        ==> (#[trigger] self.records@[j]).status != UndoStatus::Available,
            },
    {
        let mut best: Option<usize> = None;
        let mut i: usize = 0;
        while i < self.records.len()
            invariant
                i <= self.records@.len(),
                match best {
                    Some(b) => {
                        &&& b < i
                        &&& self.records@[b as int].status == UndoStatus::Available
                        &&& forall|j: int|
                            0 <= j < i && (#[trigger] self.records@[j]).status == UndoStatus::Available
                                ==> self.records@[j].created_at < self.records@[b as int].created_at
                                    || (self.records@[j].created_at == self.records@[b as int].created_at
                                        && j <= b)
                    },
                    None => forall|j: int| 0 <= j < i
                        ==> (#[trigger] self.records@[j]).status != UndoStatus::Available,
                },
            decreases self.records@.len() - i,
        {
            if self.records[i].status == UndoStatus::Available {
                match best {
                    Some(b) => {
                        if self.records[i].created_at >= self.records[b].created_at {
                            best = Some(i);
                        }
                    },
                    None => {
                        best = Some(i);
                    },
                }
            }
            i = i + 1;
        }
        match best {
            Some(b) => Ok(copy_bytes(&self.records[b].id)),
            None => Err(UndoError::NotFound(Vec::new())),
        }
    }

    /// The history, newest first, capped at `limit` entries.
    pub fn get_history(&self, limit: usize) -> (r: Vec<UndoEntry>)
        ensures
            r@.len() == if limit < self.records@.len() {
                limit as int
            } else {
                self.records@.len() as int
            },
            forall|t: int| 0 <= t < r@.len() ==> {
                let rec = self.records@[self.records@.len() - 1 - t];
                &&& (#[trigger] r@[t]).id@ == rec.id@
                &&& r@[t].created_at == rec.created_at
                &&& r@[t].files_count == rec.files_count
                &&& r@[t].bytes_freed == rec.bytes_freed
                &&& r@[t].status == rec.status
            },
    {
        let mut r: Vec<UndoEntry> = Vec::new();
        let mut t: usize = 0;
        while t < limit && t < self.records.len()
            invariant
                t <= self.records@.len(),
                limit < self.records@.len() ==> t <= limit,
                r@.len() == t,
                forall|u: int| 0 <= u < t ==> {
                    let rec = self.records@[self.records@.len() - 1 - u];
                    &&& (#[trigger] r@[u]).id@ == rec.id@
                    &&& r@[u].created_at == rec.created_at
                    &&& r@[u].files_count == rec.files_count
                    &&& r@[u].bytes_freed == rec.bytes_freed
                    &&& r@[u].status == rec.status
                },
            decreases self.records@.len() - t,
        {
            let idx = self.records.len() - 1 - t;
            let rec = &self.records[idx];
            r.push(UndoEntry {
                id: copy_bytes(&rec.id),
                created_at: rec.created_at,
                files_count: rec.files_count,
                bytes_freed: rec.bytes_freed,
                status: rec.status,
            });
            t = t + 1;
        }
        r
    }
}

/// The retention cutoff: records created before it expire.
pub open spec fn spec_cutoff(now: u64, days: u32) -> u64 {
    if now >= days * 86400 {
        (now - days * 86400) as u64
    } else {
        0
    }
}

/// The records created at or after the cutoff, in order.
pub open spec fn spec_kept_records(records: Seq<UndoRecord>, cutoff: u64) -> Seq<UndoRecord>
    decreases records.len(),
{
    if records.len() == 0 {
        Seq::<UndoRecord>::empty()
    } else {
        let prefix = spec_kept_records(records.drop_last(), cutoff);
        if records.last().created_at >= cutoff {
            prefix.push(records.last())
        } else {
            prefix
        }
    }
}

/// The backup paths of the expiring records, in order: these files the
/// binary must delete to reclaim the backup storage.
pub open spec fn spec_purged_backups(records: Seq<UndoRecord>, cutoff: u64) -> Seq<Seq<u8>>
    decreases records.len(),
{
    if records.len() == 0 {
        Seq::<Seq<u8>>::empty()
    } else {
        let prefix = spec_purged_backups(records.drop_last(), cutoff);
        if records.last().created_at >= cutoff {
            prefix
        } else {
            prefix + records.last().files@.map_values(|rp: RestorePoint| rp.backup_path@)
        }
    }
}

proof fn lemma_kept_bounds(records: Seq<UndoRecord>, cutoff: u64)
    ensures
        0 <= spec_kept_records(records, cutoff).len() <= records.len(),
    decreases records.len(),
{
    if records.len() > 0 {
        lemma_kept_bounds(records.drop_last(), cutoff);
    }
}

impl UndoManager {
    /// Expire every operation older than the cutoff, whatever its status:
    /// its record rows leave the history, and the returned backup paths
    /// name the copies the binary must delete, with the count of expired
    /// operations.
    pub fn cleanup_old_entries(&mut self, now: u64, days: u32) -> (r: (Vec<Vec<u8>>, u64))
        ensures
            final(self).pending == old(self).pending,
            final(self).records@ == spec_kept_records(old(self).records@, spec_cutoff(now, days)),
            r.1 == old(self).records@.len() - spec_kept_records(old(self).records@, spec_cutoff(now, days)).len(),
            r.0@.len() == spec_purged_backups(old(self).records@, spec_cutoff(now, days)).len(),
            forall|t: int| 0 <= t < r.0@.len()
                ==> (#[trigger] r.0@[t])@ == spec_purged_backups(old(self).records@, spec_cutoff(now, days))[t],
    {
        let span = (days as u64) * 86400;
        let cutoff = if now >= span {
            now - span
        } else {
            0
        };
        let ghost old_records = self.records@;
        let total = self.records.len();
        let mut kept: Vec<UndoRecord> = Vec::new();
        let mut purged_paths: Vec<Vec<u8>> = Vec::new();
        let mut purged_count: u64 = 0;
        let mut k: usize = 0;
        while self.records.len() > 0
            invariant
                old_records.len() == total,
                cutoff == spec_cutoff(now, days),
                k + self.records@.len() == old_records.len(),
                self.records@ == old_records.skip(k as int),
                kept@ == spec_kept_records(old_records.take(k as int), cutoff),
                purged_count == k - spec_kept_records(old_records.take(k as int), cutoff).len(),
                purged_paths@.len() == spec_purged_backups(old_records.take(k as int), cutoff).len(),
                forall|t: int| 0 <= t < purged_paths@.len()
                    ==> (#[trigger] purged_paths@[t])@ == spec_purged_backups(old_records.take(k as int), cutoff)[t],
                self.pending == old(self).pending,
            decreases self.records@.len(),
        {
            proof {
                lemma_kept_bounds(old_records.take(k as int), cutoff);
                assert(old_records.skip(k as int)[0] == old_records[k as int]);
                assert(old_records.take(k + 1).drop_last() =~= old_records.take(k as int));
                assert(old_records.take(k + 1).last() == old_records[k as int]);
            }
            let rec = self.records.remove(0);
            proof {
                assert(self.records@ =~= old_records.skip(k + 1));
            }
            if rec.created_at >= cutoff {
                kept.push(rec);
            } else {
                purged_count = purged_count + 1;
                let ghost base = spec_purged_backups(old_records.take(k as int), cutoff);
                let ghost added = rec.files@.map_values(|rp: RestorePoint| rp.backup_path@);
                let mut j: usize = 0;
                while j < rec.files.len()
                    invariant
                        j <= rec.files@.len(),
                        added == rec.files@.map_values(|rp: RestorePoint| rp.backup_path@),
                        purged_paths@.len() == base.len() + j,
                        forall|t: int| 0 <= t < base.len()
                            ==> (#[trigger] purged_paths@[t])@ == base[t],
                        forall|u: int| 0 <= u < j
                            ==> (#[trigger] purged_paths@[base.len() + u])@ == added[u],
                    decreases rec.files@.len() - j,
                {
                    purged_paths.push(copy_bytes(&rec.files[j].backup_path));
                    j = j + 1;
                }
                proof {
                    let target = spec_purged_backups(old_records.take(k + 1), cutoff);
                    assert(target == base + added);
                    assert forall|t: int| 0 <= t < purged_paths@.len() implies (#[trigger] purged_paths@[t])@
                        == target[t] by {
                        if t < base.len() {
                            assert((base + added)[t] == base[t]);
                        } else {
                            let u = t - base.len();
                            assert(purged_paths@[base.len() + u]@ == added[u]);
                            assert((base + added)[t] == added[u]);
                        }
                    }
                }
            }
            k = k + 1;
        }
        proof {
            assert(old_records.take(total as int) =~= old_records);
        }
        self.records = kept;
        (purged_paths, purged_count)
    }
}

proof fn lemma_count_ok_bounds(outcomes: Seq<RestoreOutcome>, n: int)
    requires
        0 <= n <= outcomes.len(),
    ensures
        0 <= spec_count_ok(outcomes, n) <= n,
    decreases n,
{
    if n > 0 {
        lemma_count_ok_bounds(outcomes, n - 1);
    }
}

/// A freshly finalized operation plans a restore of every file it backed
/// up: nothing is restored yet, so the plan covers the whole record — the
/// round trip of delete-then-undo addresses every backed-up file.
pub proof fn lemma_fresh_operation_restores_all(files: Seq<RestorePoint>)
    requires
        forall|k: int| 0 <= k < files.len() ==> !(#[trigger] files[k]).restored,
    ensures
        spec_unrestored(files) == files,
    decreases files.len(),
{
    if files.len() > 0 {
        assert forall|k: int| 0 <= k < files.drop_last().len() implies !(#[trigger] files.drop_last()[k]).restored by {
            assert(files.drop_last()[k] == files[k]);
        }
        lemma_fresh_operation_restores_all(files.drop_last());
        assert(spec_unrestored(files) =~= files);
    }
}

} // verus!
