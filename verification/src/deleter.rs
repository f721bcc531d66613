//! The safe deleter: decide, per file, whether it may be touched at all
//! (the protected-path guard), what would be freed in a dry run, and how a
//! real removal proceeds (trash, secure overwrite, or plain unlink, with an
//! optional restore point first). The surrounding binary performs the I/O
//! the plan calls for and reports one outcome per file; the aggregation of
//! outcomes into a result and an undo-finalization request is verified
//! here. One file's failure never aborts the batch.

use vstd::prelude::*;
use vstd::string::{StrSliceExecFns, StringSliceAdditionalSpecFns};

use crate::bytes::{contains_bytes, copy_bytes, has_prefix, lower_bytes, lower_seq, seq_contains,
    seq_starts_with, subvec};
use crate::paths::is_sep;

verus! {

/// How a file is removed.
#[derive(Clone, Copy, Debug, PartialEq, Eq, Structural)]
pub enum DeleteMethod {
    Trash,
    Secure,
    Plain,
}

/// What the deleter decided for one file.
#[derive(Clone, Copy, Debug, PartialEq, Eq, Structural)]
pub enum DeleteDecision {
    SkipProtected,
    SkipNotFound,
    SkipInUse,
    DryRunFree,
    Remove(bool, DeleteMethod),
}

/// How a deletion batch should behave.
#[derive(Clone, Copy, Debug, PartialEq, Eq, Structural)]
pub struct DeleteOptions {
    pub dry_run: bool,
    pub use_trash: bool,
    pub secure_delete: bool,
    pub create_restore_point: bool,
    pub skip_in_use: bool,
}

impl Default for DeleteOptions {
    /// Real deletions go to the trash with a restore point; files in use
    /// are skipped.
    fn default() -> (r: Self)
        ensures
            r.dry_run == false,
            r.use_trash == true,
            r.secure_delete == false,
            r.create_restore_point == true,
            r.skip_in_use == true,
    {
        DeleteOptions {
            dry_run: false,
            use_trash: true,
            secure_delete: false,
            create_restore_point: true,
            skip_in_use: true,
        }
    }
}

/// One deletion target as the caller sees it on disk.
#[derive(Debug)]
pub struct FileSpec {
    pub path: Vec<u8>,
    pub size: u64,
    pub exists: bool,
    pub in_use: bool,
}

/// One planned file: its path and size, and the decision taken.
#[derive(Debug)]
pub struct PlannedDelete {
    pub path: Vec<u8>,
    pub size: u64,
    pub decision: DeleteDecision,
}

/// A whole planned batch under one fresh operation id.
#[derive(Debug)]
pub struct DeletePlan {
    pub operation_id: Vec<u8>,
    pub items: Vec<PlannedDelete>,
}

/// What the binary reports back for one planned file after performing the
/// I/O: whether a backup copy was made, whether the removal succeeded, and
/// the error text when it did not.
#[derive(Debug)]
pub struct FileOutcome {
    pub backed_up: bool,
    pub removed: bool,
    pub error: Vec<u8>,
}

/// A per-file failure in a cleanup result.
#[derive(Debug)]
pub struct CleanupError {
    pub path: Vec<u8>,
    pub error: Vec<u8>,
}

/// What one deletion batch did.
#[derive(Debug)]
pub struct CleanupResult {
    pub operation_id: Vec<u8>,
    pub files_processed: u64,
    pub bytes_freed: u64,
    pub files_failed: u64,
    pub deleted_files: Vec<Vec<u8>>,
    pub errors: Vec<CleanupError>,
    pub dry_run: bool,
}

/// What the undo manager is told at batch end, if any backups were made.
#[derive(Debug)]
pub struct FinalizeRequest {
    pub operation_id: Vec<u8>,
    pub files_count: u64,
    pub bytes_freed: u64,
}

/// Relies on uuid::Uuid::new_v4 and its hyphenated text form: a fresh
/// random identifier of 36 ASCII bytes. The value is random, so nothing
/// more is promised of it.
#[verifier::external_body]
fn fresh_operation_id() -> (r: Vec<u8>)
    ensures
        r@.len() == 36,
{
    uuid::Uuid::new_v4().hyphenated().to_string().into_bytes()
}

/// `root` is a path-component prefix of `path`: the bytes match and the
/// match ends at a component boundary.
pub open spec fn spec_path_under(path: Seq<u8>, root: Seq<u8>) -> bool {
    &&& root.len() > 0
    &&& seq_starts_with(path, root)
    &&& (path.len() == root.len() || is_sep(path[root.len() as int]) || is_sep(root[root.len() - 1]))
}

/// The remainder of `path` under `root` carries a cache or temp marker:
/// lowercased, it contains `temp`, `cache` or `tmp`.
pub open spec fn spec_rel_has_marker(path: Seq<u8>, root: Seq<u8>) -> bool {
    let rel = lower_seq(path.subrange(root.len() as int, path.len() as int));
    ||| seq_contains(rel, "temp".spec_bytes())
    ||| seq_contains(rel, "cache".spec_bytes())
    ||| seq_contains(rel, "tmp".spec_bytes())
}

/// `root` protects `path`: the path lies under the root and its remainder
/// carries no cache or temp marker.
pub open spec fn spec_protected_by(path: Seq<u8>, root: Seq<u8>) -> bool {
    spec_path_under(path, root) && !spec_rel_has_marker(path, root)
}

/// Some protected root protects the path.
pub open spec fn spec_is_protected(path: Seq<u8>, protected: Seq<Vec<u8>>) -> bool {
    exists|i: int| 0 <= i < protected.len() && spec_protected_by(path, (#[trigger] protected[i])@)
}

/// The decision for one file: the protected-path guard first, then the
/// existence check, then dry run, then the in-use skip; what remains is
/// removed by trash, secure overwrite or plain unlink, with a restore
/// point first when asked for.
pub open spec fn spec_decision(f: FileSpec, opts: DeleteOptions, protected: Seq<Vec<u8>>) -> DeleteDecision {
    if spec_is_protected(f.path@, protected) {
        DeleteDecision::SkipProtected
    } else if !f.exists {
        DeleteDecision::SkipNotFound
    } else if opts.dry_run {
        DeleteDecision::DryRunFree
    } else if opts.skip_in_use && f.in_use {
        DeleteDecision::SkipInUse
    } else {
        DeleteDecision::Remove(
            opts.create_restore_point,
            if opts.use_trash {
                DeleteMethod::Trash
            } else if opts.secure_delete {
                DeleteMethod::Secure
            } else {
                DeleteMethod::Plain
            },
        )
    }
}

/// `root` protects `path`.
fn protected_by(path: &Vec<u8>, root: &Vec<u8>) -> (r: bool)
    ensures
        r == spec_protected_by(path@, root@),
{
    if root.len() == 0 {
        return false;
    }
    if !has_prefix(path, root) {
        return false;
    }
    let boundary = path.len() == root.len() || {
        let b = path[root.len()];
        b == 47u8 || b == 92u8
    } || {
        let b = root[root.len() - 1];
        b == 47u8 || b == 92u8
    };
    if !boundary {
        return false;
    }
    let rel = subvec(path, root.len(), path.len());
    let rel_lower = lower_bytes(&rel);
    let temp_marker = "temp".as_bytes_vec();
    let cache_marker = "cache".as_bytes_vec();
    let tmp_marker = "tmp".as_bytes_vec();
    let has_marker = contains_bytes(&rel_lower, &temp_marker)
        || contains_bytes(&rel_lower, &cache_marker) || contains_bytes(&rel_lower, &tmp_marker);
    !has_marker
}

/// The safe deleter: its options, the protected roots, and how many random
/// passes a secure overwrite writes before the final zero pass.
pub struct SafeDeleter {
    pub options: DeleteOptions,
    pub protected_paths: Vec<Vec<u8>>,
    pub secure_passes: u32,
}

impl SafeDeleter {
    /// A deleter over the given options and protected roots, writing three
    /// random passes on secure overwrites.
    pub fn new(options: DeleteOptions, protected_paths: Vec<Vec<u8>>) -> (r: Self)
        ensures
            r.options == options,
            r.protected_paths == protected_paths,
            r.secure_passes == 3u32,
    {
        SafeDeleter { options, protected_paths, secure_passes: 3 }
    }

    /// Some protected root protects the path, with no cache or temp marker
    /// in the remainder.
    pub fn is_protected(&self, path: &Vec<u8>) -> (r: bool)
        ensures
            r == spec_is_protected(path@, self.protected_paths@),
    {
        let mut i: usize = 0;
        while i < self.protected_paths.len()
            invariant
                i <= self.protected_paths@.len(),
                forall|j: int| 0 <= j < i ==> !spec_protected_by(path@, (#[trigger] self.protected_paths@[j])@),
            decreases self.protected_paths@.len() - i,
        {
            if protected_by(path, &self.protected_paths[i]) {
                return true;
            }
            i = i + 1;
        }
        false
    }

    /// Plan a batch: a fresh operation id and one decision per file.
    pub fn plan(&self, files: &Vec<FileSpec>) -> (r: DeletePlan)
        ensures
            r.operation_id@.len() == 36,
            r.items@.len() == files@.len(),
            forall|k: int| 0 <= k < files@.len() ==> {
                let it = #[trigger] r.items@[k];
                &&& it.path@ == files@[k].path@
                &&& it.size == files@[k].size
                &&& it.decision == spec_decision(files@[k], self.options, self.protected_paths@)
            },
    {
        let operation_id = fresh_operation_id();
        let mut items: Vec<PlannedDelete> = Vec::new();
        let mut k: usize = 0;
        while k < files.len()
            invariant
                k <= files@.len(),
                items@.len() == k,
                forall|t: int| 0 <= t < k ==> {
                    let it = #[trigger] items@[t];
                    &&& it.path@ == files@[t].path@
                    &&& it.size == files@[t].size
                    &&& it.decision == spec_decision(files@[t], self.options, self.protected_paths@)
                },
            decreases files@.len() - k,
        {
            let f = &files[k];
            let decision = if self.is_protected(&f.path) {
                DeleteDecision::SkipProtected
            } else if !f.exists {
                DeleteDecision::SkipNotFound
            } else if self.options.dry_run {
                DeleteDecision::DryRunFree
            } else if self.options.skip_in_use && f.in_use {
                DeleteDecision::SkipInUse
            } else {
                DeleteDecision::Remove(
                    self.options.create_restore_point,
                    if self.options.use_trash {
                        DeleteMethod::Trash
                    } else if self.options.secure_delete {
                        DeleteMethod::Secure
                    } else {
                        DeleteMethod::Plain
                    },
                )
            };
            items.push(PlannedDelete { path: copy_bytes(&f.path), size: f.size, decision });
            k = k + 1;
        }
        DeletePlan { operation_id, items }
    }
}

/// Bytes one planned file frees under its outcome: its size in a dry run
/// or after a successful removal, nothing otherwise.
pub open spec fn spec_item_freed(it: PlannedDelete, oc: FileOutcome) -> int {
    match it.decision {
        DeleteDecision::DryRunFree => it.size as int,
        DeleteDecision::Remove(_, _) => if oc.removed {
            it.size as int
        } else {
            0
        },
        _ => 0,
    }
}

/// Whether one planned file counts as processed: a dry-run target, or a
/// successful removal.
pub open spec fn spec_item_processed(it: PlannedDelete, oc: FileOutcome) -> int {
    match it.decision {
        DeleteDecision::DryRunFree => 1,
        DeleteDecision::Remove(_, _) => if oc.removed {
            1int
        } else {
            0int
        },
        _ => 0,
    }
}

/// Whether one planned file counts as failed: any skip, or a removal that
/// did not succeed.
pub open spec fn spec_item_failed(it: PlannedDelete, oc: FileOutcome) -> int {
    match it.decision {
        DeleteDecision::SkipProtected => 1,
        DeleteDecision::SkipNotFound => 1,
        DeleteDecision::SkipInUse => 1,
        DeleteDecision::DryRunFree => 0,
        DeleteDecision::Remove(_, _) => if oc.removed {
            0int
        } else {
            1int
        },
    }
}

/// Whether one planned file was backed up: only a removal planned with a
/// restore point, whose backup copy succeeded.
pub open spec fn spec_item_backed(it: PlannedDelete, oc: FileOutcome) -> int {
    match it.decision {
        DeleteDecision::Remove(backup, _) => if backup && oc.backed_up {
            1int
        } else {
            0int
        },
        _ => 0,
    }
}

/// The error text a failed item reports.
pub open spec fn spec_item_error(it: PlannedDelete, oc: FileOutcome) -> Seq<u8> {
    match it.decision {
        DeleteDecision::SkipProtected => "protected path".spec_bytes(),
        DeleteDecision::SkipNotFound => "file not found".spec_bytes(),
        DeleteDecision::SkipInUse => "file in use".spec_bytes(),
        _ => oc.error@,
    }
}

/// Sum of the freed bytes over the first `n` items.
pub open spec fn spec_sum_freed(items: Seq<PlannedDelete>, outcomes: Seq<FileOutcome>, n: int) -> int
    decreases n,
{
    if n <= 0 {
        0
    } else {
        spec_sum_freed(items, outcomes, n - 1) + spec_item_freed(items[n - 1], outcomes[n - 1])
    }
}

/// Count of processed files over the first `n` items.
pub open spec fn spec_sum_processed(items: Seq<PlannedDelete>, outcomes: Seq<FileOutcome>, n: int) -> int
    decreases n,
{
    if n <= 0 {
        0
    } else {
        spec_sum_processed(items, outcomes, n - 1) + spec_item_processed(items[n - 1], outcomes[n - 1])
    }
}

/// Count of failed files over the first `n` items.
pub open spec fn spec_sum_failed(items: Seq<PlannedDelete>, outcomes: Seq<FileOutcome>, n: int) -> int
    decreases n,
{
    if n <= 0 {
        0
    } else {
        spec_sum_failed(items, outcomes, n - 1) + spec_item_failed(items[n - 1], outcomes[n - 1])
    }
}

/// Count of backed-up files over the first `n` items.
pub open spec fn spec_sum_backed(items: Seq<PlannedDelete>, outcomes: Seq<FileOutcome>, n: int) -> int
    decreases n,
{
    if n <= 0 {
        0
    } else {
        spec_sum_backed(items, outcomes, n - 1) + spec_item_backed(items[n - 1], outcomes[n - 1])
    }
}

/// Sum of all planned sizes over the first `n` items.
pub open spec fn spec_sum_sizes(items: Seq<PlannedDelete>, n: int) -> int
    decreases n,
{
    if n <= 0 {
        0
    } else {
        spec_sum_sizes(items, n - 1) + items[n - 1].size as int
    }
}

proof fn lemma_sums_bounded(items: Seq<PlannedDelete>, outcomes: Seq<FileOutcome>, n: int)
    requires
        0 <= n <= items.len(),
    ensures
        0 <= spec_sum_freed(items, outcomes, n) <= spec_sum_sizes(items, n),
        0 <= spec_sum_processed(items, outcomes, n) <= n,
        0 <= spec_sum_failed(items, outcomes, n) <= n,
        0 <= spec_sum_backed(items, outcomes, n) <= n,
        0 <= spec_sum_sizes(items, n),
    decreases n,
{
    if n > 0 {
        lemma_sums_bounded(items, outcomes, n - 1);
    }
}

proof fn lemma_sum_sizes_mono(items: Seq<PlannedDelete>, n: int, m: int)
    requires
        0 <= n <= m <= items.len(),
    ensures
        spec_sum_sizes(items, n) <= spec_sum_sizes(items, m),
    decreases m,
{
    if n < m {
        lemma_sum_sizes_mono(items, n, m - 1);
    }
}

/// The indices of the failed items, in order.
pub open spec fn spec_failed_indices(items: Seq<PlannedDelete>, outcomes: Seq<FileOutcome>, n: int) -> Seq<int>
    decreases n,
{
    if n <= 0 {
        Seq::<int>::empty()
    } else {
        let prefix = spec_failed_indices(items, outcomes, n - 1);
        if spec_item_failed(items[n - 1], outcomes[n - 1]) == 1 {
            prefix.push(n - 1)
        } else {
            prefix
        }
    }
}

/// The indices of the processed items (dry-run or removed), in order.
pub open spec fn spec_deleted_indices(items: Seq<PlannedDelete>, outcomes: Seq<FileOutcome>, n: int) -> Seq<int>
    decreases n,
{
    if n <= 0 {
        Seq::<int>::empty()
    } else {
        let prefix = spec_deleted_indices(items, outcomes, n - 1);
        if spec_item_processed(items[n - 1], outcomes[n - 1]) == 1 {
            prefix.push(n - 1)
        } else {
            prefix
        }
    }
}

impl SafeDeleter {
    /// Fold the per-file outcomes of a planned batch into its result, and
    /// the finalization request for the undo manager: present exactly when
    /// restore points were asked for, this was no dry run, and at least
    /// one backup succeeded.
    pub fn summarize(&self, plan: &DeletePlan, outcomes: &Vec<FileOutcome>) -> (r: (CleanupResult, Option<FinalizeRequest>))
        requires
            outcomes@.len() == plan.items@.len(),
            spec_sum_sizes(plan.items@, plan.items@.len() as int) <= u64::MAX,
        ensures
            ({
                let items = plan.items@;
                let ocs = outcomes@;
                let n = items.len() as int;
                let res = r.0;
                &&& res.operation_id@ == plan.operation_id@
                &&& res.dry_run == self.options.dry_run
                &&& res.files_processed == spec_sum_processed(items, ocs, n)
                &&& res.bytes_freed == spec_sum_freed(items, ocs, n)
                &&& res.files_failed == spec_sum_failed(items, ocs, n)
                &&& res.deleted_files@.len() == spec_deleted_indices(items, ocs, n).len()
                &&& forall|t: int| 0 <= t < res.deleted_files@.len()
                    ==> (#[trigger] res.deleted_files@[t])@ == items[spec_deleted_indices(items, ocs, n)[t]].path@
                &&& res.errors@.len() == spec_failed_indices(items, ocs, n).len()
                &&& forall|t: int| 0 <= t < res.errors@.len()
                    ==> (#[trigger] res.errors@[t]).path@ == items[spec_failed_indices(items, ocs, n)[t]].path@
                        && res.errors@[t].error@ == spec_item_error(
                        items[spec_failed_indices(items, ocs, n)[t]],
                        ocs[spec_failed_indices(items, ocs, n)[t]],
                    )
                &&& match r.1 {
                    Some(fin) => {
                        &&& self.options.create_restore_point
                        &&& !self.options.dry_run
                        &&& spec_sum_backed(items, ocs, n) > 0
                        &&& fin.operation_id@ == plan.operation_id@
                        &&& fin.files_count == spec_sum_processed(items, ocs, n)
                        &&& fin.bytes_freed == spec_sum_freed(items, ocs, n)
                    },
                    None => !(self.options.create_restore_point && !self.options.dry_run
                        && spec_sum_backed(items, ocs, n) > 0),
                }
            }),
    {
        let ghost items = plan.items@;
        let ghost ocs = outcomes@;
        let mut files_processed: u64 = 0;
        let mut bytes_freed: u64 = 0;
        let mut files_failed: u64 = 0;
        let mut backed_up: u64 = 0;
        let mut deleted_files: Vec<Vec<u8>> = Vec::new();
        let mut errors: Vec<CleanupError> = Vec::new();
        let mut k: usize = 0;
        while k < plan.items.len()
            invariant
                k <= items.len(),
                items == plan.items@,
                ocs == outcomes@,
                outcomes@.len() == plan.items@.len(),
                spec_sum_sizes(items, items.len() as int) <= u64::MAX,
                files_processed == spec_sum_processed(items, ocs, k as int),
                bytes_freed == spec_sum_freed(items, ocs, k as int),
                files_failed == spec_sum_failed(items, ocs, k as int),
                backed_up == spec_sum_backed(items, ocs, k as int),
                deleted_files@.len() == spec_deleted_indices(items, ocs, k as int).len(),
                forall|t: int| 0 <= t < deleted_files@.len()
                    ==> (#[trigger] deleted_files@[t])@ == items[spec_deleted_indices(items, ocs, k as int)[t]].path@,
                errors@.len() == spec_failed_indices(items, ocs, k as int).len(),
                forall|t: int| 0 <= t < errors@.len()
                    ==> (#[trigger] errors@[t]).path@ == items[spec_failed_indices(items, ocs, k as int)[t]].path@
                        && errors@[t].error@ == spec_item_error(
                        items[spec_failed_indices(items, ocs, k as int)[t]],
                        ocs[spec_failed_indices(items, ocs, k as int)[t]],
                    ),
            decreases items.len() - k,
        {
            proof {
                lemma_sums_bounded(items, ocs, k as int);
                lemma_sums_bounded(items, ocs, k + 1);
                lemma_sum_sizes_mono(items, k + 1, items.len() as int);
            }
            let it = &plan.items[k];
            let oc = &outcomes[k];
            match it.decision {
                DeleteDecision::SkipProtected => {
                    files_failed = files_failed + 1;
                    errors.push(CleanupError {
                        path: copy_bytes(&it.path),
                        error: "protected path".as_bytes_vec(),
                    });
                },
                DeleteDecision::SkipNotFound => {
                    files_failed = files_failed + 1;
                    errors.push(CleanupError {
                        path: copy_bytes(&it.path),
                        error: "file not found".as_bytes_vec(),
                    });
                },
                DeleteDecision::SkipInUse => {
                    files_failed = files_failed + 1;
                    errors.push(CleanupError {
                        path: copy_bytes(&it.path),
                        error: "file in use".as_bytes_vec(),
                    });
                },
                DeleteDecision::DryRunFree => {
                    files_processed = files_processed + 1;
                    bytes_freed = bytes_freed + it.size;
                    deleted_files.push(copy_bytes(&it.path));
                },
                DeleteDecision::Remove(backup, _) => {
                    if backup && oc.backed_up {
                        backed_up = backed_up + 1;
                    }
                    if oc.removed {
                        files_processed = files_processed + 1;
                        bytes_freed = bytes_freed + it.size;
                        deleted_files.push(copy_bytes(&it.path));
                    } else {
                        files_failed = files_failed + 1;
                        errors.push(CleanupError {
                            path: copy_bytes(&it.path),
                            error: copy_bytes(&oc.error),
                        });
                    }
                },
            }
            k = k + 1;
        }
        let fin = if self.options.create_restore_point && !self.options.dry_run && backed_up > 0 {
            Some(FinalizeRequest {
                operation_id: copy_bytes(&plan.operation_id),
                files_count: files_processed,
                bytes_freed,
            })
        } else {
            None
        };
        let res = CleanupResult {
            operation_id: copy_bytes(&plan.operation_id),
            files_processed,
            bytes_freed,
            files_failed,
            deleted_files,
            errors,
            dry_run: self.options.dry_run,
        };
        (res, fin)
    }
}

/// One category's share of a cleanup preview.
#[derive(Debug)]
pub struct CategoryPreview {
    pub category: crate::rules::FileCategory,
    pub count: u64,
    pub size: u64,
    pub files: Vec<Vec<u8>>,
}

/// What a cleanup of the deletable files would touch, broken down by
/// category.
#[derive(Debug)]
pub struct CleanupPreview {
    pub total_count: u64,
    pub total_size: u64,
    pub by_category: Vec<CategoryPreview>,
}

/// How many deletable files of this category the first `n` hold.
pub open spec fn spec_prev_count(files: Seq<crate::scanner::ScannedFile>, cat: crate::rules::FileCategory, n: int) -> int
    decreases n,
{
    if n <= 0 {
        0
    } else {
        spec_prev_count(files, cat, n - 1) + if files[n - 1].can_delete && files[n - 1].category == cat {
            1int
        } else {
            0int
        }
    }
}

/// How many bytes of deletable files of this category the first `n` hold.
pub open spec fn spec_prev_size(files: Seq<crate::scanner::ScannedFile>, cat: crate::rules::FileCategory, n: int) -> int
    decreases n,
{
    if n <= 0 {
        0
    } else {
        spec_prev_size(files, cat, n - 1) + if files[n - 1].can_delete && files[n - 1].category == cat {
            files[n - 1].size as int
        } else {
            0int
        }
    }
}

/// The paths of the deletable files of this category among the first `n`,
/// in order.
pub open spec fn spec_prev_paths(files: Seq<crate::scanner::ScannedFile>, cat: crate::rules::FileCategory, n: int) -> Seq<Seq<u8>>
    decreases n,
{
    if n <= 0 {
        Seq::<Seq<u8>>::empty()
    } else {
        let prefix = spec_prev_paths(files, cat, n - 1);
        if files[n - 1].can_delete && files[n - 1].category == cat {
            prefix.push(files[n - 1].path@)
        } else {
            prefix
        }
    }
}

/// How many of the first `n` files are deletable, and their byte total.
pub open spec fn spec_del_count(files: Seq<crate::scanner::ScannedFile>, n: int) -> int
    decreases n,
{
    if n <= 0 {
        0
    } else {
        spec_del_count(files, n - 1) + if files[n - 1].can_delete {
            1int
        } else {
            0int
        }
    }
}

/// Byte total of the deletable files among the first `n`.
pub open spec fn spec_del_size(files: Seq<crate::scanner::ScannedFile>, n: int) -> int
    decreases n,
{
    if n <= 0 {
        0
    } else {
        spec_del_size(files, n - 1) + if files[n - 1].can_delete {
            files[n - 1].size as int
        } else {
            0int
        }
    }
}

/// Row `k` of a preview carries the exact count, byte total and path list
/// of its category over the first `n` files.
pub open spec fn spec_prev_row_exact(files: Seq<crate::scanner::ScannedFile>, rows: Seq<CategoryPreview>, n: int, k: int) -> bool {
    &&& rows[k].count == spec_prev_count(files, rows[k].category, n)
    &&& rows[k].size == spec_prev_size(files, rows[k].category, n)
    &&& rows[k].files@.len() == spec_prev_paths(files, rows[k].category, n).len()
    &&& forall|t: int| 0 <= t < rows[k].files@.len()
        ==> (#[trigger] rows[k].files@[t])@ == spec_prev_paths(files, rows[k].category, n)[t]
}

/// A preview is exact: one row per category that occurs among the
/// deletable files, each with its exact count, byte total and paths.
pub open spec fn spec_preview_ok(files: Seq<crate::scanner::ScannedFile>, p: CleanupPreview) -> bool {
    &&& p.total_count == spec_del_count(files, files.len() as int)
    &&& p.total_size == spec_del_size(files, files.len() as int)
    &&& forall|k: int| 0 <= k < p.by_category@.len()
        ==> #[trigger] spec_prev_row_exact(files, p.by_category@, files.len() as int, k)
    &&& forall|k1: int, k2: int| 0 <= k1 < k2 < p.by_category@.len()
        ==> (#[trigger] p.by_category@[k1].category) != (#[trigger] p.by_category@[k2].category)
    &&& forall|i: int| 0 <= i < files.len() && (#[trigger] files[i]).can_delete
        ==> exists|k: int| 0 <= k < p.by_category@.len()
            && (#[trigger] p.by_category@[k].category) == files[i].category
}

proof fn lemma_prev_bounds(files: Seq<crate::scanner::ScannedFile>, cat: crate::rules::FileCategory, n: int)
    requires
        0 <= n <= files.len(),
    ensures
        0 <= spec_prev_count(files, cat, n) <= n,
        0 <= spec_prev_size(files, cat, n) <= crate::scanner::spec_total_file_size(files.take(n)),
        0 <= spec_del_count(files, n) <= n,
        0 <= spec_del_size(files, n) <= crate::scanner::spec_total_file_size(files.take(n)),
    decreases n,
{
    if n > 0 {
        lemma_prev_bounds(files, cat, n - 1);
        assert(files.take(n).drop_last() =~= files.take(n - 1));
        assert(files.take(n).last() == files[n - 1]);
    }
}

proof fn lemma_prev_count_zero(files: Seq<crate::scanner::ScannedFile>, cat: crate::rules::FileCategory, n: int)
    requires
        0 <= n <= files.len(),
        forall|j: int| 0 <= j < n ==> !((#[trigger] files[j]).can_delete && files[j].category == cat),
    ensures
        spec_prev_count(files, cat, n) == 0,
        spec_prev_size(files, cat, n) == 0,
        spec_prev_paths(files, cat, n).len() == 0,
    decreases n,
{
    if n > 0 {
        lemma_prev_count_zero(files, cat, n - 1);
    }
}

/// Find the row of a category in a preview.
fn find_preview_row(rows: &Vec<CategoryPreview>, cat: crate::rules::FileCategory) -> (r: Option<usize>)
    ensures
        match r {
            Some(k) => k < rows@.len() && rows@[k as int].category == cat,
            None => forall|k: int| 0 <= k < rows@.len() ==> (#[trigger] rows@[k]).category != cat,
        },
{
    let mut k: usize = 0;
    while k < rows.len()
        invariant
            k <= rows@.len(),
            forall|j: int| 0 <= j < k ==> (#[trigger] rows@[j]).category != cat,
        decreases rows@.len() - k,
    {
        if rows[k].category == cat {
            return Some(k);
        }
        k = k + 1;
    }
    None
}

/// What a cleanup of the deletable files would touch, per category: one
/// row per occurring category with its exact file count, byte total and
/// path list, plus overall totals. Files the scanner marked undeletable do
/// not count.
pub fn preview(files: &Vec<crate::scanner::ScannedFile>) -> (r: CleanupPreview)
    requires
        crate::scanner::spec_total_file_size(files@) <= u64::MAX,
    ensures
        spec_preview_ok(files@, r),
{
    let mut rows: Vec<CategoryPreview> = Vec::new();
    let mut total_count: u64 = 0;
    let mut total_size: u64 = 0;
    let mut i: usize = 0;
    while i < files.len()
        invariant
            i <= files@.len(),
            crate::scanner::spec_total_file_size(files@) <= u64::MAX,
            total_count == spec_del_count(files@, i as int),
            total_size == spec_del_size(files@, i as int),
            forall|k: int| 0 <= k < rows@.len()
                ==> #[trigger] spec_prev_row_exact(files@, rows@, i as int, k),
            forall|k1: int, k2: int| 0 <= k1 < k2 < rows@.len()
                ==> (#[trigger] rows@[k1].category) != (#[trigger] rows@[k2].category),
            forall|j: int| 0 <= j < i && (#[trigger] files@[j]).can_delete
                ==> exists|k: int| 0 <= k < rows@.len()
                    && (#[trigger] rows@[k].category) == files@[j].category,
        decreases files@.len() - i,
    {
        proof {
            lemma_prev_bounds(files@, files@[i as int].category, i + 1);
            crate::scanner::lemma_total_file_size_prefix(files@, i + 1);
        }
        if files[i].can_delete {
            let cat = files[i].category;
            let fsize = files[i].size;
            total_count = total_count + 1;
            total_size = total_size + fsize;
            let ghost old_rows = rows@;
            match find_preview_row(&rows, cat) {
                Some(k) => {
                    proof {
                        assert(spec_prev_row_exact(files@, rows@, i as int, k as int));
                    }
                    let mut row = rows.remove(k);
                    row.count = row.count + 1;
                    row.size = row.size + fsize;
                    row.files.push(crate::bytes::copy_bytes(&files[i].path));
                    rows.insert(k, row);
                    proof {
                        assert(rows@ =~= old_rows.update(k as int, rows@[k as int]));
                        assert forall|kk: int| 0 <= kk < rows@.len() implies
                            #[trigger] spec_prev_row_exact(files@, rows@, i + 1, kk) by {
                            if kk == k {
                                assert(rows@[kk].category == cat);
                            } else {
                                assert(rows@[kk] == old_rows[kk]);
                                assert(spec_prev_row_exact(files@, old_rows, i as int, kk));
                                if kk < k {
                                    assert(old_rows[kk].category != old_rows[k as int].category);
                                } else {
                                    assert(old_rows[k as int].category != old_rows[kk].category);
                                }
                                assert(rows@[kk].category != cat);
                            }
                        }
                        assert forall|j: int| 0 <= j < i + 1 && (#[trigger] files@[j]).can_delete
                            implies exists|kk: int| 0 <= kk < rows@.len()
                                && (#[trigger] rows@[kk].category) == files@[j].category by {
                            if j == i {
                                assert(rows@[k as int].category == files@[j].category);
                            } else {
                                let kk = choose|kk: int|
                                    0 <= kk < old_rows.len() && (#[trigger] old_rows[kk].category) == files@[j].category;
                                assert(rows@[kk].category == old_rows[kk].category);
                            }
                        }
                    }
                },
                None => {
                    proof {
                        lemma_prev_count_zero(files@, cat, i as int);
                    }
                    let mut row_files: Vec<Vec<u8>> = Vec::new();
                    row_files.push(crate::bytes::copy_bytes(&files[i].path));
                    rows.push(CategoryPreview { category: cat, count: 1, size: fsize, files: row_files });
                    proof {
                        assert forall|kk: int| 0 <= kk < rows@.len() implies
                            #[trigger] spec_prev_row_exact(files@, rows@, i + 1, kk) by {
                            if kk == rows@.len() - 1 {
                                assert(rows@[kk].category == cat);
                            } else {
                                assert(rows@[kk] == old_rows[kk]);
                                assert(spec_prev_row_exact(files@, old_rows, i as int, kk));
                                assert(rows@[kk].category != cat);
                            }
                        }
                        assert forall|j: int| 0 <= j < i + 1 && (#[trigger] files@[j]).can_delete
                            implies exists|kk: int| 0 <= kk < rows@.len()
                                && (#[trigger] rows@[kk].category) == files@[j].category by {
                            if j == i {
                                assert(rows@[rows@.len() - 1].category == files@[j].category);
                            } else {
                                let kk = choose|kk: int|
                                    0 <= kk < old_rows.len() && (#[trigger] old_rows[kk].category) == files@[j].category;
                                assert(rows@[kk].category == old_rows[kk].category);
                            }
                        }
                    }
                },
            }
        } else {
            proof {
                assert forall|kk: int| 0 <= kk < rows@.len() implies
                    #[trigger] spec_prev_row_exact(files@, rows@, i + 1, kk) by {
                    assert(spec_prev_row_exact(files@, rows@, i as int, kk));
                }
            }
        }
        i = i + 1;
    }
    CleanupPreview { total_count, total_size, by_category: rows }
}

/// One pass of a secure overwrite.
#[derive(Clone, Copy, Debug, PartialEq, Eq, Structural)]
pub enum OverwritePass {
    Random,
    Zeros,
}

/// Sum of a list of chunk lengths.
pub open spec fn spec_sum_chunks(chunks: Seq<u64>) -> int
    decreases chunks.len(),
{
    if chunks.len() == 0 {
        0
    } else {
        spec_sum_chunks(chunks.drop_last()) + chunks.last() as int
    }
}

/// The passes of a secure overwrite: the configured number of random-data
/// passes, then one final all-zeros pass. Each pass must be flushed to
/// storage before the next begins, and the file is unlinked only after the
/// last pass completed.
pub fn secure_pass_sequence(passes: u32) -> (r: Vec<OverwritePass>)
    requires
        passes < u32::MAX,
    ensures
        r@.len() == passes + 1,
        forall|k: int| 0 <= k < passes ==> r@[k] == OverwritePass::Random,
        r@[passes as int] == OverwritePass::Zeros,
{
    let mut r: Vec<OverwritePass> = Vec::new();
    let mut k: u32 = 0;
    while k < passes
        invariant
            k <= passes,
            r@.len() == k,
            forall|t: int| 0 <= t < k ==> r@[t] == OverwritePass::Random,
        decreases passes - k,
    {
        r.push(OverwritePass::Random);
        k = k + 1;
    }
    r.push(OverwritePass::Zeros);
    r
}

/// The write lengths of one overwrite pass over a file of `size` bytes:
/// full chunks of `chunk_size` bytes, with one shorter final write, so
/// that the pass covers the file exactly once whatever its size.
pub fn overwrite_chunks(size: u64, chunk_size: u64) -> (r: Vec<u64>)
    requires
        chunk_size > 0,
    ensures
        spec_sum_chunks(r@) == size,
        forall|k: int| 0 <= k < r@.len() ==> 0 < (#[trigger] r@[k]) <= chunk_size,
        forall|k: int| 0 <= k < r@.len() - 1 ==> (#[trigger] r@[k]) == chunk_size,
{
    let mut r: Vec<u64> = Vec::new();
    let mut remaining: u64 = size;
    while remaining > 0
        invariant
            chunk_size > 0,
            remaining <= size,
            spec_sum_chunks(r@) == size - remaining,
            forall|k: int| 0 <= k < r@.len() ==> 0 < (#[trigger] r@[k]) <= chunk_size,
            forall|k: int| 0 <= k < r@.len() ==> (remaining > 0 ==> (#[trigger] r@[k]) == chunk_size),
            forall|k: int| 0 <= k < r@.len() - 1 ==> (#[trigger] r@[k]) == chunk_size,
        decreases remaining,
    {
        let step = if remaining >= chunk_size {
            chunk_size
        } else {
            remaining
        };
        proof {
            assert(r@.push(step).drop_last() =~= r@);
        }
        r.push(step);
        remaining = remaining - step;
    }
    r
}

/// In a dry run no file is touched: every decision is a skip or a dry-run
/// note, never a removal.
pub proof fn lemma_dry_run_never_removes(f: FileSpec, opts: DeleteOptions, protected: Seq<Vec<u8>>)
    requires
        opts.dry_run,
    ensures
        !(spec_decision(f, opts, protected) matches DeleteDecision::Remove(_, _)),
{
}

/// Sum of the sizes of the existing, unprotected files among the first `n`.
pub open spec fn spec_sum_dry_targets(files: Seq<FileSpec>, opts: DeleteOptions, protected: Seq<Vec<u8>>, n: int) -> int
    decreases n,
{
    if n <= 0 {
        0
    } else {
        spec_sum_dry_targets(files, opts, protected, n - 1) + if files[n - 1].exists
            && !spec_is_protected(files[n - 1].path@, protected) {
            files[n - 1].size as int
        } else {
            0
        }
    }
}

/// A dry run frees, on paper, exactly the sizes of the existing targets
/// that pass the protected-path guard, whatever the outcomes report.
pub proof fn lemma_dry_run_frees_existing_sizes(
    files: Seq<FileSpec>,
    items: Seq<PlannedDelete>,
    outcomes: Seq<FileOutcome>,
    opts: DeleteOptions,
    protected: Seq<Vec<u8>>,
    n: int,
)
    requires
        opts.dry_run,
        0 <= n <= files.len(),
        items.len() == files.len(),
        forall|k: int| 0 <= k < files.len() ==> {
            let it = #[trigger] items[k];
            it.size == files[k].size && it.decision == spec_decision(files[k], opts, protected)
        },
    ensures
        spec_sum_freed(items, outcomes, n) == spec_sum_dry_targets(files, opts, protected, n),
    decreases n,
{
    if n > 0 {
        lemma_dry_run_frees_existing_sizes(files, items, outcomes, opts, protected, n - 1);
    }
}

/// With restore points on, a fully successful batch has exactly one backup
/// per deleted file: every removal that succeeded was backed up first.
pub proof fn lemma_backups_match_deletions(
    items: Seq<PlannedDelete>,
    outcomes: Seq<FileOutcome>,
    n: int,
)
    requires
        0 <= n <= items.len(),
        outcomes.len() == items.len(),
        forall|k: int| 0 <= k < items.len()
            ==> ((#[trigger] items[k]).decision matches DeleteDecision::Remove(b, _)
                ==> b && outcomes[k].backed_up && outcomes[k].removed),
        forall|k: int| 0 <= k < items.len()
            ==> !((#[trigger] items[k]).decision matches DeleteDecision::DryRunFree),
    ensures
        spec_sum_backed(items, outcomes, n) == spec_sum_processed(items, outcomes, n),
    decreases n,
{
    if n > 0 {
        lemma_backups_match_deletions(items, outcomes, n - 1);
    }
}

/// A protected path never reaches a removal: its decision is the protected
/// skip, so it is counted among the failures and never among the deleted
/// files of a result.
pub proof fn lemma_protected_never_deleted(
    f: FileSpec,
    opts: DeleteOptions,
    protected: Seq<Vec<u8>>,
)
    requires
        spec_is_protected(f.path@, protected),
    ensures
        spec_decision(f, opts, protected) == DeleteDecision::SkipProtected,
{
}

/// A processed (deleted or dry-run-counted) item is never a protected skip:
/// what lands in a result's deleted files always passed the guard.
pub proof fn lemma_deleted_items_passed_guard(
    items: Seq<PlannedDelete>,
    outcomes: Seq<FileOutcome>,
    n: int,
    t: int,
)
    requires
        0 <= n <= items.len(),
        0 <= t < spec_deleted_indices(items, outcomes, n).len(),
    ensures
        ({
            let ix = spec_deleted_indices(items, outcomes, n)[t];
            &&& 0 <= ix < n
            &&& items[ix].decision != DeleteDecision::SkipProtected
            &&& (items[ix].decision matches DeleteDecision::DryRunFree
                || items[ix].decision matches DeleteDecision::Remove(_, _))
        }),
    decreases n,
{
    if n > 0 {
        let prefix = spec_deleted_indices(items, outcomes, n - 1);
        if t < prefix.len() {
            lemma_deleted_items_passed_guard(items, outcomes, n - 1, t);
        }
    }
}

} // verus!
