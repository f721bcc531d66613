//! The scanner: takes the events of a directory walk (entries with their
//! metadata, or per-entry failures), filters them against scan options,
//! classifies each entry with the rule engine, and aggregates totals and
//! per-category statistics. Per-entry failures are collected, never fatal;
//! only cancellation aborts a scan.

use core::sync::atomic::AtomicBool;
use core::sync::atomic::Ordering;

use vstd::prelude::*;
use vstd::string::{StrSliceExecFns, StringSliceAdditionalSpecFns};

use crate::bytes::{copy_bytes, lower_bytes, lower_seq};
use crate::paths::{file_name_of, is_dot};
use crate::rules::{CleanupRule, FileCategory, RiskLevel, RuleEngine, glob_match, spec_age_secs,
    spec_glob_match, spec_rule_hits};

verus! {

/// What kind of filesystem object an entry is.
#[derive(Clone, Copy, Debug, PartialEq, Eq, Structural)]
pub enum FileType {
    File,
    Directory,
    Symlink,
}

/// One filesystem entry as the walker saw it: path, size in bytes,
/// timestamps in seconds since the epoch, kind, and the system flag the
/// platform reported.
#[derive(Debug)]
pub struct FsEntry {
    pub path: Vec<u8>,
    pub size: u64,
    pub modified: u64,
    pub created: Option<u64>,
    pub accessed: Option<u64>,
    pub file_type: FileType,
    pub is_system: bool,
}

/// One event of a directory walk: an entry visited, or a failure to read one
/// (its path and the error text).
#[derive(Debug)]
pub enum WalkEvent {
    Entry(FsEntry),
    Failure(Vec<u8>, Vec<u8>),
}

/// A classified entry in a scan result.
#[derive(Debug)]
pub struct ScannedFile {
    pub path: Vec<u8>,
    pub size: u64,
    pub modified: u64,
    pub created: Option<u64>,
    pub accessed: Option<u64>,
    pub file_type: FileType,
    pub category: FileCategory,
    pub risk_level: RiskLevel,
    pub is_hidden: bool,
    pub is_system: bool,
    pub cleanup_reason: Option<Vec<u8>>,
    pub hash: Option<Vec<u8>>,
    pub can_delete: bool,
}

/// What a scan should visit and keep. Unset options impose no constraint.
#[derive(Debug)]
pub struct ScanOptions {
    pub include_hidden: bool,
    pub follow_symlinks: bool,
    pub max_depth: Option<usize>,
    pub min_size: Option<u64>,
    pub max_size: Option<u64>,
    pub min_age_days: Option<u32>,
    pub max_age_days: Option<u32>,
    pub include_patterns: Vec<Vec<u8>>,
    pub exclude_patterns: Vec<Vec<u8>>,
    pub categories: Vec<FileCategory>,
}

impl Default for ScanOptions {
    /// No constraints beyond a conventional exclude list: source-control and
    /// build directories are skipped, hidden files are not included.
    fn default() -> (r: Self)
        ensures
            r.include_hidden == false,
            r.follow_symlinks == false,
            r.max_depth is None,
            r.min_size is None,
            r.max_size is None,
            r.min_age_days is None,
            r.max_age_days is None,
            r.include_patterns@.len() == 0,
            r.exclude_patterns@.len() == 3,
            r.exclude_patterns@[0]@ == "*node_modules*".spec_bytes(),
            r.exclude_patterns@[1]@ == "*.git*".spec_bytes(),
            r.exclude_patterns@[2]@ == "*target*".spec_bytes(),
            r.categories@.len() == 0,
    {
        let mut exclude_patterns: Vec<Vec<u8>> = Vec::new();
        exclude_patterns.push("*node_modules*".as_bytes_vec());
        exclude_patterns.push("*.git*".as_bytes_vec());
        exclude_patterns.push("*target*".as_bytes_vec());
        ScanOptions {
            include_hidden: false,
            follow_symlinks: false,
            max_depth: None,
            min_size: None,
            max_size: None,
            min_age_days: None,
            max_age_days: None,
            include_patterns: Vec::new(),
            exclude_patterns,
            categories: Vec::new(),
        }
    }
}

/// A per-entry failure collected during a scan.
#[derive(Debug)]
pub struct ScanError {
    pub path: Vec<u8>,
    pub error: Vec<u8>,
}

/// Why a whole scan or duplicate search aborted rather than returning a
/// result: only cancellation does.
#[derive(Clone, Copy, Debug, PartialEq, Eq, Structural)]
pub enum CleanerError {
    Cancelled,
}

/// Occupancy of one category in a scan result.
#[derive(Debug)]
pub struct CategoryStats {
    pub category: FileCategory,
    pub count: u64,
    pub size: u64,
}

/// What a completed scan found.
#[derive(Debug)]
pub struct ScanResult {
    pub files: Vec<ScannedFile>,
    pub total_files: u64,
    pub total_size: u64,
    pub recoverable_space: u64,
    pub categories: Vec<CategoryStats>,
    pub errors: Vec<ScanError>,
}

/// A progress snapshot, published at a bounded cadence during a walk.
#[derive(Debug)]
pub struct ScanProgress {
    pub current_path: Vec<u8>,
    pub files_scanned: u64,
    pub bytes_scanned: u64,
    pub files_found: u64,
    pub bytes_found: u64,
    pub phase: Vec<u8>,
}

/// The lifecycle of a scan session.
#[derive(Debug)]
pub enum ScanStatus {
    Running,
    Paused,
    Completed,
    Cancelled,
    Failed(Vec<u8>),
}

/// A caller's scan request: which roots to walk, whether to include hidden
/// files, an optional age floor, and rule ids to enable beyond the defaults.
#[derive(Debug)]
pub struct ScanRequest {
    pub paths: Vec<Vec<u8>>,
    pub include_hidden: bool,
    pub min_file_age_days: Option<u32>,
    pub enabled_rules: Vec<Vec<u8>>,
}

/// A rule id stands in the request's opt-in list.
pub open spec fn spec_rule_requested(enabled_rules: Seq<Vec<u8>>, id: Seq<u8>) -> bool {
    exists|i: int| 0 <= i < enabled_rules.len() && (#[trigger] enabled_rules[i])@ == id
}

/// The rule set a request asks for: every configured rule, with the
/// explicitly requested ones switched on — opt-in for rules that ship
/// disabled — and everything else unchanged.
pub fn requested_rules(rules: Vec<CleanupRule>, request: &ScanRequest) -> (r: Vec<CleanupRule>)
    ensures
        r@.len() == rules@.len(),
        forall|k: int| 0 <= k < rules@.len() ==> {
            let before = rules@[k];
            let after = #[trigger] r@[k];
            &&& after.id == before.id
            &&& after.name == before.name
            &&& after.enabled == (before.enabled || spec_rule_requested(request.enabled_rules@, before.id@))
            &&& after.category == before.category
            &&& after.patterns == before.patterns
            &&& after.extensions == before.extensions
            &&& after.directories == before.directories
            &&& after.min_age_days == before.min_age_days
            &&& after.min_size_bytes == before.min_size_bytes
            &&& after.max_size_bytes == before.max_size_bytes
            &&& after.description == before.description
            &&& after.risk_level == before.risk_level
        },
{
    let ghost all = rules@;
    let mut rest = rules;
    let total = rest.len();
    let mut r: Vec<CleanupRule> = Vec::new();
    let mut k: usize = 0;
    while rest.len() > 0
        invariant
            all.len() == total,
            k + rest@.len() == all.len(),
            rest@ == all.skip(k as int),
            r@.len() == k,
            forall|t: int| 0 <= t < k ==> {
                let before = all[t];
                let after = #[trigger] r@[t];
                &&& after.id == before.id
                &&& after.name == before.name
                &&& after.enabled == (before.enabled || spec_rule_requested(
                    request.enabled_rules@,
                    before.id@,
                ))
                &&& after.category == before.category
                &&& after.patterns == before.patterns
                &&& after.extensions == before.extensions
                &&& after.directories == before.directories
                &&& after.min_age_days == before.min_age_days
                &&& after.min_size_bytes == before.min_size_bytes
                &&& after.max_size_bytes == before.max_size_bytes
                &&& after.description == before.description
                &&& after.risk_level == before.risk_level
            },
        decreases rest@.len(),
    {
        proof {
            assert(rest@[0] == all[k as int]);
        }
        let mut rule = rest.remove(0);
        proof {
            assert(rest@ =~= all.skip(k + 1));
        }
        let mut requested = false;
        let mut j: usize = 0;
        while j < request.enabled_rules.len()
            invariant
                j <= request.enabled_rules@.len(),
                rule.id == all[k as int].id,
                requested == exists|t: int|
                    0 <= t < j && (#[trigger] request.enabled_rules@[t])@ == rule.id@,
            decreases request.enabled_rules@.len() - j,
        {
            if crate::bytes::bytes_eq(&request.enabled_rules[j], &rule.id) {
                requested = true;
            }
            j = j + 1;
        }
        if requested {
            rule.enabled = true;
        }
        r.push(rule);
        k = k + 1;
    }
    r
}

/// A shared cancellation flag, polled at every entry boundary. Another
/// thread may set it at any moment, so nothing is promised about the value a
/// poll returns.
pub struct CancelFlag {
    flag: AtomicBool,
}

impl CancelFlag {
    /// A fresh, unset flag.
    pub fn new() -> CancelFlag {
        CancelFlag { flag: AtomicBool::new(false) }
    }

    /// Request cancellation.
    pub fn cancel(&self) {
        self.flag.store(true, Ordering::SeqCst);
    }

    /// Clear the flag for a new session.
    pub fn reset(&self) {
        self.flag.store(false, Ordering::SeqCst);
    }

    /// Poll the flag.
    pub fn is_cancelled(&self) -> bool {
        self.flag.load(Ordering::SeqCst)
    }
}

/// Progress is published every thousandth entry, not on every file.
pub fn progress_due(files_scanned: u64) -> (r: bool)
    ensures
        r == (files_scanned % 1000 == 0),
{
    files_scanned % 1000 == 0
}

/// The file name of the path begins with a dot.
pub open spec fn spec_is_hidden(path: Seq<u8>) -> bool {
    file_name_of(path).len() > 0 && is_dot(file_name_of(path)[0])
}

/// Some pattern of the list matches the lowercased path.
pub open spec fn spec_any_pattern_match(patterns: Seq<Vec<u8>>, path: Seq<u8>) -> bool {
    exists|i: int|
        0 <= i < patterns.len() && spec_glob_match(lower_seq(path), lower_seq(#[trigger] patterns[i]@))
}

/// Some pattern of the list matches the lowercased path. The walker also
/// uses this to prune excluded directories before descending into them.
pub fn matches_any_pattern(patterns: &Vec<Vec<u8>>, path: &Vec<u8>) -> (r: bool)
    ensures
        r == spec_any_pattern_match(patterns@, path@),
{
    let lower_path = lower_bytes(path);
    let mut i: usize = 0;
    while i < patterns.len()
        invariant
            i <= patterns@.len(),
            lower_path@ == lower_seq(path@),
            forall|j: int| 0 <= j < i ==> !spec_glob_match(lower_seq(path@), lower_seq(#[trigger] patterns@[j]@)),
        decreases patterns@.len() - i,
    {
        let lp = lower_bytes(&patterns[i]);
        if glob_match(&lower_path, &lp) {
            return true;
        }
        i = i + 1;
    }
    false
}

/// Age of a file in whole days.
pub open spec fn spec_age_days(modified: u64, now: u64) -> int {
    spec_age_secs(modified, now) / 86400
}

/// The post-classification filters of a scan: hidden flag, size bounds, age
/// bounds, and the category allow-list (empty list allows all).
pub open spec fn spec_passes_filters(options: ScanOptions, e: FsEntry, cat: FileCategory, now: u64) -> bool {
    &&& !(spec_is_hidden(e.path@) && !options.include_hidden)
    &&& match options.min_size {
        Some(m) => e.size >= m,
        None => true,
    }
    &&& match options.max_size {
        Some(m) => e.size <= m,
        None => true,
    }
    &&& match options.min_age_days {
        Some(d) => spec_age_days(e.modified, now) >= d,
        None => true,
    }
    &&& match options.max_age_days {
        Some(d) => spec_age_days(e.modified, now) <= d,
        None => true,
    }
    &&& (options.categories@.len() == 0 || exists|k: int|
        0 <= k < options.categories@.len() && #[trigger] options.categories@[k] == cat)
}

/// Rule `i` is the first enabled rule matching the file.
pub open spec fn spec_first_hit(rules: Seq<CleanupRule>, i: int, path: Seq<u8>, size: u64, modified: u64, now: u64) -> bool {
    &&& 0 <= i < rules.len()
    &&& spec_rule_hits(rules[i], path, size, modified, now)
    &&& forall|j: int| 0 <= j < i ==> !spec_rule_hits(#[trigger] rules[j], path, size, modified, now)
}

/// An entry belongs in the scan result: not excluded, allowed by the include
/// patterns, matched by some enabled rule, and through the post filters
/// under that rule's category.
pub open spec fn spec_entry_included(e: FsEntry, options: ScanOptions, rules: Seq<CleanupRule>, now: u64) -> bool {
    &&& !spec_any_pattern_match(options.exclude_patterns@, e.path@)
    &&& (options.include_patterns@.len() == 0 || spec_any_pattern_match(options.include_patterns@, e.path@))
    &&& exists|i: int|
        #[trigger] spec_first_hit(rules, i, e.path@, e.size, e.modified, now)
            && spec_passes_filters(options, e, rules[i].category, now)
}

/// The entries a scan keeps, in walk order.
pub open spec fn spec_scan_entries(events: Seq<WalkEvent>, options: ScanOptions, rules: Seq<CleanupRule>, now: u64) -> Seq<FsEntry>
    decreases events.len(),
{
    if events.len() == 0 {
        Seq::<FsEntry>::empty()
    } else {
        let prefix = spec_scan_entries(events.drop_last(), options, rules, now);
        match events.last() {
            WalkEvent::Entry(e) => if spec_entry_included(e, options, rules, now) {
                prefix.push(e)
            } else {
                prefix
            },
            WalkEvent::Failure(_, _) => prefix,
        }
    }
}

/// The failures a walk reported, in walk order.
pub open spec fn spec_scan_failures(events: Seq<WalkEvent>) -> Seq<WalkEvent>
    decreases events.len(),
{
    if events.len() == 0 {
        Seq::<WalkEvent>::empty()
    } else {
        let prefix = spec_scan_failures(events.drop_last());
        match events.last() {
            WalkEvent::Entry(_) => prefix,
            WalkEvent::Failure(_, _) => prefix.push(events.last()),
        }
    }
}

/// Sum of the sizes of all entries of a walk, kept or not.
pub open spec fn spec_total_entry_size(events: Seq<WalkEvent>) -> int
    decreases events.len(),
{
    if events.len() == 0 {
        0
    } else {
        spec_total_entry_size(events.drop_last()) + match events.last() {
            WalkEvent::Entry(e) => e.size as int,
            WalkEvent::Failure(_, _) => 0,
        }
    }
}

/// Sum of the sizes of the entries a scan keeps.
pub open spec fn spec_included_size(events: Seq<WalkEvent>, options: ScanOptions, rules: Seq<CleanupRule>, now: u64) -> int
    decreases events.len(),
{
    if events.len() == 0 {
        0
    } else {
        spec_included_size(events.drop_last(), options, rules, now) + match events.last() {
            WalkEvent::Entry(e) => if spec_entry_included(e, options, rules, now) {
                e.size as int
            } else {
                0
            },
            WalkEvent::Failure(_, _) => 0,
        }
    }
}

proof fn lemma_included_size_le_total(events: Seq<WalkEvent>, options: ScanOptions, rules: Seq<CleanupRule>, now: u64)
    ensures
        0 <= spec_included_size(events, options, rules, now) <= spec_total_entry_size(events),
    decreases events.len(),
{
    if events.len() > 0 {
        lemma_included_size_le_total(events.drop_last(), options, rules, now);
    }
}

proof fn lemma_total_size_prefix(events: Seq<WalkEvent>, i: int)
    requires
        0 <= i <= events.len(),
    ensures
        spec_total_entry_size(events.take(i)) <= spec_total_entry_size(events),
    decreases events.len(),
{
    if i == events.len() {
        assert(events.take(i) =~= events);
    } else if events.len() > 0 {
        assert(events.drop_last().take(i) =~= events.take(i));
        lemma_total_size_prefix(events.drop_last(), i);
        match events.last() {
            WalkEvent::Entry(e) => {},
            WalkEvent::Failure(_, _) => {},
        }
    }
}

/// The scanned file `f` records entry `e` with the verdict of the first
/// enabled rule that matched it.
pub open spec fn spec_file_matches_entry(f: ScannedFile, e: FsEntry, rules: Seq<CleanupRule>, now: u64) -> bool {
    &&& f.path@ == e.path@
    &&& f.size == e.size
    &&& f.modified == e.modified
    &&& f.created == e.created
    &&& f.accessed == e.accessed
    &&& f.file_type == e.file_type
    &&& f.is_hidden == spec_is_hidden(e.path@)
    &&& f.is_system == e.is_system
    &&& f.hash is None
    &&& f.can_delete == true
    &&& exists|i: int|
        {
            &&& #[trigger] spec_first_hit(rules, i, e.path@, e.size, e.modified, now)
            &&& f.category == rules[i].category
            &&& f.risk_level == rules[i].risk_level
            &&& f.cleanup_reason matches Some(d) && d@ == rules[i].description@
        }
}

/// The scanned files record exactly the kept entries, in order.
pub open spec fn spec_files_match_entries(files: Seq<ScannedFile>, entries: Seq<FsEntry>, rules: Seq<CleanupRule>, now: u64) -> bool {
    &&& files.len() == entries.len()
    &&& forall|k: int| 0 <= k < files.len() ==> spec_file_matches_entry(#[trigger] files[k], entries[k], rules, now)
}

/// The collected errors record exactly the walk failures, in order.
pub open spec fn spec_errors_match_failures(errors: Seq<ScanError>, failures: Seq<WalkEvent>) -> bool {
    &&& errors.len() == failures.len()
    &&& forall|k: int| 0 <= k < errors.len()
        ==> (#[trigger] failures[k] matches WalkEvent::Failure(p, m)
            && errors[k].path@ == p@ && errors[k].error@ == m@)
}

/// Per-category occupancy of a file list: how many files, and how many bytes.
pub open spec fn spec_cat_count(files: Seq<ScannedFile>, cat: FileCategory) -> int
    decreases files.len(),
{
    if files.len() == 0 {
        0
    } else {
        spec_cat_count(files.drop_last(), cat) + if files.last().category == cat {
            1int
        } else {
            0int
        }
    }
}

/// Per-category byte total of a file list.
pub open spec fn spec_cat_size(files: Seq<ScannedFile>, cat: FileCategory) -> int
    decreases files.len(),
{
    if files.len() == 0 {
        0
    } else {
        spec_cat_size(files.drop_last(), cat) + if files.last().category == cat {
            files.last().size as int
        } else {
            0int
        }
    }
}

/// Row `k` of the table carries the exact count and byte total of its
/// category over `files`.
pub open spec fn spec_row_exact(files: Seq<ScannedFile>, stats: Seq<CategoryStats>, k: int) -> bool {
    stats[k].count == spec_cat_count(files, stats[k].category)
        && stats[k].size == spec_cat_size(files, stats[k].category)
}

/// The statistics table covers exactly the categories occurring in `files`,
/// one row each, with exact counts and byte totals.
pub open spec fn spec_stats_ok(files: Seq<ScannedFile>, stats: Seq<CategoryStats>) -> bool {
    &&& forall|k: int| 0 <= k < stats.len() ==> #[trigger] spec_row_exact(files, stats, k)
    &&& forall|k1: int, k2: int| 0 <= k1 < k2 < stats.len()
        ==> (#[trigger] stats[k1].category) != (#[trigger] stats[k2].category)
    &&& forall|i: int| 0 <= i < files.len()
        ==> exists|k: int| 0 <= k < stats.len() && (#[trigger] stats[k].category) == (#[trigger] files[i]).category
}

/// Sum of the sizes of a list of scanned files.
pub open spec fn spec_total_file_size(files: Seq<ScannedFile>) -> int
    decreases files.len(),
{
    if files.len() == 0 {
        0
    } else {
        spec_total_file_size(files.drop_last()) + files.last().size as int
    }
}

proof fn lemma_cat_count_bounds(files: Seq<ScannedFile>, cat: FileCategory)
    ensures
        0 <= spec_cat_count(files, cat) <= files.len(),
    decreases files.len(),
{
    if files.len() > 0 {
        lemma_cat_count_bounds(files.drop_last(), cat);
    }
}

proof fn lemma_cat_size_bounds(files: Seq<ScannedFile>, cat: FileCategory)
    ensures
        0 <= spec_cat_size(files, cat) <= spec_total_file_size(files),
    decreases files.len(),
{
    if files.len() > 0 {
        lemma_cat_size_bounds(files.drop_last(), cat);
    }
}

pub proof fn lemma_total_file_size_prefix(files: Seq<ScannedFile>, i: int)
    requires
        0 <= i <= files.len(),
    ensures
        spec_total_file_size(files.take(i)) <= spec_total_file_size(files),
    decreases files.len(),
{
    if i == files.len() {
        assert(files.take(i) =~= files);
    } else if files.len() > 0 {
        assert(files.drop_last().take(i) =~= files.take(i));
        lemma_total_file_size_prefix(files.drop_last(), i);
    }
}

proof fn lemma_cat_step(files: Seq<ScannedFile>, i: int, cat: FileCategory)
    requires
        0 <= i < files.len(),
    ensures
        spec_cat_count(files.take(i + 1), cat) == spec_cat_count(files.take(i), cat) + if files[i].category == cat {
            1int
        } else {
            0int
        },
        spec_cat_size(files.take(i + 1), cat) == spec_cat_size(files.take(i), cat) + if files[i].category == cat {
            files[i].size as int
        } else {
            0int
        },
{
    assert(files.take(i + 1).drop_last() =~= files.take(i));
    assert(files.take(i + 1).last() == files[i]);
}

proof fn lemma_cat_count_zero(files: Seq<ScannedFile>, cat: FileCategory)
    requires
        forall|j: int| 0 <= j < files.len() ==> (#[trigger] files[j]).category != cat,
    ensures
        spec_cat_count(files, cat) == 0,
        spec_cat_size(files, cat) == 0,
    decreases files.len(),
{
    if files.len() > 0 {
        assert(files.last() == files[files.len() - 1]);
        lemma_cat_count_zero(files.drop_last(), cat);
    }
}

/// Find the row of a category in a statistics table.
fn find_category(stats: &Vec<CategoryStats>, cat: FileCategory) -> (r: Option<usize>)
    ensures
        match r {
            Some(k) => k < stats@.len() && stats@[k as int].category == cat,
            None => forall|k: int| 0 <= k < stats@.len() ==> (#[trigger] stats@[k]).category != cat,
        },
{
    let mut k: usize = 0;
    while k < stats.len()
        invariant
            k <= stats@.len(),
            forall|j: int| 0 <= j < k ==> (#[trigger] stats@[j]).category != cat,
        decreases stats@.len() - k,
    {
        if stats[k].category == cat {
            return Some(k);
        }
        k = k + 1;
    }
    None
}

/// Build the per-category statistics of a file list: one row per category
/// that occurs, with its file count and byte total.
#[verifier::rlimit(60)]
pub fn category_stats(files: &Vec<ScannedFile>) -> (r: Vec<CategoryStats>)
    requires
        spec_total_file_size(files@) <= u64::MAX,
    ensures
        spec_stats_ok(files@, r@),
{
    let mut stats: Vec<CategoryStats> = Vec::new();
    let mut i: usize = 0;
    while i < files.len()
        invariant
            i <= files@.len(),
            spec_total_file_size(files@) <= u64::MAX,
            forall|k: int| 0 <= k < stats@.len() ==> #[trigger] spec_row_exact(files@.take(i as int), stats@, k),
            forall|k1: int, k2: int| 0 <= k1 < k2 < stats@.len()
                ==> (#[trigger] stats@[k1].category) != (#[trigger] stats@[k2].category),
            forall|j: int| 0 <= j < i
                ==> exists|k: int| 0 <= k < stats@.len() && (#[trigger] stats@[k].category) == (#[trigger] files@[j]).category,
        decreases files@.len() - i,
    {
        let cat = files[i].category;
        let fsize = files[i].size;
        let ghost old_stats = stats@;
        proof {
            assert(files@.take(i + 1).drop_last() =~= files@.take(i as int));
            assert(files@.take(i + 1).last() == files@[i as int]);
        }
        match find_category(&stats, cat) {
            Some(k) => {
                let c = stats[k].count;
                let s = stats[k].size;
                proof {
                    assert(spec_row_exact(files@.take(i as int), stats@, k as int));
                    lemma_cat_step(files@, i as int, cat);
                    lemma_cat_count_bounds(files@.take(i + 1), cat);
                    lemma_cat_size_bounds(files@.take(i + 1), cat);
                    lemma_total_file_size_prefix(files@, i + 1);
                }
                stats.set(k, CategoryStats { category: cat, count: c + 1, size: s + fsize });
                proof {
                    assert forall|kk: int| 0 <= kk < stats@.len() implies
                        #[trigger] spec_row_exact(files@.take(i + 1), stats@, kk) by {
                        lemma_cat_step(files@, i as int, stats@[kk].category);
                        assert(spec_row_exact(files@.take(i as int), old_stats, kk));
                        if kk == k {
                            assert(stats@[kk].category == cat);
                        } else {
                            assert(stats@[kk] == old_stats[kk]);
                            if kk < k {
                                assert(old_stats[kk].category != old_stats[k as int].category);
                            } else {
                                assert(old_stats[k as int].category != old_stats[kk].category);
                            }
                            assert(stats@[kk].category != cat);
                        }
                    }
                    assert forall|j: int| 0 <= j < i + 1 implies exists|kk: int|
                        0 <= kk < stats@.len() && (#[trigger] stats@[kk].category) == (#[trigger] files@[j]).category by {
                        if j == i {
                            assert(stats@[k as int].category == files@[j].category);
                        } else {
                            let kk = choose|kk: int|
                                0 <= kk < old_stats.len() && (#[trigger] old_stats[kk].category) == files@[j].category;
                            assert(stats@[kk].category == old_stats[kk].category);
                        }
                    }
                }
            },
            None => {
                proof {
                    assert forall|j: int| 0 <= j < files@.take(i as int).len() implies
                        (#[trigger] files@.take(i as int)[j]).category != cat by {
                        assert(files@.take(i as int)[j] == files@[j]);
                        let kk = choose|kk: int|
                            0 <= kk < old_stats.len() && (#[trigger] old_stats[kk].category) == files@[j].category;
                        assert(old_stats[kk].category != cat);
                    }
                    lemma_cat_count_zero(files@.take(i as int), cat);
                }
                stats.push(CategoryStats { category: cat, count: 1, size: fsize });
                proof {
                    assert forall|kk: int| 0 <= kk < stats@.len() implies
                        #[trigger] spec_row_exact(files@.take(i + 1), stats@, kk) by {
                        lemma_cat_step(files@, i as int, stats@[kk].category);
                        if kk == stats@.len() - 1 {
                            assert(stats@[kk].category == cat);
                        } else {
                            assert(spec_row_exact(files@.take(i as int), old_stats, kk));
                            assert(stats@[kk] == old_stats[kk]);
                            assert(stats@[kk].category != cat);
                        }
                    }
                    assert forall|j: int| 0 <= j < i + 1 implies exists|kk: int|
                        0 <= kk < stats@.len() && (#[trigger] stats@[kk].category) == (#[trigger] files@[j]).category by {
                        if j == i {
                            assert(stats@[stats@.len() - 1].category == files@[j].category);
                        } else {
                            let kk = choose|kk: int|
                                0 <= kk < old_stats.len() && (#[trigger] old_stats[kk].category) == files@[j].category;
                            assert(stats@[kk].category == old_stats[kk].category);
                        }
                    }
                }
            },
        }
        i = i + 1;
    }
    proof {
        assert(files@.take(files@.len() as int) =~= files@);
    }
    stats
}

proof fn lemma_total_file_size_le_u64(files: Seq<ScannedFile>)
    ensures
        spec_total_file_size(files) <= files.len() * (u64::MAX as int),
    decreases files.len(),
{
    if files.len() > 0 {
        lemma_total_file_size_le_u64(files.drop_last());
        assert(spec_total_file_size(files) <= (files.len() - 1) * (u64::MAX as int) + u64::MAX as int)
            by (nonlinear_arith)
            requires
                spec_total_file_size(files.drop_last()) <= (files.len() - 1) * (u64::MAX as int),
                spec_total_file_size(files) == spec_total_file_size(files.drop_last()) + files.last().size as int,
                files.last().size <= u64::MAX,
        ;
        assert((files.len() - 1) * (u64::MAX as int) + u64::MAX as int == files.len() * (u64::MAX as int))
            by (nonlinear_arith);
    }
}

/// The scanner: options plus a rule engine.
pub struct FileScanner {
    pub options: ScanOptions,
    pub engine: RuleEngine,
}

impl FileScanner {
    /// A scanner over the given options and rule engine.
    pub fn new(options: ScanOptions, engine: RuleEngine) -> (r: Self)
        ensures
            r.options == options,
            r.engine == engine,
    {
        FileScanner { options, engine }
    }

    /// Process the events of a directory walk into a scan result: drop
    /// excluded entries, classify the rest, keep those a rule matched that
    /// pass the post filters, and collect walk failures. The cancellation
    /// flag is polled at every event; once it is observed set the scan
    /// aborts with `Cancelled` and no partial result. With no events there
    /// is no poll, so an empty walk always succeeds.
    pub fn scan(&self, events: &Vec<WalkEvent>, now: u64, cancel: &CancelFlag) -> (r: Result<ScanResult, CleanerError>)
        requires
            spec_total_entry_size(events@) <= u64::MAX,
        ensures
            events@.len() == 0 ==> r is Ok,
            r matches Ok(res) ==> {
                &&& spec_files_match_entries(
                    res.files@,
                    spec_scan_entries(events@, self.options, self.engine.rules@, now),
                    self.engine.rules@,
                    now,
                )
                &&& res.total_files == spec_scan_entries(events@, self.options, self.engine.rules@, now).len()
                &&& res.total_size == spec_included_size(events@, self.options, self.engine.rules@, now)
                &&& res.recoverable_space == res.total_size
                &&& spec_errors_match_failures(res.errors@, spec_scan_failures(events@))
                &&& spec_stats_ok(res.files@, res.categories@)
            },
            r matches Err(e) ==> e == CleanerError::Cancelled,
    {
        let ghost opts = self.options;
        let ghost rules = self.engine.rules@;
        let mut files: Vec<ScannedFile> = Vec::new();
        let mut errors: Vec<ScanError> = Vec::new();
        let mut total_size: u64 = 0;
        let mut i: usize = 0;
        while i < events.len()
            invariant
                i <= events@.len(),
                opts == self.options,
                rules == self.engine.rules@,
                spec_total_entry_size(events@) <= u64::MAX,
                spec_files_match_entries(files@, spec_scan_entries(events@.take(i as int), opts, rules, now), rules, now),
                spec_errors_match_failures(errors@, spec_scan_failures(events@.take(i as int))),
                total_size == spec_included_size(events@.take(i as int), opts, rules, now),
                spec_total_file_size(files@) == total_size,
            decreases events@.len() - i,
        {
            if cancel.is_cancelled() {
                return Err(CleanerError::Cancelled);
            }
            proof {
                assert(events@.take(i + 1).drop_last() =~= events@.take(i as int));
                assert(events@.take(i + 1).last() == events@[i as int]);
            }
            match &events[i] {
                WalkEvent::Failure(p, m) => {
                    errors.push(ScanError { path: copy_bytes(p), error: copy_bytes(m) });
                },
                WalkEvent::Entry(e) => {
                    let included = self.consider_entry(e, now);
                    proof {
                        lemma_included_size_le_total(events@.take(i + 1), opts, rules, now);
                        lemma_total_size_prefix(events@, i + 1);
                    }
                    match included {
                        Some(f) => {
                            proof {
                                assert(files@.push(f).drop_last() =~= files@);
                            }
                            total_size = total_size + f.size;
                            files.push(f);
                        },
                        None => {},
                    }
                },
            }
            i = i + 1;
        }
        proof {
            assert(events@.take(events@.len() as int) =~= events@);
        }
        let categories = category_stats(&files);
        let total_files = files.len() as u64;
        Ok(ScanResult {
            files,
            total_files,
            total_size,
            recoverable_space: total_size,
            categories,
            errors,
        })
    }

    /// Decide one entry: the scanned file to keep, or nothing.
    fn consider_entry(&self, e: &FsEntry, now: u64) -> (r: Option<ScannedFile>)
        ensures
            match r {
                Some(f) => spec_entry_included(*e, self.options, self.engine.rules@, now)
                    && spec_file_matches_entry(f, *e, self.engine.rules@, now)
                    && f.size == e.size,
                None => !spec_entry_included(*e, self.options, self.engine.rules@, now),
            },
    {
        let ghost rules = self.engine.rules@;
        if matches_any_pattern(&self.options.exclude_patterns, &e.path) {
            return None;
        }
        if self.options.include_patterns.len() > 0 && !matches_any_pattern(&self.options.include_patterns, &e.path) {
            return None;
        }
        let cls = self.engine.categorize(&e.path, e.size, e.modified, now);
        if !cls.eligible {
            proof {
                assert forall|i: int| !spec_first_hit(rules, i, e.path@, e.size, e.modified, now) by {
                    if 0 <= i < rules.len() && spec_rule_hits(rules[i], e.path@, e.size, e.modified, now) {
                        assert(exists|j: int| 0 <= j < rules.len()
                            && spec_rule_hits(#[trigger] rules[j], e.path@, e.size, e.modified, now));
                    }
                }
            }
            return None;
        }
        let ghost i0 = choose|i: int|
            {
                &&& 0 <= i < rules.len()
                &&& spec_rule_hits(#[trigger] rules[i], e.path@, e.size, e.modified, now)
                &&& forall|j: int| 0 <= j < i ==> !spec_rule_hits(#[trigger] rules[j], e.path@, e.size, e.modified, now)
                &&& cls.category == rules[i].category
                &&& cls.risk_level == rules[i].risk_level
                &&& cls.eligible == true
                &&& cls.reason matches Some(d) && d@ == rules[i].description@
            };
        proof {
            assert(spec_first_hit(rules, i0, e.path@, e.size, e.modified, now));
        }

        let hidden = crate::paths::is_hidden_file(&e.path);
        let mut keep = true;
        if hidden && !self.options.include_hidden {
            keep = false;
        }
        if let Some(m) = self.options.min_size {
            if e.size < m {
                keep = false;
            }
        }
        if let Some(m) = self.options.max_size {
            if e.size > m {
                keep = false;
            }
        }
        let age_secs: u64 = if now >= e.modified {
            now - e.modified
        } else {
            0
        };
        let age_days: u64 = age_secs / 86400;
        if let Some(d) = self.options.min_age_days {
            if age_days < d as u64 {
                keep = false;
            }
        }
        if let Some(d) = self.options.max_age_days {
            if age_days > d as u64 {
                keep = false;
            }
        }
        if self.options.categories.len() > 0 {
            let mut k: usize = 0;
            let mut in_list = false;
            while k < self.options.categories.len()
                invariant
                    k <= self.options.categories@.len(),
                    in_list == exists|j: int|
                        0 <= j < k && #[trigger] self.options.categories@[j] == cls.category,
                decreases self.options.categories@.len() - k,
            {
                if self.options.categories[k] == cls.category {
                    in_list = true;
                }
                k = k + 1;
            }
            if !in_list {
                keep = false;
            }
        }

        proof {
            assert(keep == spec_passes_filters(self.options, *e, rules[i0].category, now));
        }
        if !keep {
            proof {
                assert forall|i: int|
                    #[trigger] spec_first_hit(rules, i, e.path@, e.size, e.modified, now)
                        implies !spec_passes_filters(self.options, *e, rules[i].category, now) by {
                    if i < i0 {
                        assert(spec_rule_hits(rules[i], e.path@, e.size, e.modified, now));
                        assert(false);
                    } else if i > i0 {
                        assert(spec_rule_hits(rules[i0], e.path@, e.size, e.modified, now));
                        assert(false);
                    }
                }
            }
            return None;
        }
        let f = ScannedFile {
            path: copy_bytes(&e.path),
            size: e.size,
            modified: e.modified,
            created: e.created,
            accessed: e.accessed,
            file_type: e.file_type,
            category: cls.category,
            risk_level: cls.risk_level,
            is_hidden: hidden,
            is_system: e.is_system,
            cleanup_reason: cls.reason,
            hash: None,
            can_delete: true,
        };
        Some(f)
    }
}

} // verus!
