use systemsweep::deleter::{DeleteDecision, DeleteMethod, DeleteOptions, FileOutcome, FileSpec,
    OverwritePass, SafeDeleter, overwrite_chunks, preview, secure_pass_sequence};
use systemsweep::rules::{FileCategory, RiskLevel};
use systemsweep::scanner::{FileType, ScannedFile};

fn b(s: &str) -> Vec<u8> {
    s.as_bytes().to_vec()
}

fn target(path: &str, size: u64, exists: bool) -> FileSpec {
    FileSpec { path: b(path), size, exists, in_use: false }
}

fn dry_run_options() -> DeleteOptions {
    DeleteOptions {
        dry_run: true,
        use_trash: true,
        secure_delete: false,
        create_restore_point: false,
        skip_in_use: true,
    }
}

fn inert_outcome() -> FileOutcome {
    FileOutcome { backed_up: false, removed: false, error: Vec::new() }
}

#[test]
fn default_delete_options() {
    let o = DeleteOptions::default();
    assert!(!o.dry_run);
    assert!(o.use_trash);
    assert!(!o.secure_delete);
    assert!(o.create_restore_point);
    assert!(o.skip_in_use);
}

#[test]
fn protected_path_guard_with_marker_carve_out() {
    let deleter = SafeDeleter::new(DeleteOptions::default(), vec![b("/usr"), b("/etc")]);
    assert!(deleter.is_protected(&b("/usr/lib/libc.so")));
    assert!(deleter.is_protected(&b("/etc/passwd")));
    // The carve-out: a cache/temp marker under the protected root.
    assert!(!deleter.is_protected(&b("/usr/share/cache/app.bin")));
    assert!(!deleter.is_protected(&b("/usr/TMP/x")));
    // Component boundaries: /usrdata is not under /usr.
    assert!(!deleter.is_protected(&b("/usrdata/file")));
    assert!(!deleter.is_protected(&b("/home/user/file")));
}

#[test]
fn dry_run_frees_existing_sizes_and_plans_no_removal() {
    // Dry run: bytes freed equal the sizes of the existing targets, and no
    // destructive action is planned, so every file stays on disk.
    let deleter = SafeDeleter::new(dry_run_options(), vec![b("/usr")]);
    let files = vec![
        target("/data/a", 100, true),
        target("/data/b", 200, true),
        target("/data/gone", 400, false),
        target("/usr/lib/x", 800, true),
    ];
    let plan = deleter.plan(&files);
    assert_eq!(plan.operation_id.len(), 36);
    for item in &plan.items {
        assert!(!matches!(item.decision, DeleteDecision::Remove(_, _)));
    }
    let outcomes: Vec<FileOutcome> = files.iter().map(|_| inert_outcome()).collect();
    let (res, fin) = deleter.summarize(&plan, &outcomes);
    assert!(res.dry_run);
    assert_eq!(res.bytes_freed, 300);
    assert_eq!(res.files_processed, 2);
    assert_eq!(res.files_failed, 2);
    assert!(fin.is_none());
}

#[test]
fn protected_paths_never_appear_in_deleted_files() {
    let mut options = DeleteOptions::default();
    options.use_trash = false;
    options.create_restore_point = false;
    let deleter = SafeDeleter::new(options, vec![b("/usr")]);
    let files = vec![
        target("/usr/lib/keep", 10, true),
        target("/usr/tmp/junk", 20, true),
        target("/data/junk", 30, true),
    ];
    let plan = deleter.plan(&files);
    assert_eq!(plan.items[0].decision, DeleteDecision::SkipProtected);
    assert_eq!(plan.items[1].decision, DeleteDecision::Remove(false, DeleteMethod::Plain));
    assert_eq!(plan.items[2].decision, DeleteDecision::Remove(false, DeleteMethod::Plain));
    let outcomes = vec![
        inert_outcome(),
        FileOutcome { backed_up: false, removed: true, error: Vec::new() },
        FileOutcome { backed_up: false, removed: true, error: Vec::new() },
    ];
    let (res, _) = deleter.summarize(&plan, &outcomes);
    assert_eq!(res.deleted_files, vec![b("/usr/tmp/junk"), b("/data/junk")]);
    assert!(!res.deleted_files.contains(&b("/usr/lib/keep")));
    assert_eq!(res.errors.len(), 1);
    assert_eq!(res.errors[0].path, b("/usr/lib/keep"));
    assert_eq!(res.errors[0].error, b("protected path"));
}

#[test]
fn one_failure_does_not_abort_the_batch() {
    let mut options = DeleteOptions::default();
    options.use_trash = false;
    options.create_restore_point = false;
    let deleter = SafeDeleter::new(options, Vec::new());
    let files = vec![target("/d/a", 5, true), target("/d/b", 7, true), target("/d/c", 9, true)];
    let plan = deleter.plan(&files);
    let outcomes = vec![
        FileOutcome { backed_up: false, removed: true, error: Vec::new() },
        FileOutcome { backed_up: false, removed: false, error: b("disk error") },
        FileOutcome { backed_up: false, removed: true, error: Vec::new() },
    ];
    let (res, _) = deleter.summarize(&plan, &outcomes);
    assert_eq!(res.files_processed, 2);
    assert_eq!(res.files_failed, 1);
    assert_eq!(res.bytes_freed, 14);
    assert_eq!(res.errors[0].error, b("disk error"));
}

#[test]
fn in_use_files_are_skipped_when_asked() {
    let deleter = SafeDeleter::new(DeleteOptions::default(), Vec::new());
    let mut f = target("/d/busy", 5, true);
    f.in_use = true;
    let plan = deleter.plan(&vec![f]);
    assert_eq!(plan.items[0].decision, DeleteDecision::SkipInUse);
}

#[test]
fn finalize_request_follows_backups() {
    let deleter = SafeDeleter::new(DeleteOptions::default(), Vec::new());
    let files = vec![target("/d/a", 5, true)];
    let plan = deleter.plan(&files);
    assert_eq!(plan.items[0].decision, DeleteDecision::Remove(true, DeleteMethod::Trash));
    let outcomes = vec![FileOutcome { backed_up: true, removed: true, error: Vec::new() }];
    let (res, fin) = deleter.summarize(&plan, &outcomes);
    let fin = fin.unwrap();
    assert_eq!(fin.operation_id, res.operation_id);
    assert_eq!(fin.files_count, 1);
    assert_eq!(fin.bytes_freed, 5);
}

#[test]
fn secure_overwrite_plan_shape() {
    let passes = secure_pass_sequence(3);
    assert_eq!(passes.len(), 4);
    assert_eq!(passes[0], OverwritePass::Random);
    assert_eq!(passes[2], OverwritePass::Random);
    assert_eq!(passes[3], OverwritePass::Zeros);

    let chunks = overwrite_chunks(150_000, 65536);
    assert_eq!(chunks, vec![65536, 65536, 18928]);
    let total: u64 = chunks.iter().sum();
    assert_eq!(total, 150_000);
    assert_eq!(overwrite_chunks(0, 65536).len(), 0);
}

fn scanned(path: &str, size: u64, category: FileCategory, can_delete: bool) -> ScannedFile {
    ScannedFile {
        path: b(path),
        size,
        modified: 0,
        created: None,
        accessed: None,
        file_type: FileType::File,
        category,
        risk_level: RiskLevel::Safe,
        is_hidden: false,
        is_system: false,
        cleanup_reason: None,
        hash: None,
        can_delete,
    }
}

#[test]
fn preview_breaks_deletable_files_down_by_category() {
    let files = vec![
        scanned("/p/a.tmp", 10, FileCategory::TempFile, true),
        scanned("/p/b.tmp", 20, FileCategory::TempFile, true),
        scanned("/p/c.log", 40, FileCategory::LogFile, true),
        scanned("/p/keep.doc", 80, FileCategory::Unknown, false),
    ];
    let p = preview(&files);
    assert_eq!(p.total_count, 3);
    assert_eq!(p.total_size, 70);
    assert_eq!(p.by_category.len(), 2);
    let temp = p.by_category.iter().find(|r| r.category == FileCategory::TempFile).unwrap();
    assert_eq!(temp.count, 2);
    assert_eq!(temp.size, 30);
    assert_eq!(temp.files, vec![b("/p/a.tmp"), b("/p/b.tmp")]);
    let logs = p.by_category.iter().find(|r| r.category == FileCategory::LogFile).unwrap();
    assert_eq!(logs.count, 1);
    assert_eq!(logs.files, vec![b("/p/c.log")]);
}

#[test]
fn dry_run_leaves_every_file_in_place() {
    let mut fs: std::collections::HashMap<Vec<u8>, Vec<u8>> = std::collections::HashMap::new();
    fs.insert(b("/d/a"), vec![1u8; 100]);
    fs.insert(b("/d/b"), vec![2u8; 200]);
    let deleter = SafeDeleter::new(dry_run_options(), Vec::new());
    let targets = vec![target("/d/a", 100, true), target("/d/b", 200, true)];
    let plan = deleter.plan(&targets);
    // No destructive decision, so the interpreter performs no I/O at all.
    let outcomes: Vec<FileOutcome> = plan
        .items
        .iter()
        .map(|item| {
            assert!(!matches!(item.decision, DeleteDecision::Remove(_, _)));
            inert_outcome()
        })
        .collect();
    let (res, _) = deleter.summarize(&plan, &outcomes);
    assert_eq!(res.bytes_freed, 300);
    assert!(fs.contains_key(&b("/d/a")));
    assert!(fs.contains_key(&b("/d/b")));
    assert_eq!(fs.get(&b("/d/a")).unwrap().len(), 100);
}

#[test]
fn failed_backup_does_not_block_deletion() {
    let deleter = SafeDeleter::new(DeleteOptions::default(), Vec::new());
    let files = vec![target("/d/a", 5, true)];
    let plan = deleter.plan(&files);
    // The backup copy failed but the removal went ahead: the file counts
    // as processed, yet no finalization request is made for zero backups.
    let outcomes = vec![FileOutcome { backed_up: false, removed: true, error: Vec::new() }];
    let (res, fin) = deleter.summarize(&plan, &outcomes);
    assert_eq!(res.files_processed, 1);
    assert_eq!(res.bytes_freed, 5);
    assert!(fin.is_none());
}
