use systemsweep::large_files::LargeFileFinder;
use systemsweep::rules::{CleanupRule, FileCategory, RiskLevel, RuleEngine};
use systemsweep::scanner::{CancelFlag, CategoryStats, CleanerError, FileScanner, FileType,
    FsEntry, ScanOptions, ScanRequest, ScannedFile, WalkEvent, category_stats,
    matches_any_pattern, progress_due, requested_rules};

fn b(s: &str) -> Vec<u8> {
    s.as_bytes().to_vec()
}

const DAY: u64 = 86400;
const NOW: u64 = 100 * DAY;

fn entry(path: &str, size: u64, modified: u64) -> WalkEvent {
    WalkEvent::Entry(FsEntry {
        path: b(path),
        size,
        modified,
        created: None,
        accessed: None,
        file_type: FileType::File,
        is_system: false,
    })
}

fn default_engine() -> RuleEngine {
    RuleEngine::new(CleanupRule::default_rules(
        Vec::new(),
        Vec::new(),
        Vec::new(),
        Vec::new(),
        Vec::new(),
    ))
}

#[test]
fn scan_keeps_rule_matches_and_drops_unknown() {
    // a.tmp matches the temp rule, a.log the log rule; a.txt matches no
    // rule and stays out even without any age floor on the scan itself.
    let scanner = FileScanner::new(ScanOptions::default(), default_engine());
    let events = vec![
        entry("/data/a.tmp", 10, NOW - 2 * DAY),
        entry("/data/a.log", 2 * 1024 * 1024, NOW - 40 * DAY),
        entry("/data/a.txt", 10, NOW - 10 * DAY),
    ];
    let cancel = CancelFlag::new();
    let res = scanner.scan(&events, NOW, &cancel).unwrap();
    assert_eq!(res.files.len(), 2);
    assert_eq!(res.files[0].path, b("/data/a.tmp"));
    assert_eq!(res.files[0].category, FileCategory::TempFile);
    assert!(res.files[0].can_delete);
    assert_eq!(res.files[1].path, b("/data/a.log"));
    assert_eq!(res.files[1].category, FileCategory::LogFile);
    assert_eq!(res.files[1].risk_level, RiskLevel::Low);
    assert!(res.files[1].can_delete);
    assert_eq!(res.total_files, 2);
    assert_eq!(res.total_size, 10 + 2 * 1024 * 1024);
    assert_eq!(res.recoverable_space, res.total_size);
    assert!(res.errors.is_empty());
}

#[test]
fn cancelled_scan_returns_no_partial_result() {
    let scanner = FileScanner::new(ScanOptions::default(), default_engine());
    let mut events = Vec::new();
    for i in 0..1000 {
        events.push(entry(&format!("/data/f{}.tmp", i), 10, NOW - 2 * DAY));
    }
    let cancel = CancelFlag::new();
    cancel.cancel();
    let r = scanner.scan(&events, NOW, &cancel);
    assert_eq!(r.unwrap_err(), CleanerError::Cancelled);
    cancel.reset();
    assert!(!cancel.is_cancelled());
    let ok = scanner.scan(&events, NOW, &cancel).unwrap();
    assert_eq!(ok.total_files, 1000);
}

#[test]
fn exclude_patterns_prune_matches() {
    let mut options = ScanOptions::default();
    options.exclude_patterns = vec![b("*node_modules*")];
    assert!(matches_any_pattern(&options.exclude_patterns, &b("/p/node_modules/x.tmp")));
    assert!(!matches_any_pattern(&options.exclude_patterns, &b("/p/src/x.tmp")));
    let scanner = FileScanner::new(options, default_engine());
    let events = vec![
        entry("/p/node_modules/x.tmp", 10, NOW - 2 * DAY),
        entry("/p/src/x.tmp", 10, NOW - 2 * DAY),
    ];
    let cancel = CancelFlag::new();
    let res = scanner.scan(&events, NOW, &cancel).unwrap();
    assert_eq!(res.files.len(), 1);
    assert_eq!(res.files[0].path, b("/p/src/x.tmp"));
}

#[test]
fn hidden_files_are_skipped_unless_included() {
    let mut options = ScanOptions::default();
    options.exclude_patterns = Vec::new();
    let scanner = FileScanner::new(options, default_engine());
    let events = vec![entry("/p/.secret.tmp", 10, NOW - 2 * DAY)];
    let cancel = CancelFlag::new();
    let res = scanner.scan(&events, NOW, &cancel).unwrap();
    assert_eq!(res.files.len(), 0);

    let mut options2 = ScanOptions::default();
    options2.exclude_patterns = Vec::new();
    options2.include_hidden = true;
    let scanner2 = FileScanner::new(options2, default_engine());
    let res2 = scanner2.scan(&events, NOW, &cancel).unwrap();
    assert_eq!(res2.files.len(), 1);
    assert!(res2.files[0].is_hidden);
}

#[test]
fn size_and_age_filters_apply_after_classification() {
    let mut options = ScanOptions::default();
    options.min_size = Some(100);
    options.min_age_days = Some(10);
    let scanner = FileScanner::new(options, default_engine());
    let events = vec![
        entry("/p/big_old.tmp", 200, NOW - 20 * DAY),
        entry("/p/small_old.tmp", 50, NOW - 20 * DAY),
        entry("/p/big_young.tmp", 200, NOW - 2 * DAY),
    ];
    let cancel = CancelFlag::new();
    let res = scanner.scan(&events, NOW, &cancel).unwrap();
    assert_eq!(res.files.len(), 1);
    assert_eq!(res.files[0].path, b("/p/big_old.tmp"));
}

#[test]
fn walk_failures_are_collected_not_fatal() {
    let scanner = FileScanner::new(ScanOptions::default(), default_engine());
    let events = vec![
        entry("/p/a.tmp", 10, NOW - 2 * DAY),
        WalkEvent::Failure(b("/p/locked"), b("permission denied")),
    ];
    let cancel = CancelFlag::new();
    let res = scanner.scan(&events, NOW, &cancel).unwrap();
    assert_eq!(res.files.len(), 1);
    assert_eq!(res.errors.len(), 1);
    assert_eq!(res.errors[0].path, b("/p/locked"));
    assert_eq!(res.errors[0].error, b("permission denied"));
}

#[test]
fn category_statistics_count_files_and_bytes() {
    let scanner = FileScanner::new(ScanOptions::default(), default_engine());
    let events = vec![
        entry("/p/a.tmp", 10, NOW - 2 * DAY),
        entry("/p/b.tmp", 30, NOW - 2 * DAY),
        entry("/p/c.log", 2 * 1024 * 1024, NOW - 40 * DAY),
    ];
    let cancel = CancelFlag::new();
    let res = scanner.scan(&events, NOW, &cancel).unwrap();
    assert_eq!(res.categories.len(), 2);
    let temp: &CategoryStats = res
        .categories
        .iter()
        .find(|s| s.category == FileCategory::TempFile)
        .unwrap();
    assert_eq!(temp.count, 2);
    assert_eq!(temp.size, 40);
    let logs: &CategoryStats = res
        .categories
        .iter()
        .find(|s| s.category == FileCategory::LogFile)
        .unwrap();
    assert_eq!(logs.count, 1);

    let stats = category_stats(&res.files);
    assert_eq!(stats.len(), 2);
}

#[test]
fn progress_cadence_is_every_thousandth_entry() {
    assert!(progress_due(0));
    assert!(progress_due(1000));
    assert!(!progress_due(999));
    assert!(!progress_due(1001));
}

fn scanned(path: &str, size: u64) -> ScannedFile {
    ScannedFile {
        path: b(path),
        size,
        modified: NOW,
        created: None,
        accessed: None,
        file_type: FileType::File,
        category: FileCategory::LargeFile,
        risk_level: RiskLevel::Medium,
        is_hidden: false,
        is_system: false,
        cleanup_reason: None,
        hash: None,
        can_delete: true,
    }
}

#[test]
fn large_file_finder_sorts_and_caps() {
    let finder = LargeFileFinder::new(1, Some(2));
    assert_eq!(finder.min_size, 1024 * 1024);
    let files = vec![
        scanned("/p/mid", 2 * 1024 * 1024),
        scanned("/p/small", 10),
        scanned("/p/big", 5 * 1024 * 1024),
        scanned("/p/tiny_large", 1024 * 1024),
    ];
    let r = finder.find(files);
    assert_eq!(r.total_count, 2);
    assert_eq!(r.files[0].path, b("/p/big"));
    assert_eq!(r.files[1].path, b("/p/mid"));
    assert_eq!(r.total_size, 7 * 1024 * 1024);
}

#[test]
fn large_file_finder_keeps_order_of_equal_sizes() {
    let finder = LargeFileFinder::new(0, None);
    let files = vec![
        scanned("/p/first", 100),
        scanned("/p/second", 100),
        scanned("/p/larger", 200),
    ];
    let r = finder.find(files);
    assert_eq!(r.files[0].path, b("/p/larger"));
    assert_eq!(r.files[1].path, b("/p/first"));
    assert_eq!(r.files[2].path, b("/p/second"));
}

#[test]
fn requested_rule_ids_are_switched_on() {
    let rules = CleanupRule::default_rules(
        Vec::new(),
        Vec::new(),
        Vec::new(),
        Vec::new(),
        Vec::new(),
    );
    assert!(!rules[6].enabled);
    let request = ScanRequest {
        paths: vec![b("/data")],
        include_hidden: false,
        min_file_age_days: None,
        enabled_rules: vec![b("large_files")],
    };
    let selected = requested_rules(rules, &request);
    assert_eq!(selected.len(), 8);
    assert!(selected[6].enabled);
    assert!(!selected[7].enabled);
    assert!(selected[0].enabled);
}

#[test]
fn empty_walk_succeeds_even_with_flag_set() {
    // With no events there is no cancellation poll: the scan is owed
    // success whatever the flag holds.
    let scanner = FileScanner::new(ScanOptions::default(), default_engine());
    let cancel = CancelFlag::new();
    cancel.cancel();
    let res = scanner.scan(&Vec::new(), NOW, &cancel).unwrap();
    assert_eq!(res.total_files, 0);
    assert_eq!(res.total_size, 0);
    assert!(res.files.is_empty());
    assert!(res.errors.is_empty());
}
