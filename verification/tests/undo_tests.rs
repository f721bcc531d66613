use std::collections::HashMap;

use systemsweep::deleter::{DeleteDecision, DeleteMethod, DeleteOptions, FileOutcome, FileSpec,
    SafeDeleter};
use systemsweep::undo::{RestoreOutcome, UndoError, UndoManager, UndoOperationType, UndoStatus};

fn b(s: &str) -> Vec<u8> {
    s.as_bytes().to_vec()
}

#[test]
fn undo_last_with_nothing_available_is_not_found() {
    // With zero available operations, undo-last reports a not-found error;
    // the manager is taken by shared reference, so no state can change.
    let manager = UndoManager::new();
    match manager.undo_last() {
        Err(UndoError::NotFound(_)) => {},
        _ => panic!("expected a not-found error"),
    }
    assert_eq!(manager.get_history(10).len(), 0);
}

#[test]
fn finalize_without_backups_creates_no_record() {
    let mut manager = UndoManager::new();
    let id = b("op-1");
    match manager.finalize_entry(&id, 0, 0, UndoOperationType::Delete, 100) {
        Err(UndoError::NotFound(_)) => {},
        _ => panic!("expected a refusal"),
    }
    assert_eq!(manager.get_history(10).len(), 0);
}

#[test]
fn record_visible_only_after_finalize() {
    let mut manager = UndoManager::new();
    let id = b("op-1");
    manager.backup_file(&id, &b("/d/a"), &b("/backups/op-1/a"), 10);
    manager.backup_file(&id, &b("/d/b"), &b("/backups/op-1/b"), 20);
    assert_eq!(manager.get_history(10).len(), 0);
    assert!(manager.find_record(&id).is_none());
    manager.finalize_entry(&id, 2, 30, UndoOperationType::Delete, 500).unwrap();
    let history = manager.get_history(10);
    assert_eq!(history.len(), 1);
    assert_eq!(history[0].id, id);
    assert_eq!(history[0].files_count, 2);
    assert_eq!(history[0].bytes_freed, 30);
    assert_eq!(history[0].status, UndoStatus::Available);
}

#[test]
fn undo_last_picks_most_recent_available() {
    let mut manager = UndoManager::new();
    for (name, when) in [("op-1", 100u64), ("op-2", 300), ("op-3", 200)] {
        let id = b(name);
        manager.backup_file(&id, &b("/d/x"), &b("/backups/x"), 1);
        manager.finalize_entry(&id, 1, 1, UndoOperationType::Delete, when).unwrap();
    }
    assert_eq!(manager.undo_last().unwrap(), b("op-2"));
    // Restore op-2 fully; then the latest available is op-3.
    let idx = manager.find_record(&b("op-2")).unwrap();
    let outcomes = vec![RestoreOutcome { ok: true, error: Vec::new() }];
    let r = manager.apply_restore_outcomes(idx, &outcomes);
    assert_eq!(r.files_restored, 1);
    assert_eq!(manager.undo_last().unwrap(), b("op-3"));
}

#[test]
fn partial_restore_keeps_operation_available() {
    let mut manager = UndoManager::new();
    let id = b("op-1");
    manager.backup_file(&id, &b("/d/a"), &b("/backups/a"), 10);
    manager.backup_file(&id, &b("/d/b"), &b("/backups/b"), 20);
    manager.finalize_entry(&id, 2, 30, UndoOperationType::Delete, 100).unwrap();

    let idx = manager.find_record(&id).unwrap();
    let outcomes = vec![
        RestoreOutcome { ok: true, error: Vec::new() },
        RestoreOutcome { ok: false, error: b("backup missing") },
    ];
    let r = manager.apply_restore_outcomes(idx, &outcomes);
    assert_eq!(r.files_restored, 1);
    assert_eq!(r.files_failed, 1);
    assert_eq!(r.errors, vec![b("backup missing")]);
    let history = manager.get_history(10);
    assert_eq!(history[0].status, UndoStatus::Available);

    // A retry only plans the file that is still missing.
    let acts = manager.restore_plan(&id).unwrap();
    assert_eq!(acts.len(), 1);
    assert_eq!(acts[0].original_path, b("/d/b"));
    let idx2 = manager.find_record(&id).unwrap();
    let r2 = manager.apply_restore_outcomes(idx2, &vec![RestoreOutcome { ok: true, error: Vec::new() }]);
    assert_eq!(r2.files_restored, 1);
    assert_eq!(manager.get_history(10)[0].status, UndoStatus::Restored);
}

#[test]
fn restoring_a_restored_operation_is_refused() {
    let mut manager = UndoManager::new();
    let id = b("op-1");
    manager.backup_file(&id, &b("/d/a"), &b("/backups/a"), 10);
    manager.finalize_entry(&id, 1, 10, UndoOperationType::Delete, 100).unwrap();
    let idx = manager.find_record(&id).unwrap();
    manager.apply_restore_outcomes(idx, &vec![RestoreOutcome { ok: true, error: Vec::new() }]);
    match manager.restore_plan(&id) {
        Err(UndoError::CannotUndo(_)) => {},
        _ => panic!("expected a cannot-undo error"),
    }
    match manager.restore_plan(&b("no-such-op")) {
        Err(UndoError::NotFound(_)) => {},
        _ => panic!("expected a not-found error"),
    }
}

#[test]
fn expiry_purges_old_records_and_names_their_backups() {
    let mut manager = UndoManager::new();
    const DAY: u64 = 86400;
    let old_id = b("op-old");
    manager.backup_file(&old_id, &b("/d/a"), &b("/backups/old/a"), 10);
    manager.finalize_entry(&old_id, 1, 10, UndoOperationType::Delete, 10 * DAY).unwrap();
    let new_id = b("op-new");
    manager.backup_file(&new_id, &b("/d/b"), &b("/backups/new/b"), 20);
    manager.finalize_entry(&new_id, 1, 20, UndoOperationType::Delete, 40 * DAY).unwrap();

    let (purged_backups, purged_count) = manager.cleanup_old_entries(45 * DAY, 30);
    assert_eq!(purged_count, 1);
    assert_eq!(purged_backups, vec![b("/backups/old/a")]);
    let history = manager.get_history(10);
    assert_eq!(history.len(), 1);
    assert_eq!(history[0].id, new_id);
}

#[test]
fn history_is_newest_first_and_capped() {
    let mut manager = UndoManager::new();
    for (name, when) in [("op-1", 100u64), ("op-2", 200), ("op-3", 300)] {
        let id = b(name);
        manager.backup_file(&id, &b("/d/x"), &b("/backups/x"), 1);
        manager.finalize_entry(&id, 1, 1, UndoOperationType::MoveToTrash, when).unwrap();
    }
    let history = manager.get_history(2);
    assert_eq!(history.len(), 2);
    assert_eq!(history[0].id, b("op-3"));
    assert_eq!(history[1].id, b("op-2"));
}

#[test]
fn delete_then_undo_restores_identical_content() {
    // The full round trip over an in-memory file store: plan a deletion
    // with restore points, execute it (backing each file up first), undo
    // it, and find every original byte back in place.
    let mut fs: HashMap<Vec<u8>, Vec<u8>> = HashMap::new();
    let content_a: Vec<u8> = (0u8..250).collect();
    let content_b = vec![42u8; 1000];
    fs.insert(b("/d/a"), content_a.clone());
    fs.insert(b("/d/b"), content_b.clone());

    let options = DeleteOptions {
        dry_run: false,
        use_trash: false,
        secure_delete: false,
        create_restore_point: true,
        skip_in_use: true,
    };
    let deleter = SafeDeleter::new(options, Vec::new());
    let targets: Vec<FileSpec> = vec![
        FileSpec { path: b("/d/a"), size: content_a.len() as u64, exists: true, in_use: false },
        FileSpec { path: b("/d/b"), size: content_b.len() as u64, exists: true, in_use: false },
    ];
    let plan = deleter.plan(&targets);

    let mut undo = UndoManager::new();
    let mut outcomes = Vec::new();
    for item in &plan.items {
        assert_eq!(item.decision, DeleteDecision::Remove(true, DeleteMethod::Plain));
        let backup_path = [b("/backups/"), item.path.clone()].concat();
        let content = fs.get(&item.path).unwrap().clone();
        fs.insert(backup_path.clone(), content);
        undo.backup_file(&plan.operation_id, &item.path, &backup_path, item.size);
        fs.remove(&item.path);
        outcomes.push(FileOutcome { backed_up: true, removed: true, error: Vec::new() });
    }
    assert!(!fs.contains_key(&b("/d/a")));
    assert!(!fs.contains_key(&b("/d/b")));

    let (result, finalize) = deleter.summarize(&plan, &outcomes);
    let finalize = finalize.unwrap();
    // One backup record per successfully deleted file.
    assert_eq!(finalize.files_count, result.files_processed);
    assert_eq!(finalize.files_count, 2);
    assert_eq!(result.bytes_freed, 1250);
    undo.finalize_entry(
        &plan.operation_id,
        finalize.files_count,
        finalize.bytes_freed,
        UndoOperationType::Delete,
        1000,
    )
    .unwrap();

    let acts = undo.restore_plan(&plan.operation_id).unwrap();
    assert_eq!(acts.len(), 2);
    let mut restore_outcomes = Vec::new();
    for act in &acts {
        let content = fs.get(&act.backup_path).unwrap().clone();
        fs.insert(act.original_path.clone(), content);
        fs.remove(&act.backup_path);
        restore_outcomes.push(RestoreOutcome { ok: true, error: Vec::new() });
    }
    let idx = undo.find_record(&plan.operation_id).unwrap();
    let undo_result = undo.apply_restore_outcomes(idx, &restore_outcomes);
    assert_eq!(undo_result.files_restored, 2);
    assert_eq!(undo_result.files_failed, 0);

    assert_eq!(fs.get(&b("/d/a")), Some(&content_a));
    assert_eq!(fs.get(&b("/d/b")), Some(&content_b));
    assert_eq!(undo.get_history(10)[0].status, UndoStatus::Restored);
}

#[test]
fn history_is_trimmed_to_its_bound() {
    let mut manager = UndoManager::new();
    for i in 0..105u64 {
        let id = format!("op-{}", i).into_bytes();
        manager.backup_file(&id, &b("/d/x"), &b("/backups/x"), 1);
        manager.finalize_entry(&id, 1, 1, UndoOperationType::Delete, i).unwrap();
    }
    let history = manager.get_history(200);
    assert_eq!(history.len(), 100);
    assert_eq!(history[0].id, b("op-104"));
    assert_eq!(history[99].id, b("op-5"));
    assert!(manager.find_record(&b("op-0")).is_none());
    assert!(manager.find_record(&b("op-4")).is_none());
    assert!(manager.find_record(&b("op-5")).is_some());
}
