use systemsweep::duplicates::{CandidateFile, DuplicateDetector, DuplicateDetectorOptions};
use systemsweep::scanner::{CancelFlag, CleanerError};

fn b(s: &str) -> Vec<u8> {
    s.as_bytes().to_vec()
}

fn candidate(path: &str, content: &[u8]) -> CandidateFile {
    CandidateFile { path: b(path), content: content.to_vec() }
}

fn small_options() -> DuplicateDetectorOptions {
    DuplicateDetectorOptions { min_size: 1, max_size: None, quick_hash_size: 4096 }
}

#[test]
fn identical_pair_forms_one_group() {
    // Two files, identical 50-byte content, same size: one group with two
    // members wasting exactly 50 bytes.
    let content = [7u8; 50];
    let files = vec![candidate("/d/a", &content), candidate("/d/b", &content)];
    let detector = DuplicateDetector::new(small_options());
    let cancel = CancelFlag::new();
    let r = detector.find_duplicates(&files, &cancel).unwrap();
    assert_eq!(r.groups.len(), 1);
    assert_eq!(r.groups[0].files.len(), 2);
    assert_eq!(r.groups[0].files[0], b("/d/a"));
    assert_eq!(r.groups[0].files[1], b("/d/b"));
    assert_eq!(r.groups[0].size, 50);
    assert_eq!(r.groups[0].total_wasted_space, 50);
    assert_eq!(r.total_duplicate_files, 2);
    assert_eq!(r.total_duplicates, 1);
    assert_eq!(r.total_wasted_space, 50);
    // The hash is a rendered 256-bit digest, not the content handed back.
    assert_eq!(r.groups[0].hash.len(), 64);
    assert!(r.groups[0].hash.iter().all(|c| c.is_ascii_hexdigit()));
    assert_ne!(r.groups[0].hash, content.to_vec());
}

#[test]
fn detection_is_idempotent() {
    let c1 = [1u8; 2000];
    let c2 = [2u8; 2000];
    let files = vec![
        candidate("/d/a", &c1),
        candidate("/d/b", &c2),
        candidate("/d/c", &c1),
        candidate("/d/d", &c2),
        candidate("/d/e", &c1),
    ];
    let detector = DuplicateDetector::new(small_options());
    let cancel = CancelFlag::new();
    let r1 = detector.find_duplicates(&files, &cancel).unwrap();
    let r2 = detector.find_duplicates(&files, &cancel).unwrap();
    assert_eq!(r1.groups.len(), r2.groups.len());
    for (g1, g2) in r1.groups.iter().zip(r2.groups.iter()) {
        assert_eq!(g1.hash, g2.hash);
        assert_eq!(g1.size, g2.size);
        assert_eq!(g1.files, g2.files);
        assert_eq!(g1.total_wasted_space, g2.total_wasted_space);
    }
    assert_eq!(r1.total_duplicate_files, r2.total_duplicate_files);
    assert_eq!(r1.total_wasted_space, r2.total_wasted_space);
}

#[test]
fn distinct_content_of_equal_size_never_groups() {
    // Same size, same prefix: the full digest still separates them.
    let mut c1 = vec![0u8; 8192];
    let mut c2 = vec![0u8; 8192];
    c1[8191] = 1;
    c2[8191] = 2;
    let shared = c1.clone();
    let files = vec![
        candidate("/d/a", &c1),
        candidate("/d/b", &c2),
        candidate("/d/c", &shared),
    ];
    let detector = DuplicateDetector::new(small_options());
    let cancel = CancelFlag::new();
    let r = detector.find_duplicates(&files, &cancel).unwrap();
    assert_eq!(r.groups.len(), 1);
    assert_eq!(r.groups[0].files, vec![b("/d/a"), b("/d/c")]);
}

#[test]
fn groups_sorted_by_wasted_space() {
    let big = vec![5u8; 3000];
    let small = vec![6u8; 1500];
    let files = vec![
        candidate("/d/s1", &small),
        candidate("/d/s2", &small),
        candidate("/d/b1", &big),
        candidate("/d/b2", &big),
        candidate("/d/b3", &big),
    ];
    let detector = DuplicateDetector::new(small_options());
    let cancel = CancelFlag::new();
    let r = detector.find_duplicates(&files, &cancel).unwrap();
    assert_eq!(r.groups.len(), 2);
    assert_eq!(r.groups[0].total_wasted_space, 6000);
    assert_eq!(r.groups[1].total_wasted_space, 1500);
    assert_eq!(r.total_wasted_space, 7500);
    assert_eq!(r.total_duplicate_files, 5);
    assert_eq!(r.total_duplicates, 3);
}

#[test]
fn size_floor_excludes_tiny_files() {
    let tiny = [9u8; 10];
    let files = vec![candidate("/d/a", &tiny), candidate("/d/b", &tiny)];
    let detector = DuplicateDetector::new(DuplicateDetectorOptions::default());
    let cancel = CancelFlag::new();
    let r = detector.find_duplicates(&files, &cancel).unwrap();
    assert_eq!(r.groups.len(), 0);
    assert_eq!(r.total_duplicate_files, 0);
    assert_eq!(r.total_duplicates, 0);
}

#[test]
fn default_options_shape() {
    let o = DuplicateDetectorOptions::default();
    assert_eq!(o.min_size, 1024);
    assert_eq!(o.max_size, None);
    assert_eq!(o.quick_hash_size, 4096);
}

#[test]
fn cancelled_detection_returns_error() {
    let content = [7u8; 2048];
    let files = vec![candidate("/d/a", &content), candidate("/d/b", &content)];
    let detector = DuplicateDetector::new(small_options());
    let cancel = CancelFlag::new();
    cancel.cancel();
    let r = detector.find_duplicates(&files, &cancel);
    assert_eq!(r.unwrap_err(), CleanerError::Cancelled);
}

#[test]
fn empty_search_succeeds_even_with_flag_set() {
    // With no candidates there is no cancellation poll: the search is owed
    // success whatever the flag holds.
    let detector = DuplicateDetector::new(DuplicateDetectorOptions::default());
    let cancel = CancelFlag::new();
    cancel.cancel();
    let r = detector.find_duplicates(&Vec::new(), &cancel).unwrap();
    assert!(r.groups.is_empty());
    assert_eq!(r.total_duplicate_files, 0);
    assert_eq!(r.total_duplicates, 0);
    assert_eq!(r.total_wasted_space, 0);
}
