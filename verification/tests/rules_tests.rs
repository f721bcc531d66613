use systemsweep::bytes::{bytes_eq, contains_bytes, copy_bytes, has_prefix, has_suffix, lower_bytes};
use systemsweep::paths::{extension, file_name, is_hidden_file};
use systemsweep::rules::{CleanupRule, FileCategory, RiskLevel, RuleEngine, check_age_and_size,
    glob_match, matches_rule};

fn b(s: &str) -> Vec<u8> {
    s.as_bytes().to_vec()
}

fn rule_with_extension(ext: &str, category: FileCategory) -> CleanupRule {
    CleanupRule {
        id: b("r1"),
        name: b("rule one"),
        enabled: true,
        category,
        patterns: Vec::new(),
        extensions: vec![b(ext)],
        directories: Vec::new(),
        min_age_days: None,
        min_size_bytes: None,
        max_size_bytes: None,
        description: b("test rule"),
        risk_level: RiskLevel::Safe,
    }
}

#[test]
fn lowercasing_and_matching_helpers() {
    assert_eq!(lower_bytes(&b("AbC-7/x")), b("abc-7/x"));
    assert!(bytes_eq(&b("same"), &b("same")));
    assert!(!bytes_eq(&b("same"), &b("sam")));
    assert!(has_prefix(&b("/usr/lib"), &b("/usr")));
    assert!(!has_prefix(&b("/us"), &b("/usr")));
    assert!(has_suffix(&b("report.log"), &b(".log")));
    assert!(contains_bytes(&b("path/node_modules/x"), &b("node_modules")));
    assert!(!contains_bytes(&b("path/node/x"), &b("node_modules")));
    assert!(contains_bytes(&b("anything"), &b("")));
}

#[test]
fn path_splitting() {
    assert_eq!(file_name(&b("/home/user/a.txt")), b("a.txt"));
    assert_eq!(file_name(&b("C:\\temp\\b.log")), b("b.log"));
    assert_eq!(file_name(&b("plain")), b("plain"));
    assert_eq!(file_name(&b("/dir/")), b(""));
    assert_eq!(extension(&b("a.tar.gz")), Some(b("gz")));
    assert_eq!(extension(&b("noext")), None);
    assert_eq!(extension(&b(".bashrc")), None);
    assert_eq!(extension(&b(".a.b")), Some(b("b")));
    assert!(is_hidden_file(&b("/home/.config")));
    assert!(!is_hidden_file(&b("/home/config")));
}

#[test]
fn glob_match_forms() {
    assert!(glob_match(&b("report.tmp"), &b("*.tmp")));
    assert!(!glob_match(&b("report.tmp2"), &b("*.tmp")));
    assert!(glob_match(&b("~lockfile"), &b("~*")));
    assert!(glob_match(&b("a-cache-b"), &b("*cache*")));
    assert!(glob_match(&b("thumbs.db"), &b("thumbs.db")));
    assert!(!glob_match(&b("thumbs_db"), &b("thumbs.db")));
    assert!(glob_match(&b("anything"), &b("*")));
}

#[test]
fn age_and_size_constraints() {
    let mut rule = rule_with_extension("log", FileCategory::LogFile);
    rule.min_age_days = Some(30);
    rule.min_size_bytes = Some(1024);
    let now: u64 = 100 * 86400;
    let old_enough: u64 = now - 31 * 86400;
    let too_young: u64 = now - 2 * 86400;
    assert!(check_age_and_size(&rule, 2048, old_enough, now));
    assert!(!check_age_and_size(&rule, 2048, too_young, now));
    assert!(!check_age_and_size(&rule, 512, old_enough, now));
    rule.max_size_bytes = Some(4096);
    assert!(!check_age_and_size(&rule, 8192, old_enough, now));
}

#[test]
fn rule_matching_is_case_insensitive() {
    let rule = rule_with_extension("tmp", FileCategory::TempFile);
    let now: u64 = 50 * 86400;
    assert!(matches_rule(&rule, &b("/Work/REPORT.TMP"), 10, now, now));
    assert!(!matches_rule(&rule, &b("/Work/report.doc"), 10, now, now));
}

#[test]
fn directory_substring_matching() {
    let mut rule = rule_with_extension("zzz", FileCategory::CacheFile);
    rule.extensions = Vec::new();
    rule.directories = vec![b("/Cache/")];
    let now: u64 = 50 * 86400;
    assert!(matches_rule(&rule, &b("/home/u/Cache/app/f.bin"), 10, now, now));
    assert!(!matches_rule(&rule, &b("/home/u/data/f.bin"), 10, now, now));
}

#[test]
fn first_enabled_match_wins() {
    let first = rule_with_extension("dat", FileCategory::TempFile);
    let mut second = rule_with_extension("dat", FileCategory::LogFile);
    second.id = b("r2");
    second.description = b("second rule");
    let engine = RuleEngine::new(vec![first, second]);
    let now: u64 = 10 * 86400;
    let c = engine.categorize(&b("/x/y.dat"), 5, now, now);
    assert!(c.eligible);
    assert_eq!(c.category, FileCategory::TempFile);
    assert_eq!(c.reason.unwrap(), b("test rule"));
}

#[test]
fn disabled_rules_never_match() {
    let mut rule = rule_with_extension("dat", FileCategory::TempFile);
    rule.enabled = false;
    let engine = RuleEngine::new(vec![rule]);
    let now: u64 = 10 * 86400;
    let c = engine.categorize(&b("/x/y.dat"), 5, now, now);
    assert!(!c.eligible);
    assert_eq!(c.category, FileCategory::Unknown);
    assert_eq!(c.risk_level, RiskLevel::Low);
    assert!(c.reason.is_none());
}

#[test]
fn default_rules_shape() {
    let rules = CleanupRule::default_rules(
        vec![b("/tmp")],
        Vec::new(),
        Vec::new(),
        Vec::new(),
        Vec::new(),
    );
    assert_eq!(rules.len(), 8);
    assert_eq!(rules[0].id, b("temp_files"));
    assert!(rules[0].enabled);
    assert_eq!(rules[0].risk_level, RiskLevel::Safe);
    assert_eq!(rules[1].directories, vec![b("/tmp")]);
    assert_eq!(rules[3].id, b("log_files"));
    assert_eq!(rules[3].min_age_days, Some(30));
    assert_eq!(rules[3].min_size_bytes, Some(1024 * 1024));
    assert!(!rules[6].enabled);
    assert!(!rules[7].enabled);
    assert_eq!(rules[6].category, FileCategory::LargeFile);
    assert_eq!(rules[7].category, FileCategory::UserDownloads);
    assert_eq!(rules[6].risk_level, RiskLevel::Medium);
}

#[test]
fn reasons_copy_the_rule_description() {
    let rule = rule_with_extension("tmp", FileCategory::TempFile);
    let engine = RuleEngine::new(vec![rule]);
    let now: u64 = 10 * 86400;
    let c = engine.categorize(&b("/x/y.tmp"), 5, now, now);
    let reason = c.reason.unwrap();
    assert_eq!(copy_bytes(&reason), b("test rule"));
}
