//! Cleanup rules and the classifier: an ordered list of rules, each matching
//! files by extension, file-name pattern or directory substring, gated by age
//! and size constraints; the first enabled matching rule decides a file's
//! category, risk level and eligibility.

use vstd::prelude::*;
use vstd::string::{StrSliceExecFns, StringSliceAdditionalSpecFns};

use crate::bytes::{bytes_eq, contains_bytes, copy_bytes, has_prefix, has_suffix, lower_bytes,
    lower_seq, seq_contains, seq_ends_with, seq_starts_with, subvec};
use crate::paths::{extension, extension_of, file_name, file_name_of};

verus! {

/// What kind of cleanup target a file is.
#[derive(Clone, Copy, Debug, PartialEq, Eq, Structural)]
pub enum FileCategory {
    TempFile,
    CacheFile,
    LogFile,
    Duplicate,
    LargeFile,
    OldFile,
    BrowserCache,
    SystemJunk,
    UserDownloads,
    Thumbnail,
    RecycleBin,
    Unknown,
}

/// How likely a rule's matches are to be data the user still wants.
#[derive(Clone, Copy, Debug, PartialEq, Eq, Structural)]
pub enum RiskLevel {
    Safe,
    Low,
    Medium,
    High,
}

/// One cleanup rule: matching predicates plus age and size constraints.
/// Rules are ordered; the first enabled match wins.
#[derive(Debug)]
pub struct CleanupRule {
    pub id: Vec<u8>,
    pub name: Vec<u8>,
    pub enabled: bool,
    pub category: FileCategory,
    pub patterns: Vec<Vec<u8>>,
    pub extensions: Vec<Vec<u8>>,
    pub directories: Vec<Vec<u8>>,
    pub min_age_days: Option<u32>,
    pub min_size_bytes: Option<u64>,
    pub max_size_bytes: Option<u64>,
    pub description: Vec<u8>,
    pub risk_level: RiskLevel,
}

/// A classifier verdict for one file.
#[derive(Debug)]
pub struct Classification {
    pub category: FileCategory,
    pub risk_level: RiskLevel,
    pub eligible: bool,
    pub reason: Option<Vec<u8>>,
}

/// Age of a file in seconds: how far `modified` lies before `now`
/// (zero for a modification time in the future).
pub open spec fn spec_age_secs(modified: u64, now: u64) -> int {
    if now >= modified {
        now - modified
    } else {
        0
    }
}

/// A rule's numeric constraints hold of a file: minimum size, maximum size,
/// and minimum age in days, each only if the rule sets it.
pub open spec fn spec_constraints_ok(rule: CleanupRule, size: u64, modified: u64, now: u64) -> bool {
    &&& match rule.min_size_bytes {
        Some(m) => size >= m,
        None => true,
    }
    &&& match rule.max_size_bytes {
        Some(m) => size <= m,
        None => true,
    }
    &&& match rule.min_age_days {
        Some(d) => spec_age_secs(modified, now) >= d * 86400,
        None => true,
    }
}

/// A file-name pattern matches a (lowercased) name. A pattern enclosed in
/// `*` matches as a substring, a leading `*` as a suffix, a trailing `*` as
/// a prefix; a pattern without wildcards must equal the whole name.
pub open spec fn spec_glob_match(name: Seq<u8>, pat: Seq<u8>) -> bool {
    if pat.len() >= 2 && pat[0] == 42u8 && pat[pat.len() - 1] == 42u8 {
        seq_contains(name, pat.subrange(1, pat.len() - 1))
    } else if pat.len() >= 1 && pat[0] == 42u8 {
        seq_ends_with(name, pat.subrange(1, pat.len() as int))
    } else if pat.len() >= 1 && pat[pat.len() - 1] == 42u8 {
        seq_starts_with(name, pat.subrange(0, pat.len() - 1))
    } else {
        name == pat
    }
}

/// The rule's extension list (lowercased) holds the file's extension,
/// taken from the lowercased path.
pub open spec fn spec_ext_match(rule: CleanupRule, path: Seq<u8>) -> bool {
    rule.extensions@.len() > 0 && match extension_of(file_name_of(lower_seq(path))) {
        Some(e) => exists|i: int|
            0 <= i < rule.extensions@.len() && lower_seq(#[trigger] rule.extensions@[i]@) == e,
        None => false,
    }
}

/// Some pattern of the rule (lowercased) matches the lowercased file name.
pub open spec fn spec_pattern_match(rule: CleanupRule, path: Seq<u8>) -> bool {
    exists|i: int|
        0 <= i < rule.patterns@.len() && spec_glob_match(
            file_name_of(lower_seq(path)),
            lower_seq(#[trigger] rule.patterns@[i]@),
        )
}

/// Some directory string of the rule (lowercased) occurs as a substring of
/// the lowercased full path.
pub open spec fn spec_dir_match(rule: CleanupRule, path: Seq<u8>) -> bool {
    exists|i: int|
        0 <= i < rule.directories@.len() && seq_contains(
            lower_seq(path),
            lower_seq(#[trigger] rule.directories@[i]@),
        )
}

/// A rule matches a file: any of its predicates holds, and all of its
/// numeric constraints hold.
pub open spec fn spec_rule_matches(rule: CleanupRule, path: Seq<u8>, size: u64, modified: u64, now: u64) -> bool {
    (spec_ext_match(rule, path) || spec_pattern_match(rule, path) || spec_dir_match(rule, path))
        && spec_constraints_ok(rule, size, modified, now)
}

/// An enabled rule matches the file.
pub open spec fn spec_rule_hits(rule: CleanupRule, path: Seq<u8>, size: u64, modified: u64, now: u64) -> bool {
    rule.enabled && spec_rule_matches(rule, path, size, modified, now)
}

/// The verdict `r` is what the ordered rule list says of the file: the first
/// enabled matching rule's category, risk level and description with
/// eligibility, or `Unknown`/ineligible when no enabled rule matches.
pub open spec fn spec_classification(
    rules: Seq<CleanupRule>,
    path: Seq<u8>,
    size: u64,
    modified: u64,
    now: u64,
    r: Classification,
) -> bool {
    if exists|i: int| 0 <= i < rules.len() && spec_rule_hits(#[trigger] rules[i], path, size, modified, now) {
        exists|i: int|
            {
                &&& 0 <= i < rules.len()
                &&& spec_rule_hits(#[trigger] rules[i], path, size, modified, now)
                &&& forall|j: int| 0 <= j < i ==> !spec_rule_hits(#[trigger] rules[j], path, size, modified, now)
                &&& r.category == rules[i].category
                &&& r.risk_level == rules[i].risk_level
                &&& r.eligible == true
                &&& r.reason matches Some(d) && d@ == rules[i].description@
            }
    } else {
        &&& r.category == FileCategory::Unknown
        &&& r.risk_level == RiskLevel::Low
        &&& r.eligible == false
        &&& r.reason is None
    }
}

/// A file-name pattern matches a (lowercased) name.
pub fn glob_match(name: &Vec<u8>, pat: &Vec<u8>) -> (r: bool)
    ensures
        r == spec_glob_match(name@, pat@),
{
    if pat.len() >= 2 && pat[0] == 42u8 && pat[pat.len() - 1] == 42u8 {
        let middle = subvec(pat, 1, pat.len() - 1);
        contains_bytes(name, &middle)
    } else if pat.len() >= 1 && pat[0] == 42u8 {
        let tail = subvec(pat, 1, pat.len());
        has_suffix(name, &tail)
    } else if pat.len() >= 1 && pat[pat.len() - 1] == 42u8 {
        let head = subvec(pat, 0, pat.len() - 1);
        has_prefix(name, &head)
    } else {
        bytes_eq(name, pat)
    }
}

/// A rule's numeric constraints hold of a file.
pub fn check_age_and_size(rule: &CleanupRule, size: u64, modified: u64, now: u64) -> (r: bool)
    ensures
        r == spec_constraints_ok(*rule, size, modified, now),
{
    if let Some(m) = rule.min_size_bytes {
        if size < m {
            return false;
        }
    }
    if let Some(m) = rule.max_size_bytes {
        if size > m {
            return false;
        }
    }
    if let Some(d) = rule.min_age_days {
        let age: u64 = if now >= modified {
            now - modified
        } else {
            0
        };
        let threshold: u64 = (d as u64) * 86400;
        if age < threshold {
            return false;
        }
    }
    true
}

/// A rule matches a file: any of extension, file-name pattern or directory
/// substring, and all numeric constraints.
pub fn matches_rule(rule: &CleanupRule, path: &Vec<u8>, size: u64, modified: u64, now: u64) -> (r: bool)
    ensures
        r == spec_rule_matches(*rule, path@, size, modified, now),
{
    if !check_age_and_size(rule, size, modified, now) {
        return false;
    }
    let lower_path = lower_bytes(path);
    let name = file_name(&lower_path);

    if rule.extensions.len() > 0 {
        if let Some(e) = extension(&name) {
            let mut i: usize = 0;
            while i < rule.extensions.len()
                invariant
                    i <= rule.extensions@.len(),
                    rule.extensions@.len() > 0,
                    spec_constraints_ok(*rule, size, modified, now),
                    extension_of(file_name_of(lower_seq(path@))) == Some(e@),
                    forall|j: int| 0 <= j < i ==> lower_seq(#[trigger] rule.extensions@[j]@) != e@,
                decreases rule.extensions@.len() - i,
            {
                let le = lower_bytes(&rule.extensions[i]);
                if bytes_eq(&le, &e) {
                    return true;
                }
                i = i + 1;
            }
        }
    }

    let mut i: usize = 0;
    while i < rule.patterns.len()
        invariant
            i <= rule.patterns@.len(),
            spec_constraints_ok(*rule, size, modified, now),
            name@ == file_name_of(lower_seq(path@)),
            forall|j: int| 0 <= j < i ==> !spec_glob_match(
                file_name_of(lower_seq(path@)),
                lower_seq(#[trigger] rule.patterns@[j]@),
            ),
        decreases rule.patterns@.len() - i,
    {
        let lp = lower_bytes(&rule.patterns[i]);
        if glob_match(&name, &lp) {
            return true;
        }
        i = i + 1;
    }

    let mut i: usize = 0;
    while i < rule.directories.len()
        invariant
            i <= rule.directories@.len(),
            spec_constraints_ok(*rule, size, modified, now),
            lower_path@ == lower_seq(path@),
            forall|j: int| 0 <= j < i ==> !seq_contains(
                lower_seq(path@),
                lower_seq(#[trigger] rule.directories@[j]@),
            ),
        decreases rule.directories@.len() - i,
    {
        let ld = lower_bytes(&rule.directories[i]);
        if contains_bytes(&lower_path, &ld) {
            return true;
        }
        i = i + 1;
    }

    false
}

impl CleanupRule {
    /// The rule set that ships with the engine: temporary files, system temp
    /// directories, caches, logs, browser caches and thumbnails enabled, and
    /// two opt-in rules (large files, old downloads) disabled. The directory
    /// lists are platform-dependent, so the caller supplies them.
    pub fn default_rules(
        temp_dirs: Vec<Vec<u8>>,
        cache_dirs: Vec<Vec<u8>>,
        browser_cache_dirs: Vec<Vec<u8>>,
        thumbnail_dirs: Vec<Vec<u8>>,
        download_dirs: Vec<Vec<u8>>,
    ) -> (r: Vec<CleanupRule>)
        ensures
            r@.len() == 8,
            r@[0].id@ == "temp_files".spec_bytes(),
            r@[0].enabled,
            r@[0].category == FileCategory::TempFile,
            r@[0].risk_level == RiskLevel::Safe,
            r@[0].patterns@.len() == 3,
            r@[0].patterns@[0]@ == "*.tmp".spec_bytes(),
            r@[0].patterns@[1]@ == "*.temp".spec_bytes(),
            r@[0].patterns@[2]@ == "~*".spec_bytes(),
            r@[0].extensions@.len() == 3,
            r@[0].extensions@[0]@ == "tmp".spec_bytes(),
            r@[0].extensions@[1]@ == "temp".spec_bytes(),
            r@[0].extensions@[2]@ == "bak".spec_bytes(),
            r@[0].directories@.len() == 0,
            r@[0].min_age_days is None,
            r@[0].min_size_bytes is None,
            r@[0].max_size_bytes is None,
            r@[1].id@ == "system_temp".spec_bytes(),
            r@[1].enabled,
            r@[1].category == FileCategory::TempFile,
            r@[1].risk_level == RiskLevel::Safe,
            r@[1].patterns@.len() == 0,
            r@[1].extensions@.len() == 0,
            r@[1].directories == temp_dirs,
            r@[1].min_age_days == Some(1u32),
            r@[1].min_size_bytes is None,
            r@[1].max_size_bytes is None,
            r@[2].id@ == "cache_files".spec_bytes(),
            r@[2].enabled,
            r@[2].category == FileCategory::CacheFile,
            r@[2].risk_level == RiskLevel::Safe,
            r@[2].patterns@.len() == 1,
            r@[2].patterns@[0]@ == "*.cache".spec_bytes(),
            r@[2].extensions@.len() == 1,
            r@[2].extensions@[0]@ == "cache".spec_bytes(),
            r@[2].directories == cache_dirs,
            r@[2].min_age_days == Some(7u32),
            r@[2].min_size_bytes is None,
            r@[2].max_size_bytes is None,
            r@[3].id@ == "log_files".spec_bytes(),
            r@[3].enabled,
            r@[3].category == FileCategory::LogFile,
            r@[3].risk_level == RiskLevel::Low,
            r@[3].patterns@.len() == 2,
            r@[3].patterns@[0]@ == "*.log".spec_bytes(),
            r@[3].patterns@[1]@ == "*.log.*".spec_bytes(),
            r@[3].extensions@.len() == 1,
            r@[3].extensions@[0]@ == "log".spec_bytes(),
            r@[3].directories@.len() == 0,
            r@[3].min_age_days == Some(30u32),
            r@[3].min_size_bytes == Some(1048576u64),
            r@[3].max_size_bytes is None,
            r@[4].id@ == "browser_cache".spec_bytes(),
            r@[4].enabled,
            r@[4].category == FileCategory::BrowserCache,
            r@[4].risk_level == RiskLevel::Safe,
            r@[4].patterns@.len() == 0,
            r@[4].extensions@.len() == 0,
            r@[4].directories == browser_cache_dirs,
            r@[4].min_age_days == Some(7u32),
            r@[4].min_size_bytes is None,
            r@[4].max_size_bytes is None,
            r@[5].id@ == "thumbnails".spec_bytes(),
            r@[5].enabled,
            r@[5].category == FileCategory::Thumbnail,
            r@[5].risk_level == RiskLevel::Safe,
            r@[5].patterns@.len() == 2,
            r@[5].patterns@[0]@ == "thumbs.db".spec_bytes(),
            r@[5].patterns@[1]@ == "Thumbs.db".spec_bytes(),
            r@[5].extensions@.len() == 0,
            r@[5].directories == thumbnail_dirs,
            r@[5].min_age_days is None,
            r@[5].min_size_bytes is None,
            r@[5].max_size_bytes is None,
            r@[6].id@ == "large_files".spec_bytes(),
            !r@[6].enabled,
            r@[6].category == FileCategory::LargeFile,
            r@[6].risk_level == RiskLevel::Medium,
            r@[6].patterns@.len() == 0,
            r@[6].extensions@.len() == 0,
            r@[6].directories@.len() == 0,
            r@[6].min_age_days == Some(90u32),
            r@[6].min_size_bytes == Some(104857600u64),
            r@[6].max_size_bytes is None,
            r@[7].id@ == "old_downloads".spec_bytes(),
            !r@[7].enabled,
            r@[7].category == FileCategory::UserDownloads,
            r@[7].risk_level == RiskLevel::Medium,
            r@[7].patterns@.len() == 0,
            r@[7].extensions@.len() == 0,
            r@[7].directories == download_dirs,
            r@[7].min_age_days == Some(90u32),
            r@[7].min_size_bytes == Some(10485760u64),
            r@[7].max_size_bytes is None,
    {
        let mut rules: Vec<CleanupRule> = Vec::new();

        let mut temp_patterns: Vec<Vec<u8>> = Vec::new();
        temp_patterns.push("*.tmp".as_bytes_vec());
        temp_patterns.push("*.temp".as_bytes_vec());
        temp_patterns.push("~*".as_bytes_vec());
        let mut temp_extensions: Vec<Vec<u8>> = Vec::new();
        temp_extensions.push("tmp".as_bytes_vec());
        temp_extensions.push("temp".as_bytes_vec());
        temp_extensions.push("bak".as_bytes_vec());
        rules.push(CleanupRule {
            id: "temp_files".as_bytes_vec(),
            name: "Temporary Files".as_bytes_vec(),
            enabled: true,
            category: FileCategory::TempFile,
            patterns: temp_patterns,
            extensions: temp_extensions,
            directories: Vec::new(),
            min_age_days: None,
            min_size_bytes: None,
            max_size_bytes: None,
            description: "Remove temporary files created by applications".as_bytes_vec(),
            risk_level: RiskLevel::Safe,
        });

        rules.push(CleanupRule {
            id: "system_temp".as_bytes_vec(),
            name: "System Temp Folders".as_bytes_vec(),
            enabled: true,
            category: FileCategory::TempFile,
            patterns: Vec::new(),
            extensions: Vec::new(),
            directories: temp_dirs,
            min_age_days: Some(1),
            min_size_bytes: None,
            max_size_bytes: None,
            description: "Clean system temporary directories".as_bytes_vec(),
            risk_level: RiskLevel::Safe,
        });

        let mut cache_patterns: Vec<Vec<u8>> = Vec::new();
        cache_patterns.push("*.cache".as_bytes_vec());
        let mut cache_extensions: Vec<Vec<u8>> = Vec::new();
        cache_extensions.push("cache".as_bytes_vec());
        rules.push(CleanupRule {
            id: "cache_files".as_bytes_vec(),
            name: "Cache Files".as_bytes_vec(),
            enabled: true,
            category: FileCategory::CacheFile,
            patterns: cache_patterns,
            extensions: cache_extensions,
            directories: cache_dirs,
            min_age_days: Some(7),
            min_size_bytes: None,
            max_size_bytes: None,
            description: "Clear application caches".as_bytes_vec(),
            risk_level: RiskLevel::Safe,
        });

        let mut log_patterns: Vec<Vec<u8>> = Vec::new();
        log_patterns.push("*.log".as_bytes_vec());
        log_patterns.push("*.log.*".as_bytes_vec());
        let mut log_extensions: Vec<Vec<u8>> = Vec::new();
        log_extensions.push("log".as_bytes_vec());
        rules.push(CleanupRule {
            id: "log_files".as_bytes_vec(),
            name: "Log Files".as_bytes_vec(),
            enabled: true,
            category: FileCategory::LogFile,
            patterns: log_patterns,
            extensions: log_extensions,
            directories: Vec::new(),
            min_age_days: Some(30),
            min_size_bytes: Some(1048576),
            max_size_bytes: None,
            description: "Remove old log files".as_bytes_vec(),
            risk_level: RiskLevel::Low,
        });

        rules.push(CleanupRule {
            id: "browser_cache".as_bytes_vec(),
            name: "Browser Cache".as_bytes_vec(),
            enabled: true,
            category: FileCategory::BrowserCache,
            patterns: Vec::new(),
            extensions: Vec::new(),
            directories: browser_cache_dirs,
            min_age_days: Some(7),
            min_size_bytes: None,
            max_size_bytes: None,
            description: "Clear browser cached data".as_bytes_vec(),
            risk_level: RiskLevel::Safe,
        });

        let mut thumb_patterns: Vec<Vec<u8>> = Vec::new();
        thumb_patterns.push("thumbs.db".as_bytes_vec());
        thumb_patterns.push("Thumbs.db".as_bytes_vec());
        rules.push(CleanupRule {
            id: "thumbnails".as_bytes_vec(),
            name: "Thumbnail Cache".as_bytes_vec(),
            enabled: true,
            category: FileCategory::Thumbnail,
            patterns: thumb_patterns,
            extensions: Vec::new(),
            directories: thumbnail_dirs,
            min_age_days: None,
            min_size_bytes: None,
            max_size_bytes: None,
            description: "Remove thumbnail cache files".as_bytes_vec(),
            risk_level: RiskLevel::Safe,
        });

        rules.push(CleanupRule {
            id: "large_files".as_bytes_vec(),
            name: "Large Files".as_bytes_vec(),
            enabled: false,
            category: FileCategory::LargeFile,
            patterns: Vec::new(),
            extensions: Vec::new(),
            directories: Vec::new(),
            min_age_days: Some(90),
            min_size_bytes: Some(104857600),
            max_size_bytes: None,
            description: "Find large files that have not been accessed".as_bytes_vec(),
            risk_level: RiskLevel::Medium,
        });

        rules.push(CleanupRule {
            id: "old_downloads".as_bytes_vec(),
            name: "Old Downloads".as_bytes_vec(),
            enabled: false,
            category: FileCategory::UserDownloads,
            patterns: Vec::new(),
            extensions: Vec::new(),
            directories: download_dirs,
            min_age_days: Some(90),
            min_size_bytes: Some(10485760),
            max_size_bytes: None,
            description: "Find old files in download folders".as_bytes_vec(),
            risk_level: RiskLevel::Medium,
        });

        rules
    }
}

/// The rule engine: an ordered list of cleanup rules.
pub struct RuleEngine {
    pub rules: Vec<CleanupRule>,
}

impl RuleEngine {
    /// Build an engine over the given ordered rules.
    pub fn new(rules: Vec<CleanupRule>) -> (r: Self)
        ensures
            r.rules == rules,
    {
        RuleEngine { rules }
    }

    /// Classify one file by path, size and modification time against the
    /// rules, first enabled match deciding.
    pub fn categorize(&self, path: &Vec<u8>, size: u64, modified: u64, now: u64) -> (r: Classification)
        ensures
            spec_classification(self.rules@, path@, size, modified, now, r),
    {
        let mut i: usize = 0;
        while i < self.rules.len()
            invariant
                i <= self.rules@.len(),
                forall|j: int| 0 <= j < i ==> !spec_rule_hits(#[trigger] self.rules@[j], path@, size, modified, now),
            decreases self.rules@.len() - i,
        {
            let rule = &self.rules[i];
            if rule.enabled && matches_rule(rule, path, size, modified, now) {
                return Classification {
                    category: rule.category,
                    risk_level: rule.risk_level,
                    eligible: true,
                    reason: Some(copy_bytes(&rule.description)),
                };
            }
            i = i + 1;
        }
        Classification {
            category: FileCategory::Unknown,
            risk_level: RiskLevel::Low,
            eligible: false,
            reason: None,
        }
    }
}

} // verus!
