//! The duplicate detector: group files of identical content in three
//! phases, each pruning the candidates before the next, costlier one runs.
//! Files are first grouped by exact byte length, then by a quick digest of
//! a fixed-size prefix, and finally by a digest of the entire content; only
//! full-content digest equality ever puts two files in one reported group,
//! and only groups of at least two members are reported. Groups come back
//! ordered by descending wasted space, ties keeping discovery order.

use vstd::prelude::*;

use crate::bytes::{bytes_eq, copy_bytes, subvec};
use crate::hashing::{blake3_hex, blake3_hex_bytes};
use crate::scanner::{CancelFlag, CleanerError};

verus! {

/// One candidate for duplicate detection: a path and the file's content.
#[derive(Debug)]
pub struct CandidateFile {
    pub path: Vec<u8>,
    pub content: Vec<u8>,
}

/// Bounds on which files take part, and how long the quick-hash prefix is.
#[derive(Debug)]
pub struct DuplicateDetectorOptions {
    pub min_size: u64,
    pub max_size: Option<u64>,
    pub quick_hash_size: usize,
}

impl Default for DuplicateDetectorOptions {
    /// Files under one KiB are left out (tiny files collide in size far too
    /// often); the quick digest reads a four-KiB prefix.
    fn default() -> (r: Self)
        ensures
            r.min_size == 1024,
            r.max_size is None,
            r.quick_hash_size == 4096,
    {
        DuplicateDetectorOptions { min_size: 1024, max_size: None, quick_hash_size: 4096 }
    }
}

/// One group of files with identical full-content digest.
#[derive(Debug)]
pub struct DuplicateGroup {
    pub hash: Vec<u8>,
    pub size: u64,
    pub files: Vec<Vec<u8>>,
    pub total_wasted_space: u64,
}

/// What the detector reports: the groups, the member total, the count of
/// redundant copies (every member beyond the first of each group), and the
/// wasted bytes.
#[derive(Debug)]
pub struct DuplicateScanResult {
    pub groups: Vec<DuplicateGroup>,
    pub total_duplicate_files: u64,
    pub total_duplicates: u64,
    pub total_wasted_space: u64,
}

/// A group as the specification sees it.
pub struct GroupSpec {
    pub hash: Seq<u8>,
    pub size: int,
    pub members: Seq<Seq<u8>>,
    pub wasted: int,
}

/// The file takes part: its size lies within the configured bounds.
pub open spec fn spec_eligible(c: CandidateFile, opts: DuplicateDetectorOptions) -> bool {
    &&& c.content@.len() >= opts.min_size
    &&& match opts.max_size {
        Some(m) => c.content@.len() <= m,
        None => true,
    }
}

/// The prefix the quick digest reads: the first `q` bytes, or all of a
/// shorter content.
pub open spec fn spec_quick_region(content: Seq<u8>, q: nat) -> Seq<u8> {
    if content.len() <= q {
        content
    } else {
        content.subrange(0, q as int)
    }
}

/// The quick digest: the digest of the prefix alone.
pub open spec fn spec_quick_digest(content: Seq<u8>, q: nat) -> Seq<u8> {
    blake3_hex(spec_quick_region(content, q))
}

/// The full digest: the digest of the whole content.
pub open spec fn spec_full_digest(content: Seq<u8>) -> Seq<u8> {
    blake3_hex(content)
}

/// Two contents carry the same key: equal length, equal quick digest, and
/// equal full digest.
pub open spec fn spec_same_key(a: Seq<u8>, b: Seq<u8>, q: nat) -> bool {
    &&& a.len() == b.len()
    &&& spec_quick_digest(a, q) == spec_quick_digest(b, q)
    &&& spec_full_digest(a) == spec_full_digest(b)
}

/// File `i` is a reported duplicate: eligible, with another eligible file
/// of the same key.
pub open spec fn spec_is_dup(files: Seq<CandidateFile>, opts: DuplicateDetectorOptions, i: int) -> bool {
    &&& 0 <= i < files.len()
    &&& spec_eligible(files[i], opts)
    &&& exists|j: int|
        0 <= j < files.len() && j != i && spec_eligible(#[trigger] files[j], opts)
            && spec_same_key(files[i].content@, files[j].content@, opts.quick_hash_size as nat)
}

/// File `i` leads its group: a duplicate, with no earlier eligible file of
/// the same key.
pub open spec fn spec_group_leader(files: Seq<CandidateFile>, opts: DuplicateDetectorOptions, i: int) -> bool {
    &&& spec_is_dup(files, opts, i)
    &&& forall|j: int| 0 <= j < i
        ==> !(spec_eligible(#[trigger] files[j], opts)
            && spec_same_key(files[i].content@, files[j].content@, opts.quick_hash_size as nat))
}

/// The eligible files sharing the key of `key_content`, in input order.
pub open spec fn spec_class(files: Seq<CandidateFile>, opts: DuplicateDetectorOptions, key_content: Seq<u8>) -> Seq<CandidateFile>
    decreases files.len(),
{
    if files.len() == 0 {
        Seq::<CandidateFile>::empty()
    } else {
        let prefix = spec_class(files.drop_last(), opts, key_content);
        if spec_eligible(files.last(), opts)
            && spec_same_key(files.last().content@, key_content, opts.quick_hash_size as nat) {
            prefix.push(files.last())
        } else {
            prefix
        }
    }
}

/// The group led by file `i`: its full digest, the common size, the member
/// paths in input order, and the wasted space.
pub open spec fn spec_group_of(files: Seq<CandidateFile>, opts: DuplicateDetectorOptions, i: int) -> GroupSpec {
    let members = spec_class(files, opts, files[i].content@);
    GroupSpec {
        hash: spec_full_digest(files[i].content@),
        size: files[i].content@.len() as int,
        members: members.map_values(|c: CandidateFile| c.path@),
        wasted: files[i].content@.len() * (members.len() - 1),
    }
}

/// The groups led by files before index `n`, in leader order.
pub open spec fn spec_groups_from(files: Seq<CandidateFile>, opts: DuplicateDetectorOptions, n: int) -> Seq<GroupSpec>
    decreases n,
{
    if n <= 0 {
        Seq::<GroupSpec>::empty()
    } else {
        let prefix = spec_groups_from(files, opts, n - 1);
        if spec_group_leader(files, opts, n - 1) {
            prefix.push(spec_group_of(files, opts, n - 1))
        } else {
            prefix
        }
    }
}

/// All groups, in discovery order.
pub open spec fn spec_groups_unsorted(files: Seq<CandidateFile>, opts: DuplicateDetectorOptions) -> Seq<GroupSpec> {
    spec_groups_from(files, opts, files.len() as int)
}

/// Insert a group into a list sorted by descending wasted space, after
/// every group wasting at least as much, keeping discovery order on ties.
pub open spec fn spec_insert_group(sorted: Seq<GroupSpec>, g: GroupSpec) -> Seq<GroupSpec>
    decreases sorted.len(),
{
    if sorted.len() == 0 {
        seq![g]
    } else if sorted.last().wasted >= g.wasted {
        sorted.push(g)
    } else {
        spec_insert_group(sorted.drop_last(), g).push(sorted.last())
    }
}

/// Stable sort by descending wasted space.
pub open spec fn spec_sort_groups(groups: Seq<GroupSpec>) -> Seq<GroupSpec>
    decreases groups.len(),
{
    if groups.len() == 0 {
        groups
    } else {
        spec_insert_group(spec_sort_groups(groups.drop_last()), groups.last())
    }
}

/// The groups the detector reports: every group, by descending wasted space.
pub open spec fn spec_duplicate_groups(files: Seq<CandidateFile>, opts: DuplicateDetectorOptions) -> Seq<GroupSpec> {
    spec_sort_groups(spec_groups_unsorted(files, opts))
}

/// Wasted space never increases along the list.
pub open spec fn spec_groups_sorted_desc(groups: Seq<GroupSpec>) -> bool {
    forall|i: int, j: int| 0 <= i <= j < groups.len() ==> (#[trigger] groups[i]).wasted >= (#[trigger] groups[j]).wasted
}

/// The reported group `g` is the specification group `s`.
pub open spec fn spec_group_matches(g: DuplicateGroup, s: GroupSpec) -> bool {
    &&& g.hash@ == s.hash
    &&& g.size == s.size
    &&& g.total_wasted_space == s.wasted
    &&& g.files@.len() == s.members.len()
    &&& forall|k: int| 0 <= k < g.files@.len() ==> (#[trigger] g.files@[k])@ == s.members[k]
}

/// The reported groups are the specification groups, in order.
pub open spec fn spec_groups_match(gs: Seq<DuplicateGroup>, ss: Seq<GroupSpec>) -> bool {
    &&& gs.len() == ss.len()
    &&& forall|k: int| 0 <= k < gs.len() ==> spec_group_matches(#[trigger] gs[k], ss[k])
}

/// Sum of the member counts of the groups.
pub open spec fn spec_sum_members(groups: Seq<GroupSpec>) -> int
    decreases groups.len(),
{
    if groups.len() == 0 {
        0
    } else {
        spec_sum_members(groups.drop_last()) + groups.last().members.len()
    }
}

/// Sum of the redundant copies of the groups: every member beyond the
/// first of each group is one redundant copy.
pub open spec fn spec_sum_redundant(groups: Seq<GroupSpec>) -> int
    decreases groups.len(),
{
    if groups.len() == 0 {
        0
    } else {
        spec_sum_redundant(groups.drop_last()) + (groups.last().members.len() - 1)
    }
}

/// Sum of the wasted space of the groups.
pub open spec fn spec_sum_wasted(groups: Seq<GroupSpec>) -> int
    decreases groups.len(),
{
    if groups.len() == 0 {
        0
    } else {
        spec_sum_wasted(groups.drop_last()) + groups.last().wasted
    }
}

/// Phase-1 survivor: eligible, and some other eligible file has the same
/// byte length.
pub open spec fn spec_keep1(files: Seq<CandidateFile>, opts: DuplicateDetectorOptions, k: int) -> bool {
    &&& 0 <= k < files.len()
    &&& spec_eligible(files[k], opts)
    &&& exists|j: int|
        0 <= j < files.len() && j != k && spec_eligible(#[trigger] files[j], opts)
            && files[j].content@.len() == files[k].content@.len()
}

/// Phase-2 survivor: a phase-1 survivor, and some other phase-1 survivor
/// has the same length and the same quick digest.
pub open spec fn spec_keep2(files: Seq<CandidateFile>, opts: DuplicateDetectorOptions, k: int) -> bool {
    &&& spec_keep1(files, opts, k)
    &&& exists|j: int|
        #[trigger] spec_keep1(files, opts, j) && j != k
            && files[j].content@.len() == files[k].content@.len()
            && spec_quick_digest(files[j].content@, opts.quick_hash_size as nat)
                == spec_quick_digest(files[k].content@, opts.quick_hash_size as nat)
}

/// File `j` stands in the group led by `i` as the staged phases see it.
pub open spec fn spec_staged_member(files: Seq<CandidateFile>, opts: DuplicateDetectorOptions, i: int, j: int) -> bool {
    &&& spec_keep2(files, opts, j)
    &&& files[j].content@.len() == files[i].content@.len()
    &&& spec_quick_digest(files[j].content@, opts.quick_hash_size as nat)
        == spec_quick_digest(files[i].content@, opts.quick_hash_size as nat)
    &&& spec_full_digest(files[j].content@) == spec_full_digest(files[i].content@)
}

/// For a phase-2 survivor `i`, the staged membership test equals the plain
/// one: eligible with the same key.
proof fn lemma_member_equiv(files: Seq<CandidateFile>, opts: DuplicateDetectorOptions, i: int, j: int)
    requires
        0 <= i < files.len(),
        spec_keep2(files, opts, i),
    ensures
        spec_staged_member(files, opts, i, j) <==> (0 <= j < files.len()
            && spec_eligible(files[j], opts)
            && spec_same_key(files[i].content@, files[j].content@, opts.quick_hash_size as nat)),
{
    let q = opts.quick_hash_size as nat;
    if spec_staged_member(files, opts, i, j) {
        assert(spec_eligible(files[j], opts));
    }
    if 0 <= j < files.len() && spec_eligible(files[j], opts)
        && spec_same_key(files[i].content@, files[j].content@, q) {
        if j != i {
            assert(spec_keep1(files, opts, j)) by {
                assert(spec_eligible(files[i], opts));
            }
            assert(spec_keep2(files, opts, j)) by {
                assert(spec_keep1(files, opts, i));
            }
        }
    }
}

/// A group leader survives phase 2.
proof fn lemma_leader_keep2(files: Seq<CandidateFile>, opts: DuplicateDetectorOptions, i: int)
    requires
        spec_is_dup(files, opts, i),
    ensures
        spec_keep2(files, opts, i),
{
    let q = opts.quick_hash_size as nat;
    let j = choose|j: int|
        0 <= j < files.len() && j != i && spec_eligible(#[trigger] files[j], opts)
            && spec_same_key(files[i].content@, files[j].content@, q);
    assert(spec_keep1(files, opts, i));
    assert(spec_keep1(files, opts, j));
}

/// A class with an eligible same-key file is not empty.
proof fn lemma_class_has(files: Seq<CandidateFile>, opts: DuplicateDetectorOptions, key: Seq<u8>, t: int)
    requires
        0 <= t < files.len(),
        spec_eligible(files[t], opts),
        spec_same_key(files[t].content@, key, opts.quick_hash_size as nat),
    ensures
        spec_class(files, opts, key).len() >= 1,
    decreases files.len(),
{
    if t < files.len() - 1 {
        lemma_class_has(files.drop_last(), opts, key, t);
    }
}

/// Class members never outnumber the files.
proof fn lemma_class_len(files: Seq<CandidateFile>, opts: DuplicateDetectorOptions, key: Seq<u8>)
    ensures
        0 <= spec_class(files, opts, key).len() <= files.len(),
    decreases files.len(),
{
    if files.len() > 0 {
        lemma_class_len(files.drop_last(), opts, key);
    }
}

/// Sum of the content lengths of a candidate list.
pub open spec fn spec_total_content(files: Seq<CandidateFile>) -> int
    decreases files.len(),
{
    if files.len() == 0 {
        0
    } else {
        spec_total_content(files.drop_last()) + files.last().content@.len()
    }
}

/// A class holds files of the key's length, so its bytes are its member
/// count times that length, and never more than all the candidates' bytes.
proof fn lemma_class_total(files: Seq<CandidateFile>, opts: DuplicateDetectorOptions, key: Seq<u8>)
    ensures
        spec_total_content(spec_class(files, opts, key)) == spec_class(files, opts, key).len() * key.len(),
        0 <= spec_total_content(spec_class(files, opts, key)) <= spec_total_content(files),
    decreases files.len(),
{
    if files.len() == 0 {
        assert(spec_class(files, opts, key).len() * key.len() == 0) by (nonlinear_arith)
            requires
                spec_class(files, opts, key).len() == 0,
        ;
    } else {
        lemma_class_total(files.drop_last(), opts, key);
        let prefix = spec_class(files.drop_last(), opts, key);
        if spec_eligible(files.last(), opts)
            && spec_same_key(files.last().content@, key, opts.quick_hash_size as nat) {
            assert(prefix.push(files.last()).drop_last() =~= prefix);
            assert(files.last().content@.len() == key.len());
            assert((prefix.len() + 1) * key.len() == prefix.len() * key.len() + key.len())
                by (nonlinear_arith);
        }
    }
}


/// The candidate matches a key: eligible and carrying the key.
pub open spec fn spec_matches_key(f: CandidateFile, key: Seq<u8>, opts: DuplicateDetectorOptions) -> bool {
    spec_eligible(f, opts) && spec_same_key(f.content@, key, opts.quick_hash_size as nat)
}

/// No two keys of the list carry the same key data.
pub open spec fn spec_keys_separate(keys: Seq<Seq<u8>>, q: nat) -> bool {
    forall|i: int, j: int| 0 <= i < j < keys.len()
        ==> !spec_same_key(#[trigger] keys[i], #[trigger] keys[j], q)
}

/// Sum of the class bytes over a list of keys.
pub open spec fn spec_sum_class_bytes(files: Seq<CandidateFile>, opts: DuplicateDetectorOptions, keys: Seq<Seq<u8>>) -> int
    decreases keys.len(),
{
    if keys.len() == 0 {
        0
    } else {
        spec_sum_class_bytes(files, opts, keys.drop_last())
            + spec_total_content(spec_class(files, opts, keys.last()))
    }
}

/// Sum of the class member counts over a list of keys.
pub open spec fn spec_sum_class_counts(files: Seq<CandidateFile>, opts: DuplicateDetectorOptions, keys: Seq<Seq<u8>>) -> int
    decreases keys.len(),
{
    if keys.len() == 0 {
        0
    } else {
        spec_sum_class_counts(files, opts, keys.drop_last())
            + spec_class(files, opts, keys.last()).len()
    }
}

proof fn lemma_class_sums_empty(opts: DuplicateDetectorOptions, keys: Seq<Seq<u8>>)
    ensures
        spec_sum_class_bytes(Seq::<CandidateFile>::empty(), opts, keys) == 0,
        spec_sum_class_counts(Seq::<CandidateFile>::empty(), opts, keys) == 0,
    decreases keys.len(),
{
    if keys.len() > 0 {
        lemma_class_sums_empty(opts, keys.drop_last());
    }
}

/// A file matching none of the keys joins none of their classes.
proof fn lemma_class_sums_no_match(files: Seq<CandidateFile>, opts: DuplicateDetectorOptions, keys: Seq<Seq<u8>>)
    requires
        files.len() > 0,
        forall|t: int| 0 <= t < keys.len() ==> !spec_matches_key(files.last(), #[trigger] keys[t], opts),
    ensures
        spec_sum_class_bytes(files, opts, keys) == spec_sum_class_bytes(files.drop_last(), opts, keys),
        spec_sum_class_counts(files, opts, keys) == spec_sum_class_counts(files.drop_last(), opts, keys),
    decreases keys.len(),
{
    if keys.len() > 0 {
        lemma_class_sums_no_match(files, opts, keys.drop_last());
        assert(!spec_matches_key(files.last(), keys.last(), opts));
    }
}

/// With pairwise distinct keys, a new file joins at most one class, so the
/// summed class bytes grow by at most its length, and the summed counts by
/// at most one.
proof fn lemma_class_sums_step(files: Seq<CandidateFile>, opts: DuplicateDetectorOptions, keys: Seq<Seq<u8>>)
    requires
        files.len() > 0,
        spec_keys_separate(keys, opts.quick_hash_size as nat),
    ensures
        spec_sum_class_bytes(files, opts, keys)
            <= spec_sum_class_bytes(files.drop_last(), opts, keys) + files.last().content@.len(),
        spec_sum_class_counts(files, opts, keys)
            <= spec_sum_class_counts(files.drop_last(), opts, keys) + 1,
    decreases keys.len(),
{
    if keys.len() > 0 {
        let q = opts.quick_hash_size as nat;
        let ks = keys.drop_last();
        let k = keys.last();
        if spec_matches_key(files.last(), k, opts) {
            assert forall|t: int| 0 <= t < ks.len() implies !spec_matches_key(
                files.last(),
                #[trigger] ks[t],
                opts,
            ) by {
                assert(ks[t] == keys[t]);
                if spec_matches_key(files.last(), ks[t], opts) {
                    assert(spec_same_key(keys[t], keys[keys.len() - 1], q));
                }
            }
            lemma_class_sums_no_match(files, opts, ks);
            let prefix = spec_class(files.drop_last(), opts, k);
            assert(prefix.push(files.last()).drop_last() =~= prefix);
        } else {
            lemma_class_sums_step(files, opts, ks);
        }
    }
}

/// Classes of pairwise distinct keys are disjoint, so their bytes and
/// member counts together never exceed the whole candidate list's.
proof fn lemma_class_sums_bounded(files: Seq<CandidateFile>, opts: DuplicateDetectorOptions, keys: Seq<Seq<u8>>)
    requires
        spec_keys_separate(keys, opts.quick_hash_size as nat),
    ensures
        spec_sum_class_bytes(files, opts, keys) <= spec_total_content(files),
        spec_sum_class_counts(files, opts, keys) <= files.len(),
    decreases files.len(),
{
    if files.len() == 0 {
        assert(files =~= Seq::<CandidateFile>::empty());
        lemma_class_sums_empty(opts, keys);
    } else {
        lemma_class_sums_bounded(files.drop_last(), opts, keys);
        lemma_class_sums_step(files, opts, keys);
    }
}

/// The keys of the group leaders before index `n`, in leader order.
pub open spec fn spec_leader_keys(files: Seq<CandidateFile>, opts: DuplicateDetectorOptions, n: int) -> Seq<Seq<u8>>
    decreases n,
{
    if n <= 0 {
        Seq::<Seq<u8>>::empty()
    } else {
        let prefix = spec_leader_keys(files, opts, n - 1);
        if spec_group_leader(files, opts, n - 1) {
            prefix.push(files[n - 1].content@)
        } else {
            prefix
        }
    }
}

/// Leader keys are pairwise distinct (a later leader never shares an
/// earlier leader's key), and each is the key of its group: the group's
/// size is the key's length and its members are that key's class.
proof fn lemma_leader_keys(files: Seq<CandidateFile>, opts: DuplicateDetectorOptions, n: int)
    requires
        0 <= n <= files.len(),
    ensures
        spec_keys_separate(spec_leader_keys(files, opts, n), opts.quick_hash_size as nat),
        spec_leader_keys(files, opts, n).len() == spec_groups_from(files, opts, n).len(),
        forall|g: int| 0 <= g < spec_leader_keys(files, opts, n).len() ==> {
            let key = #[trigger] spec_leader_keys(files, opts, n)[g];
            let grp = spec_groups_from(files, opts, n)[g];
            &&& exists|t: int| 0 <= t < n && #[trigger] spec_group_leader(files, opts, t)
                && key == files[t].content@
            &&& grp.size == key.len()
            &&& grp.members.len() == spec_class(files, opts, key).len()
            &&& grp.wasted == key.len() * (spec_class(files, opts, key).len() - 1)
        },
    decreases n,
{
    if n > 0 {
        lemma_leader_keys(files, opts, n - 1);
        let q = opts.quick_hash_size as nat;
        let prefix = spec_leader_keys(files, opts, n - 1);
        let keys = spec_leader_keys(files, opts, n);
        if spec_group_leader(files, opts, n - 1) {
            assert forall|i: int, j: int| 0 <= i < j < keys.len() implies !spec_same_key(
                #[trigger] keys[i],
                #[trigger] keys[j],
                q,
            ) by {
                if j == keys.len() - 1 {
                    assert(keys[i] == prefix[i]);
                    let t = choose|t: int|
                        0 <= t < n - 1 && #[trigger] spec_group_leader(files, opts, t)
                            && prefix[i] == files[t].content@;
                    assert(spec_eligible(files[t], opts));
                    assert(!spec_same_key(files[n - 1].content@, files[t].content@, q));
                } else {
                    assert(keys[i] == prefix[i]);
                    assert(keys[j] == prefix[j]);
                }
            }
            assert forall|g: int| 0 <= g < keys.len() implies {
                let key = #[trigger] keys[g];
                let grp = spec_groups_from(files, opts, n)[g];
                &&& exists|t: int| 0 <= t < n && #[trigger] spec_group_leader(files, opts, t)
                    && key == files[t].content@
                &&& grp.size == key.len()
                &&& grp.members.len() == spec_class(files, opts, key).len()
                &&& grp.wasted == key.len() * (spec_class(files, opts, key).len() - 1)
            } by {
                if g == keys.len() - 1 {
                    assert(spec_group_leader(files, opts, n - 1));
                    assert(keys[g] == files[n - 1].content@);
                } else {
                    assert(keys[g] == prefix[g]);
                    assert(spec_groups_from(files, opts, n)[g] == spec_groups_from(files, opts, n - 1)[g]);
                }
            }
        } else {
            assert(keys == prefix);
            assert(spec_groups_from(files, opts, n) == spec_groups_from(files, opts, n - 1));
        }
    }
}

/// The groups' member total is exactly the summed class counts of the
/// leader keys, and their wasted total never exceeds the summed class
/// bytes: every group is one whole key class.
proof fn lemma_group_sums_vs_classes(files: Seq<CandidateFile>, opts: DuplicateDetectorOptions, n: int)
    requires
        0 <= n <= files.len(),
    ensures
        spec_sum_members(spec_groups_from(files, opts, n))
            == spec_sum_class_counts(files, opts, spec_leader_keys(files, opts, n)),
        spec_sum_wasted(spec_groups_from(files, opts, n))
            <= spec_sum_class_bytes(files, opts, spec_leader_keys(files, opts, n)),
    decreases n,
{
    if n > 0 {
        lemma_group_sums_vs_classes(files, opts, n - 1);
        if spec_group_leader(files, opts, n - 1) {
            let key = files[n - 1].content@;
            let groups = spec_groups_from(files, opts, n);
            let keys = spec_leader_keys(files, opts, n);
            assert(groups.drop_last() =~= spec_groups_from(files, opts, n - 1));
            assert(keys.drop_last() =~= spec_leader_keys(files, opts, n - 1));
            lemma_class_total(files, opts, key);
            let cnt = spec_class(files, opts, key).len() as int;
            assert(spec_eligible(files[n - 1], opts));
            lemma_class_has(files, opts, key, n - 1);
            assert(key.len() * (cnt - 1) <= cnt * key.len()) by (nonlinear_arith)
                requires
                    cnt >= 1,
            ;
        }
    }
}

/// The file takes part: its size lies within the configured bounds.
fn is_eligible(c: &CandidateFile, opts: &DuplicateDetectorOptions) -> (r: bool)
    ensures
        r == spec_eligible(*c, *opts),
{
    let len = c.content.len() as u64;
    if len < opts.min_size {
        return false;
    }
    if let Some(m) = opts.max_size {
        if len > m {
            return false;
        }
    }
    true
}

/// Phase 1: mark the files that share their byte length with another
/// eligible file.
fn compute_keep1(files: &Vec<CandidateFile>, opts: &DuplicateDetectorOptions) -> (r: Vec<bool>)
    ensures
        r@.len() == files@.len(),
        forall|k: int| 0 <= k < files@.len() ==> r@[k] == spec_keep1(files@, *opts, k),
{
    let mut r: Vec<bool> = Vec::new();
    let mut k: usize = 0;
    while k < files.len()
        invariant
            k <= files@.len(),
            r@.len() == k,
            forall|t: int| 0 <= t < k ==> r@[t] == spec_keep1(files@, *opts, t),
        decreases files@.len() - k,
    {
        let mut keep = false;
        if is_eligible(&files[k], opts) {
            let len_k = files[k].content.len();
            let mut j: usize = 0;
            while j < files.len()
                invariant
                    k < files@.len(),
                    j <= files@.len(),
                    len_k == files@[k as int].content@.len(),
                    spec_eligible(files@[k as int], *opts),
                    keep == exists|t: int|
                        0 <= t < j && t != k && spec_eligible(#[trigger] files@[t], *opts)
                            && files@[t].content@.len() == files@[k as int].content@.len(),
                decreases files@.len() - j,
            {
                if j != k && files[j].content.len() == len_k && is_eligible(&files[j], opts) {
                    keep = true;
                }
                j = j + 1;
            }
        }
        r.push(keep);
        k = k + 1;
    }
    r
}

/// Compute the quick digest of one file: the digest of its prefix.
fn quick_digest(c: &CandidateFile, opts: &DuplicateDetectorOptions) -> (r: Vec<u8>)
    ensures
        r@ == spec_quick_digest(c.content@, opts.quick_hash_size as nat),
{
    let len = c.content.len();
    let cut = if len <= opts.quick_hash_size {
        len
    } else {
        opts.quick_hash_size
    };
    let region = subvec(&c.content, 0, cut);
    proof {
        if c.content@.len() <= opts.quick_hash_size {
            assert(c.content@.subrange(0, cut as int) =~= c.content@);
        }
    }
    blake3_hex_bytes(&region)
}

/// Phase 2 digests: the quick digest of every phase-1 survivor.
fn compute_quick(files: &Vec<CandidateFile>, keep1: &Vec<bool>, opts: &DuplicateDetectorOptions) -> (r: Vec<Vec<u8>>)
    requires
        keep1@.len() == files@.len(),
    ensures
        r@.len() == files@.len(),
        forall|k: int| 0 <= k < files@.len() && keep1@[k]
            ==> (#[trigger] r@[k])@ == spec_quick_digest(files@[k].content@, opts.quick_hash_size as nat),
{
    let mut r: Vec<Vec<u8>> = Vec::new();
    let mut k: usize = 0;
    while k < files.len()
        invariant
            k <= files@.len(),
            keep1@.len() == files@.len(),
            r@.len() == k,
            forall|t: int| 0 <= t < k && keep1@[t]
                ==> (#[trigger] r@[t])@ == spec_quick_digest(files@[t].content@, opts.quick_hash_size as nat),
        decreases files@.len() - k,
    {
        if keep1[k] {
            r.push(quick_digest(&files[k], opts));
        } else {
            r.push(Vec::new());
        }
        k = k + 1;
    }
    r
}

/// Phase 2: mark the phase-1 survivors that share length and quick digest
/// with another phase-1 survivor.
fn compute_keep2(files: &Vec<CandidateFile>, keep1: &Vec<bool>, quick: &Vec<Vec<u8>>, opts: &DuplicateDetectorOptions) -> (r: Vec<bool>)
    requires
        keep1@.len() == files@.len(),
        quick@.len() == files@.len(),
        forall|k: int| 0 <= k < files@.len() ==> keep1@[k] == spec_keep1(files@, *opts, k),
        forall|k: int| 0 <= k < files@.len() && keep1@[k]
            ==> (#[trigger] quick@[k])@ == spec_quick_digest(files@[k].content@, opts.quick_hash_size as nat),
    ensures
        r@.len() == files@.len(),
        forall|k: int| 0 <= k < files@.len() ==> r@[k] == spec_keep2(files@, *opts, k),
{
    let mut r: Vec<bool> = Vec::new();
    let mut k: usize = 0;
    while k < files.len()
        invariant
            k <= files@.len(),
            keep1@.len() == files@.len(),
            quick@.len() == files@.len(),
            forall|t: int| 0 <= t < files@.len() ==> keep1@[t] == spec_keep1(files@, *opts, t),
            forall|t: int| 0 <= t < files@.len() && keep1@[t]
                ==> (#[trigger] quick@[t])@ == spec_quick_digest(files@[t].content@, opts.quick_hash_size as nat),
            r@.len() == k,
            forall|t: int| 0 <= t < k ==> r@[t] == spec_keep2(files@, *opts, t),
        decreases files@.len() - k,
    {
        let mut keep = false;
        if keep1[k] {
            let len_k = files[k].content.len();
            let mut j: usize = 0;
            while j < files.len()
                invariant
                    k < files@.len(),
                    j <= files@.len(),
                    keep1@.len() == files@.len(),
                    quick@.len() == files@.len(),
                    len_k == files@[k as int].content@.len(),
                    keep1@[k as int],
                    forall|t: int| 0 <= t < files@.len() ==> keep1@[t] == spec_keep1(files@, *opts, t),
                    forall|t: int| 0 <= t < files@.len() && keep1@[t]
                        ==> (#[trigger] quick@[t])@ == spec_quick_digest(files@[t].content@, opts.quick_hash_size as nat),
                    keep == exists|t: int|
                        0 <= t < j && #[trigger] spec_keep1(files@, *opts, t) && t != k
                            && files@[t].content@.len() == files@[k as int].content@.len()
                            && spec_quick_digest(files@[t].content@, opts.quick_hash_size as nat)
                                == spec_quick_digest(files@[k as int].content@, opts.quick_hash_size as nat),
                decreases files@.len() - j,
            {
                if j != k && keep1[j] && files[j].content.len() == len_k && bytes_eq(&quick[j], &quick[k]) {
                    keep = true;
                }
                j = j + 1;
            }
        }
        r.push(keep);
        k = k + 1;
    }
    r
}

/// Phase 3 digests: the full-content digest of every phase-2 survivor.
/// Cancellation is polled between digest computations.
fn compute_full(files: &Vec<CandidateFile>, keep2: &Vec<bool>, cancel: &CancelFlag) -> (r: Result<Vec<Vec<u8>>, CleanerError>)
    requires
        keep2@.len() == files@.len(),
    ensures
        files@.len() == 0 ==> r is Ok,
        r matches Ok(v) ==> v@.len() == files@.len() && forall|k: int|
            0 <= k < files@.len() && keep2@[k] ==> (#[trigger] v@[k])@ == spec_full_digest(
                files@[k].content@,
            ),
        r matches Err(e) ==> e == CleanerError::Cancelled,
{
    let mut r: Vec<Vec<u8>> = Vec::new();
    let mut k: usize = 0;
    while k < files.len()
        invariant
            k <= files@.len(),
            keep2@.len() == files@.len(),
            r@.len() == k,
            forall|t: int| 0 <= t < k && keep2@[t]
                ==> (#[trigger] r@[t])@ == spec_full_digest(files@[t].content@),
        decreases files@.len() - k,
    {
        if keep2[k] {
            if cancel.is_cancelled() {
                return Err(CleanerError::Cancelled);
            }
            r.push(blake3_hex_bytes(&files[k].content));
        } else {
            r.push(Vec::new());
        }
        k = k + 1;
    }
    Ok(r)
}

/// The staged membership test: `j` survives phase 2 and carries `i`'s key.
fn is_staged_member(
    files: &Vec<CandidateFile>,
    keep2: &Vec<bool>,
    quick: &Vec<Vec<u8>>,
    full: &Vec<Vec<u8>>,
    opts: &DuplicateDetectorOptions,
    i: usize,
    j: usize,
) -> (r: bool)
    requires
        i < files@.len(),
        j < files@.len(),
        keep2@.len() == files@.len(),
        quick@.len() == files@.len(),
        full@.len() == files@.len(),
        forall|k: int| 0 <= k < files@.len() ==> keep2@[k] == spec_keep2(files@, *opts, k),
        forall|k: int| 0 <= k < files@.len() && keep2@[k]
            ==> (#[trigger] quick@[k])@ == spec_quick_digest(files@[k].content@, opts.quick_hash_size as nat),
        forall|k: int| 0 <= k < files@.len() && keep2@[k]
            ==> (#[trigger] full@[k])@ == spec_full_digest(files@[k].content@),
        keep2@[i as int],
    ensures
        r == spec_staged_member(files@, *opts, i as int, j as int),
{
    keep2[j] && files[j].content.len() == files[i].content.len() && bytes_eq(&quick[j], &quick[i])
        && bytes_eq(&full[j], &full[i])
}

/// Walk the files in order; at each phase-2 survivor that leads its key
/// class, collect the class as one group, reporting it when it has at
/// least two members. Cancellation is polled between files.
fn collect_groups(
    files: &Vec<CandidateFile>,
    keep2: &Vec<bool>,
    quick: &Vec<Vec<u8>>,
    full: &Vec<Vec<u8>>,
    opts: &DuplicateDetectorOptions,
    cancel: &CancelFlag,
) -> (r: Result<Vec<DuplicateGroup>, CleanerError>)
    requires
        spec_total_content(files@) <= u64::MAX,
        keep2@.len() == files@.len(),
        quick@.len() == files@.len(),
        full@.len() == files@.len(),
        forall|k: int| 0 <= k < files@.len() ==> keep2@[k] == spec_keep2(files@, *opts, k),
        forall|k: int| 0 <= k < files@.len() && keep2@[k]
            ==> (#[trigger] quick@[k])@ == spec_quick_digest(files@[k].content@, opts.quick_hash_size as nat),
        forall|k: int| 0 <= k < files@.len() && keep2@[k]
            ==> (#[trigger] full@[k])@ == spec_full_digest(files@[k].content@),
    ensures
        files@.len() == 0 ==> r is Ok,
        r matches Ok(gs) ==> spec_groups_match(gs@, spec_groups_unsorted(files@, *opts)),
        r matches Err(e) ==> e == CleanerError::Cancelled,
{
    let mut groups: Vec<DuplicateGroup> = Vec::new();
    let mut i: usize = 0;
    while i < files.len()
        invariant
            i <= files@.len(),
            spec_total_content(files@) <= u64::MAX,
            keep2@.len() == files@.len(),
            quick@.len() == files@.len(),
            full@.len() == files@.len(),
            forall|k: int| 0 <= k < files@.len() ==> keep2@[k] == spec_keep2(files@, *opts, k),
            forall|k: int| 0 <= k < files@.len() && keep2@[k]
                ==> (#[trigger] quick@[k])@ == spec_quick_digest(files@[k].content@, opts.quick_hash_size as nat),
            forall|k: int| 0 <= k < files@.len() && keep2@[k]
                ==> (#[trigger] full@[k])@ == spec_full_digest(files@[k].content@),
            spec_groups_match(groups@, spec_groups_from(files@, *opts, i as int)),
        decreases files@.len() - i,
    {
        if cancel.is_cancelled() {
            return Err(CleanerError::Cancelled);
        }
        if !keep2[i] {
            proof {
                if spec_group_leader(files@, *opts, i as int) {
                    lemma_leader_keep2(files@, *opts, i as int);
                }
            }
            i = i + 1;
            continue;
        }

        let mut earlier = false;
        let mut j: usize = 0;
        while j < i
            invariant
                i < files@.len(),
                j <= i,
                keep2@.len() == files@.len(),
                quick@.len() == files@.len(),
                full@.len() == files@.len(),
                forall|k: int| 0 <= k < files@.len() ==> keep2@[k] == spec_keep2(files@, *opts, k),
                forall|k: int| 0 <= k < files@.len() && keep2@[k]
                    ==> (#[trigger] quick@[k])@ == spec_quick_digest(files@[k].content@, opts.quick_hash_size as nat),
                forall|k: int| 0 <= k < files@.len() && keep2@[k]
                    ==> (#[trigger] full@[k])@ == spec_full_digest(files@[k].content@),
                keep2@[i as int],
                earlier == exists|t: int| 0 <= t < j && #[trigger] spec_staged_member(files@, *opts, i as int, t),
            decreases i - j,
        {
            if is_staged_member(files, keep2, quick, full, opts, i, j) {
                earlier = true;
            }
            j = j + 1;
        }
        if earlier {
            proof {
                let t = choose|t: int| 0 <= t < i && #[trigger] spec_staged_member(files@, *opts, i as int, t);
                lemma_member_equiv(files@, *opts, i as int, t);
                assert(!spec_group_leader(files@, *opts, i as int));
            }
            i = i + 1;
            continue;
        }

        let ghost key = files@[i as int].content@;
        let mut members: Vec<Vec<u8>> = Vec::new();
        let mut found_other = false;
        let mut j: usize = 0;
        while j < files.len()
            invariant
                i < files@.len(),
                j <= files@.len(),
                keep2@.len() == files@.len(),
                quick@.len() == files@.len(),
                full@.len() == files@.len(),
                forall|k: int| 0 <= k < files@.len() ==> keep2@[k] == spec_keep2(files@, *opts, k),
                forall|k: int| 0 <= k < files@.len() && keep2@[k]
                    ==> (#[trigger] quick@[k])@ == spec_quick_digest(files@[k].content@, opts.quick_hash_size as nat),
                forall|k: int| 0 <= k < files@.len() && keep2@[k]
                    ==> (#[trigger] full@[k])@ == spec_full_digest(files@[k].content@),
                keep2@[i as int],
                key == files@[i as int].content@,
                members@.len() == spec_class(files@.take(j as int), *opts, key).len(),
                forall|k: int| 0 <= k < members@.len()
                    ==> (#[trigger] members@[k])@ == spec_class(files@.take(j as int), *opts, key)[k].path@,
                found_other == exists|t: int|
                    0 <= t < j && t != i && #[trigger] spec_staged_member(files@, *opts, i as int, t),
            decreases files@.len() - j,
        {
            proof {
                assert(files@.take(j + 1).drop_last() =~= files@.take(j as int));
                assert(files@.take(j + 1).last() == files@[j as int]);
                lemma_member_equiv(files@, *opts, i as int, j as int);
            }
            if is_staged_member(files, keep2, quick, full, opts, i, j) {
                members.push(copy_bytes(&files[j].path));
                if j != i {
                    found_other = true;
                }
            }
            j = j + 1;
        }
        proof {
            assert(files@.take(files@.len() as int) =~= files@);
        }

        if !found_other {
            proof {
                assert forall|t: int| !(0 <= t < files@.len() && t != i
                    && spec_eligible(#[trigger] files@[t], *opts)
                    && spec_same_key(files@[i as int].content@, files@[t].content@, opts.quick_hash_size as nat)) by {
                    if 0 <= t < files@.len() && t != i {
                        assert(!spec_staged_member(files@, *opts, i as int, t));
                        lemma_member_equiv(files@, *opts, i as int, t);
                    }
                }
                assert(!spec_is_dup(files@, *opts, i as int));
            }
            i = i + 1;
            continue;
        }

        proof {
            let t = choose|t: int|
                0 <= t < files@.len() && t != i && #[trigger] spec_staged_member(files@, *opts, i as int, t);
            lemma_member_equiv(files@, *opts, i as int, t);
            assert(spec_is_dup(files@, *opts, i as int));
            assert forall|t2: int| 0 <= t2 < i implies !(spec_eligible(#[trigger] files@[t2], *opts)
                && spec_same_key(files@[i as int].content@, files@[t2].content@, opts.quick_hash_size as nat)) by {
                assert(!spec_staged_member(files@, *opts, i as int, t2));
                lemma_member_equiv(files@, *opts, i as int, t2);
            }
            assert(spec_group_leader(files@, *opts, i as int));
            lemma_class_len(files@, *opts, key);
        }

        let size = files[i].content.len() as u64;
        let count = members.len() as u64;
        proof {
            assert(spec_staged_member(files@, *opts, i as int, i as int));
            lemma_member_equiv(files@, *opts, i as int, i as int);
            lemma_class_has(files@, *opts, key, i as int);
            assert(count >= 1);
            lemma_class_total(files@, *opts, key);
            let cls_len = spec_class(files@, *opts, key).len() as int;
            let cls_total = spec_total_content(spec_class(files@, *opts, key));
            assert(size * (count - 1) <= u64::MAX) by (nonlinear_arith)
                requires
                    size as int == key.len(),
                    count as int == cls_len,
                    cls_total == cls_len * key.len(),
                    0 <= cls_total <= u64::MAX,
                    count >= 1,
            ;
        }
        let wasted = size * (count - 1);
        let group = DuplicateGroup {
            hash: copy_bytes(&full[i]),
            size,
            files: members,
            total_wasted_space: wasted,
        };
        proof {
            assert(spec_group_matches(group, spec_group_of(files@, *opts, i as int)));
        }
        groups.push(group);
        i = i + 1;
    }
    proof {
        assert(spec_groups_match(groups@, spec_groups_unsorted(files@, *opts)));
    }
    Ok(groups)
}

/// Inserting at the first position whose wasted space falls below the new
/// group's is exactly the stable insertion.
proof fn lemma_insert_group_at(sorted: Seq<GroupSpec>, g: GroupSpec, p: int)
    requires
        spec_groups_sorted_desc(sorted),
        0 <= p <= sorted.len(),
        forall|j: int| 0 <= j < p ==> (#[trigger] sorted[j]).wasted >= g.wasted,
        p < sorted.len() ==> sorted[p].wasted < g.wasted,
    ensures
        spec_insert_group(sorted, g) == sorted.insert(p, g),
    decreases sorted.len(),
{
    if sorted.len() == 0 {
        assert(spec_insert_group(sorted, g) =~= sorted.insert(p, g));
    } else if sorted.last().wasted >= g.wasted {
        assert(p == sorted.len());
        assert(sorted.push(g) =~= sorted.insert(p, g));
    } else {
        assert(p < sorted.len());
        lemma_insert_group_at(sorted.drop_last(), g, p);
        assert(spec_insert_group(sorted.drop_last(), g).push(sorted.last()) =~= sorted.insert(p, g));
    }
}

/// The stable insertion keeps the list sorted.
proof fn lemma_insert_group_sorted(sorted: Seq<GroupSpec>, g: GroupSpec, p: int)
    requires
        spec_groups_sorted_desc(sorted),
        0 <= p <= sorted.len(),
        forall|j: int| 0 <= j < p ==> (#[trigger] sorted[j]).wasted >= g.wasted,
        p < sorted.len() ==> sorted[p].wasted < g.wasted,
    ensures
        spec_groups_sorted_desc(sorted.insert(p, g)),
{
    let out = sorted.insert(p, g);
    assert forall|i: int, j: int| 0 <= i <= j < out.len() implies (#[trigger] out[i]).wasted >= (#[trigger] out[j]).wasted by {
        if i < p && j < p {
        } else if i >= p + 1 && j >= p + 1 {
            assert(sorted[i - 1].wasted >= sorted[j - 1].wasted);
        } else if i == p && j == p {
        } else if i < p && j == p {
            assert(sorted[i].wasted >= g.wasted);
        } else if i == p && j > p {
            assert(sorted[j - 1].wasted <= sorted[p].wasted);
        } else {
            assert(i < p && j > p);
            assert(sorted[i].wasted >= sorted[j - 1].wasted);
        }
    }
}

/// Every group wastes a nonnegative amount bounded by `b` and has between
/// one and `n` members.
pub open spec fn spec_group_bounded(g: GroupSpec, n: int, b: int) -> bool {
    &&& 0 <= g.wasted <= b
    &&& 1 <= g.members.len() <= n
}

proof fn lemma_groups_from_bounded(files: Seq<CandidateFile>, opts: DuplicateDetectorOptions, n: int)
    ensures
        forall|k: int| 0 <= k < spec_groups_from(files, opts, n).len()
            ==> spec_group_bounded(
                #[trigger] spec_groups_from(files, opts, n)[k],
                files.len() as int,
                spec_total_content(files),
            ),
    decreases n,
{
    let b = spec_total_content(files);
    if n > 0 {
        lemma_groups_from_bounded(files, opts, n - 1);
        let prefix = spec_groups_from(files, opts, n - 1);
        let out = spec_groups_from(files, opts, n);
        if spec_group_leader(files, opts, n - 1) {
            let g = spec_group_of(files, opts, n - 1);
            let key = files[n - 1].content@;
            lemma_class_len(files, opts, key);
            lemma_class_has(files, opts, key, n - 1);
            lemma_class_total(files, opts, key);
            let size = files[n - 1].content@.len() as int;
            let cnt = spec_class(files, opts, key).len() as int;
            let cls_total = spec_total_content(spec_class(files, opts, key));
            assert(0 <= size * (cnt - 1) <= b) by (nonlinear_arith)
                requires
                    size == key.len(),
                    cls_total == cnt * key.len(),
                    0 <= cls_total <= b,
                    1 <= cnt,
                    0 <= size,
            ;
            assert(spec_group_bounded(g, files.len() as int, b));
            assert forall|k: int| 0 <= k < out.len() implies spec_group_bounded(#[trigger] out[k], files.len() as int, b) by {
                if k < prefix.len() {
                    assert(out[k] == prefix[k]);
                    assert(spec_group_bounded(prefix[k], files.len() as int, b));
                } else {
                    assert(out[k] == g);
                }
            }
        } else {
            assert forall|k: int| 0 <= k < out.len() implies spec_group_bounded(#[trigger] out[k], files.len() as int, b) by {
                assert(out[k] == prefix[k]);
                assert(spec_group_bounded(prefix[k], files.len() as int, b));
            }
        }
    }
}

proof fn lemma_insert_group_bounded(sorted: Seq<GroupSpec>, g: GroupSpec, n: int, b: int)
    requires
        forall|k: int| 0 <= k < sorted.len() ==> spec_group_bounded(#[trigger] sorted[k], n, b),
        spec_group_bounded(g, n, b),
    ensures
        forall|k: int| 0 <= k < spec_insert_group(sorted, g).len()
            ==> spec_group_bounded(#[trigger] spec_insert_group(sorted, g)[k], n, b),
        spec_insert_group(sorted, g).len() == sorted.len() + 1,
    decreases sorted.len(),
{
    if sorted.len() == 0 {
    } else if sorted.last().wasted >= g.wasted {
    } else {
        lemma_insert_group_bounded(sorted.drop_last(), g, n, b);
    }
}

proof fn lemma_sort_groups_bounded(groups: Seq<GroupSpec>, n: int, b: int)
    requires
        forall|k: int| 0 <= k < groups.len() ==> spec_group_bounded(#[trigger] groups[k], n, b),
    ensures
        forall|k: int| 0 <= k < spec_sort_groups(groups).len()
            ==> spec_group_bounded(#[trigger] spec_sort_groups(groups)[k], n, b),
        spec_sort_groups(groups).len() == groups.len(),
    decreases groups.len(),
{
    if groups.len() > 0 {
        lemma_sort_groups_bounded(groups.drop_last(), n, b);
        lemma_insert_group_bounded(spec_sort_groups(groups.drop_last()), groups.last(), n, b);
    }
}

/// The stable insertion keeps every sum.
proof fn lemma_insert_group_sums(sorted: Seq<GroupSpec>, g: GroupSpec)
    ensures
        spec_sum_members(spec_insert_group(sorted, g)) == spec_sum_members(sorted) + g.members.len(),
        spec_sum_wasted(spec_insert_group(sorted, g)) == spec_sum_wasted(sorted) + g.wasted,
        spec_sum_redundant(spec_insert_group(sorted, g)) == spec_sum_redundant(sorted) + (g.members.len() - 1),
    decreases sorted.len(),
{
    let out = spec_insert_group(sorted, g);
    if sorted.len() == 0 {
        assert(out == seq![g]);
        assert(out.drop_last() =~= sorted);
    } else if sorted.last().wasted >= g.wasted {
        assert(out == sorted.push(g));
        assert(out.drop_last() =~= sorted);
    } else {
        lemma_insert_group_sums(sorted.drop_last(), g);
        let inner = spec_insert_group(sorted.drop_last(), g);
        assert(out == inner.push(sorted.last()));
        assert(out.drop_last() =~= inner);
    }
}

/// Sorting keeps every sum: member total, wasted total, redundant total.
proof fn lemma_sort_groups_sums(groups: Seq<GroupSpec>)
    ensures
        spec_sum_members(spec_sort_groups(groups)) == spec_sum_members(groups),
        spec_sum_wasted(spec_sort_groups(groups)) == spec_sum_wasted(groups),
        spec_sum_redundant(spec_sort_groups(groups)) == spec_sum_redundant(groups),
    decreases groups.len(),
{
    if groups.len() > 0 {
        lemma_sort_groups_sums(groups.drop_last());
        lemma_insert_group_sums(spec_sort_groups(groups.drop_last()), groups.last());
    }
}

/// Prefix sums never exceed the whole when every group is well formed.
proof fn lemma_group_sums_prefix(ss: Seq<GroupSpec>, k: int)
    requires
        0 <= k <= ss.len(),
        forall|t: int| 0 <= t < ss.len()
            ==> 0 <= (#[trigger] ss[t]).wasted && 1 <= ss[t].members.len(),
    ensures
        0 <= spec_sum_members(ss.take(k)) <= spec_sum_members(ss),
        0 <= spec_sum_wasted(ss.take(k)) <= spec_sum_wasted(ss),
        0 <= spec_sum_redundant(ss.take(k)) <= spec_sum_members(ss.take(k)),
    decreases ss.len(),
{
    if k == ss.len() {
        assert(ss.take(k) =~= ss);
        if ss.len() > 0 {
            assert forall|t: int| 0 <= t < ss.drop_last().len() implies 0 <= (#[trigger] ss.drop_last()[t]).wasted
                && 1 <= ss.drop_last()[t].members.len() by {
                assert(ss.drop_last()[t] == ss[t]);
            }
            lemma_group_sums_prefix(ss.drop_last(), ss.len() - 1);
            assert(ss.drop_last().take(ss.len() - 1) =~= ss.drop_last());
        }
    } else {
        assert forall|t: int| 0 <= t < ss.drop_last().len() implies 0 <= (#[trigger] ss.drop_last()[t]).wasted
            && 1 <= ss.drop_last()[t].members.len() by {
            assert(ss.drop_last()[t] == ss[t]);
        }
        lemma_group_sums_prefix(ss.drop_last(), k);
        assert(ss.drop_last().take(k) =~= ss.take(k));
    }
}

/// Order the groups by descending wasted space, stably.
fn sort_groups(groups: Vec<DuplicateGroup>, Ghost(ss): Ghost<Seq<GroupSpec>>) -> (r: Vec<DuplicateGroup>)
    requires
        spec_groups_match(groups@, ss),
    ensures
        spec_groups_match(r@, spec_sort_groups(ss)),
        spec_groups_sorted_desc(spec_sort_groups(ss)),
{
    let mut rest = groups;
    let mut sorted: Vec<DuplicateGroup> = Vec::new();
    while rest.len() > 0
        invariant
            rest@.len() <= ss.len(),
            spec_groups_match(rest@, ss.skip(ss.len() - rest@.len())),
            spec_groups_match(sorted@, spec_sort_groups(ss.take(ss.len() - rest@.len()))),
            spec_groups_sorted_desc(spec_sort_groups(ss.take(ss.len() - rest@.len()))),
        decreases rest@.len(),
    {
        let ghost i = ss.len() - rest@.len();
        let ghost s = ss[i as int];
        proof {
            assert(ss.skip(i as int)[0] == ss[i as int]);
            assert(spec_group_matches(rest@[0], s));
            assert(ss.take(i + 1).drop_last() =~= ss.take(i as int));
            assert(ss.take(i + 1).last() == ss[i as int]);
        }
        let ghost old_rest = rest@;
        let g = rest.remove(0);
        proof {
            assert forall|k: int| 0 <= k < rest@.len() implies spec_group_matches(
                #[trigger] rest@[k],
                ss.skip(i + 1)[k],
            ) by {
                assert(rest@[k] == old_rest[k + 1]);
                assert(spec_group_matches(old_rest[k + 1], ss.skip(i as int)[k + 1]));
                assert(ss.skip(i as int)[k + 1] == ss[i + 1 + k]);
                assert(ss.skip(i + 1)[k] == ss[i + 1 + k]);
            }
        }
        let ghost before = spec_sort_groups(ss.take(i as int));
        let wasted = g.total_wasted_space;
        let mut p: usize = 0;
        while p < sorted.len() && sorted[p].total_wasted_space >= wasted
            invariant
                p <= sorted@.len(),
                spec_groups_match(sorted@, before),
                spec_groups_sorted_desc(before),
                forall|j: int| 0 <= j < p ==> (#[trigger] before[j]).wasted >= wasted as int,
            decreases sorted@.len() - p,
        {
            proof {
                assert(spec_group_matches(sorted@[p as int], before[p as int]));
            }
            p = p + 1;
        }
        proof {
            if p < sorted.len() {
                assert(spec_group_matches(sorted@[p as int], before[p as int]));
            }
            assert(wasted as int == s.wasted);
            lemma_insert_group_at(before, s, p as int);
            lemma_insert_group_sorted(before, s, p as int);
        }
        let ghost old_sorted = sorted@;
        sorted.insert(p, g);
        proof {
            assert forall|k: int| 0 <= k < sorted@.len() implies spec_group_matches(
                #[trigger] sorted@[k],
                before.insert(p as int, s)[k],
            ) by {
                if k < p {
                    assert(sorted@[k] == old_sorted[k]);
                    assert(before.insert(p as int, s)[k] == before[k]);
                } else if k == p {
                    assert(sorted@[k] == g);
                    assert(before.insert(p as int, s)[k] == s);
                } else {
                    assert(sorted@[k] == old_sorted[k - 1]);
                    assert(before.insert(p as int, s)[k] == before[k - 1]);
                }
            }
        }
    }
    proof {
        assert(ss.take(ss.len() as int) =~= ss);
    }
    sorted
}

/// Sum the member counts, redundant copies and wasted space of the groups.
fn sum_totals(groups: &Vec<DuplicateGroup>, Ghost(ss): Ghost<Seq<GroupSpec>>) -> (r: (u64, u64, u64))
    requires
        spec_groups_match(groups@, ss),
        spec_sum_members(ss) <= u64::MAX,
        spec_sum_wasted(ss) <= u64::MAX,
        forall|k: int| 0 <= k < ss.len()
            ==> 0 <= (#[trigger] ss[k]).wasted && 1 <= ss[k].members.len(),
    ensures
        r.0 == spec_sum_members(ss),
        r.1 == spec_sum_wasted(ss),
        r.2 == spec_sum_redundant(ss),
{
    let mut total_files: u64 = 0;
    let mut total_wasted: u64 = 0;
    let mut total_redundant: u64 = 0;
    let mut k: usize = 0;
    while k < groups.len()
        invariant
            k <= groups@.len(),
            spec_groups_match(groups@, ss),
            spec_sum_members(ss) <= u64::MAX,
            spec_sum_wasted(ss) <= u64::MAX,
            forall|t: int| 0 <= t < ss.len()
                ==> 0 <= (#[trigger] ss[t]).wasted && 1 <= ss[t].members.len(),
            total_files == spec_sum_members(ss.take(k as int)),
            total_wasted == spec_sum_wasted(ss.take(k as int)),
            total_redundant == spec_sum_redundant(ss.take(k as int)),
            total_redundant <= total_files,
        decreases groups@.len() - k,
    {
        proof {
            assert(ss.take(k + 1).drop_last() =~= ss.take(k as int));
            assert(ss.take(k + 1).last() == ss[k as int]);
            assert(spec_group_matches(groups@[k as int], ss[k as int]));
            lemma_group_sums_prefix(ss, k + 1);
        }
        total_files = total_files + groups[k].files.len() as u64;
        total_wasted = total_wasted + groups[k].total_wasted_space;
        total_redundant = total_redundant + (groups[k].files.len() as u64 - 1);
        k = k + 1;
    }
    proof {
        assert(ss.take(groups@.len() as int) =~= ss);
    }
    (total_files, total_wasted, total_redundant)
}

proof fn lemma_class_digest(files: Seq<CandidateFile>, opts: DuplicateDetectorOptions, key: Seq<u8>, a: int)
    requires
        0 <= a < spec_class(files, opts, key).len(),
    ensures
        spec_full_digest(spec_class(files, opts, key)[a].content@) == spec_full_digest(key),
        spec_class(files, opts, key)[a].content@.len() == key.len(),
    decreases files.len(),
{
    if files.len() > 0 {
        let c = spec_class(files, opts, key);
        let p = spec_class(files.drop_last(), opts, key);
        if spec_eligible(files.last(), opts)
            && spec_same_key(files.last().content@, key, opts.quick_hash_size as nat) {
            if a < p.len() {
                lemma_class_digest(files.drop_last(), opts, key, a);
            } else {
                assert(c[a] == files.last());
            }
        } else {
            lemma_class_digest(files.drop_last(), opts, key, a);
        }
    }
}

proof fn lemma_groups_from_provenance(files: Seq<CandidateFile>, opts: DuplicateDetectorOptions, n: int, k: int)
    requires
        0 <= k < spec_groups_from(files, opts, n).len(),
    ensures
        exists|i: int|
            0 <= i < files.len() && spec_group_leader(files, opts, i)
                && spec_groups_from(files, opts, n)[k] == #[trigger] spec_group_of(files, opts, i),
    decreases n,
{
    if n > 0 {
        let prefix = spec_groups_from(files, opts, n - 1);
        if spec_group_leader(files, opts, n - 1) && k == prefix.len() {
            assert(spec_groups_from(files, opts, n)[k] == spec_group_of(files, opts, n - 1));
        } else {
            lemma_groups_from_provenance(files, opts, n - 1, k);
            let i = choose|i: int|
                0 <= i < files.len() && spec_group_leader(files, opts, i)
                    && prefix[k] == #[trigger] spec_group_of(files, opts, i);
            assert(spec_groups_from(files, opts, n)[k] == prefix[k]);
        }
    }
}

proof fn lemma_insert_group_len(sorted: Seq<GroupSpec>, g: GroupSpec)
    ensures
        spec_insert_group(sorted, g).len() == sorted.len() + 1,
    decreases sorted.len(),
{
    if sorted.len() == 0 {
    } else if sorted.last().wasted >= g.wasted {
    } else {
        lemma_insert_group_len(sorted.drop_last(), g);
    }
}

proof fn lemma_insert_group_provenance(sorted: Seq<GroupSpec>, g: GroupSpec, k: int)
    requires
        0 <= k < spec_insert_group(sorted, g).len(),
    ensures
        spec_insert_group(sorted, g).len() == sorted.len() + 1,
        spec_insert_group(sorted, g)[k] == g || exists|j: int|
            0 <= j < sorted.len() && spec_insert_group(sorted, g)[k] == sorted[j],
    decreases sorted.len(),
{
    lemma_insert_group_len(sorted, g);
    if sorted.len() == 0 {
    } else if sorted.last().wasted >= g.wasted {
    } else {
        lemma_insert_group_len(sorted.drop_last(), g);
        let inner = spec_insert_group(sorted.drop_last(), g);
        if k < inner.len() {
            lemma_insert_group_provenance(sorted.drop_last(), g, k);
        } else {
            assert(spec_insert_group(sorted, g)[k] == sorted.last());
        }
    }
}

proof fn lemma_sort_groups_len(groups: Seq<GroupSpec>)
    ensures
        spec_sort_groups(groups).len() == groups.len(),
    decreases groups.len(),
{
    if groups.len() > 0 {
        lemma_sort_groups_len(groups.drop_last());
        lemma_insert_group_len(spec_sort_groups(groups.drop_last()), groups.last());
    }
}

proof fn lemma_sort_groups_provenance(groups: Seq<GroupSpec>, k: int)
    requires
        0 <= k < spec_sort_groups(groups).len(),
    ensures
        spec_sort_groups(groups).len() == groups.len(),
        exists|j: int| 0 <= j < groups.len() && spec_sort_groups(groups)[k] == groups[j],
    decreases groups.len(),
{
    lemma_sort_groups_len(groups);
    if groups.len() > 0 {
        let inner = spec_sort_groups(groups.drop_last());
        lemma_sort_groups_len(groups.drop_last());
        lemma_insert_group_provenance(inner, groups.last(), k);
        if spec_sort_groups(groups)[k] == groups.last() {
            assert(spec_sort_groups(groups)[k] == groups[groups.len() - 1]);
        } else {
            let j = choose|j: int| 0 <= j < inner.len() && spec_sort_groups(groups)[k] == inner[j];
            lemma_sort_groups_provenance(groups.drop_last(), j);
            let j2 = choose|j2: int| 0 <= j2 < groups.drop_last().len() && inner[j] == groups.drop_last()[j2];
            assert(spec_sort_groups(groups)[k] == groups[j2]);
        }
    }
}

/// Duplicate detection is a function of the file set alone: two runs over
/// unchanged candidates report identical groups, in the same order, with
/// the same hashes and wasted space.
pub proof fn lemma_duplicate_detection_deterministic(
    files: Seq<CandidateFile>,
    opts: DuplicateDetectorOptions,
    r1: Seq<GroupSpec>,
    r2: Seq<GroupSpec>,
)
    requires
        r1 == spec_duplicate_groups(files, opts),
        r2 == spec_duplicate_groups(files, opts),
    ensures
        r1 == r2,
{
}

/// Every reported group is the class of some leading file: the files that
/// are eligible and share the leader's size, quick digest and full digest.
pub proof fn lemma_reported_group_from_leader(files: Seq<CandidateFile>, opts: DuplicateDetectorOptions, k: int)
    requires
        0 <= k < spec_duplicate_groups(files, opts).len(),
    ensures
        exists|i: int|
            0 <= i < files.len() && spec_group_leader(files, opts, i)
                && spec_duplicate_groups(files, opts)[k] == #[trigger] spec_group_of(files, opts, i),
{
    let ss = spec_groups_unsorted(files, opts);
    lemma_sort_groups_provenance(ss, k);
    let j = choose|j: int| 0 <= j < ss.len() && spec_duplicate_groups(files, opts)[k] == ss[j];
    lemma_groups_from_provenance(files, opts, files.len() as int, j);
    let i = choose|i: int|
        0 <= i < files.len() && spec_group_leader(files, opts, i)
            && ss[j] == #[trigger] spec_group_of(files, opts, i);
    assert(spec_duplicate_groups(files, opts)[k] == spec_group_of(files, opts, i));
}

/// Files of distinct full-content digest never share a reported group:
/// any two members of one group have equal full digests — the group's own
/// hash — and equal sizes. The quick digest is only ever a filter.
pub proof fn lemma_group_members_share_full_digest(
    files: Seq<CandidateFile>,
    opts: DuplicateDetectorOptions,
    i: int,
    a: int,
    b: int,
)
    requires
        0 <= i < files.len(),
        0 <= a < spec_class(files, opts, files[i].content@).len(),
        0 <= b < spec_class(files, opts, files[i].content@).len(),
    ensures
        spec_full_digest(spec_class(files, opts, files[i].content@)[a].content@)
            == spec_full_digest(spec_class(files, opts, files[i].content@)[b].content@),
        spec_full_digest(spec_class(files, opts, files[i].content@)[a].content@)
            == spec_group_of(files, opts, i).hash,
        spec_class(files, opts, files[i].content@)[a].content@.len()
            == spec_class(files, opts, files[i].content@)[b].content@.len(),
{
    lemma_class_digest(files, opts, files[i].content@, a);
    lemma_class_digest(files, opts, files[i].content@, b);
}

/// The duplicate detector.
pub struct DuplicateDetector {
    pub options: DuplicateDetectorOptions,
}

impl DuplicateDetector {
    /// A detector over the given options.
    pub fn new(options: DuplicateDetectorOptions) -> (r: Self)
        ensures
            r.options == options,
    {
        DuplicateDetector { options }
    }

    /// Find the groups of files with identical content among the
    /// candidates: group by size, then by quick digest, then by full
    /// digest; report the classes of at least two members, ordered by
    /// descending wasted space. On cancellation no partial result comes
    /// back, only the `Cancelled` error; with no candidates there is no
    /// poll, so an empty search always succeeds.
    pub fn find_duplicates(&self, files: &Vec<CandidateFile>, cancel: &CancelFlag) -> (r: Result<DuplicateScanResult, CleanerError>)
        requires
            spec_total_content(files@) <= u64::MAX,
        ensures
            files@.len() == 0 ==> r is Ok,
            r matches Ok(res) ==> {
                &&& spec_groups_match(res.groups@, spec_duplicate_groups(files@, self.options))
                &&& spec_groups_sorted_desc(spec_duplicate_groups(files@, self.options))
                &&& res.total_duplicate_files == spec_sum_members(spec_duplicate_groups(files@, self.options))
                &&& res.total_duplicates == spec_sum_redundant(spec_duplicate_groups(files@, self.options))
                &&& res.total_wasted_space == spec_sum_wasted(spec_duplicate_groups(files@, self.options))
            },
            r matches Err(e) ==> e == CleanerError::Cancelled,
    {
        let opts = &self.options;
        let keep1 = compute_keep1(files, opts);
        let quick = compute_quick(files, &keep1, opts);
        let keep2 = compute_keep2(files, &keep1, &quick, opts);
        proof {
            assert forall|k: int| 0 <= k < files@.len() && keep2@[k] implies (#[trigger] quick@[k])@
                == spec_quick_digest(files@[k].content@, opts.quick_hash_size as nat) by {
                assert(keep1@[k]);
            }
        }
        let full = match compute_full(files, &keep2, cancel) {
            Ok(v) => v,
            Err(e) => {
                return Err(CleanerError::Cancelled);
            },
        };
        let groups = match collect_groups(files, &keep2, &quick, &full, opts, cancel) {
            Ok(v) => v,
            Err(e) => {
                return Err(CleanerError::Cancelled);
            },
        };
        let ghost ss = spec_groups_unsorted(files@, self.options);
        let candidate_count = files.len();
        proof {
            lemma_groups_from_bounded(files@, self.options, files@.len() as int);
            lemma_sort_groups_bounded(ss, files@.len() as int, spec_total_content(files@));
            lemma_leader_keys(files@, self.options, files@.len() as int);
            lemma_class_sums_bounded(
                files@,
                self.options,
                spec_leader_keys(files@, self.options, files@.len() as int),
            );
            lemma_group_sums_vs_classes(files@, self.options, files@.len() as int);
            assert(spec_sum_members(ss) <= candidate_count);
            lemma_sort_groups_sums(ss);
        }
        let sorted = sort_groups(groups, Ghost(ss));
        let (total_duplicate_files, total_wasted_space, total_duplicates) = sum_totals(
            &sorted,
            Ghost(spec_sort_groups(ss)),
        );
        Ok(DuplicateScanResult { groups: sorted, total_duplicate_files, total_duplicates, total_wasted_space })
    }
}

} // verus!
