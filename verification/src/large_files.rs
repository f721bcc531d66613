//! The large-file finder: keep the files at or above a size floor, order
//! them by descending size (stable, so equally sized files keep their scan
//! order), and report at most the requested number of leaders.

use vstd::prelude::*;

use crate::scanner::{ScannedFile, spec_total_file_size};

verus! {

/// What the finder reports: the leading files and their totals.
#[derive(Debug)]
pub struct LargeFileResult {
    pub files: Vec<ScannedFile>,
    pub total_size: u64,
    pub total_count: u64,
}

/// The files at or above the size floor, in their original order.
pub open spec fn spec_large_candidates(files: Seq<ScannedFile>, min_size: u64) -> Seq<ScannedFile>
    decreases files.len(),
{
    if files.len() == 0 {
        Seq::<ScannedFile>::empty()
    } else {
        let prefix = spec_large_candidates(files.drop_last(), min_size);
        if files.last().size >= min_size {
            prefix.push(files.last())
        } else {
            prefix
        }
    }
}

/// Insert a file into a list sorted by descending size, after every file at
/// least as large, so that the order of equally sized files is kept.
pub open spec fn spec_insert_by_size(sorted: Seq<ScannedFile>, f: ScannedFile) -> Seq<ScannedFile>
    decreases sorted.len(),
{
    if sorted.len() == 0 {
        seq![f]
    } else if sorted.last().size >= f.size {
        sorted.push(f)
    } else {
        spec_insert_by_size(sorted.drop_last(), f).push(sorted.last())
    }
}

/// Stable sort by descending size: insert the files one after another.
pub open spec fn spec_sort_by_size(files: Seq<ScannedFile>) -> Seq<ScannedFile>
    decreases files.len(),
{
    if files.len() == 0 {
        files
    } else {
        spec_insert_by_size(spec_sort_by_size(files.drop_last()), files.last())
    }
}

/// Sizes never increase along the list.
pub open spec fn spec_sorted_desc(files: Seq<ScannedFile>) -> bool {
    forall|i: int, j: int| 0 <= i <= j < files.len() ==> (#[trigger] files[i]).size >= (#[trigger] files[j]).size
}

/// Inserting at the first position whose size falls below the new file's is
/// exactly the stable insertion.
proof fn lemma_insert_by_size_at(sorted: Seq<ScannedFile>, f: ScannedFile, p: int)
    requires
        spec_sorted_desc(sorted),
        0 <= p <= sorted.len(),
        forall|j: int| 0 <= j < p ==> (#[trigger] sorted[j]).size >= f.size,
        p < sorted.len() ==> sorted[p].size < f.size,
    ensures
        spec_insert_by_size(sorted, f) == sorted.insert(p, f),
    decreases sorted.len(),
{
    if sorted.len() == 0 {
        assert(spec_insert_by_size(sorted, f) =~= sorted.insert(p, f));
    } else if sorted.last().size >= f.size {
        assert(p == sorted.len());
        assert(sorted.push(f) =~= sorted.insert(p, f));
    } else {
        assert(p < sorted.len());
        lemma_insert_by_size_at(sorted.drop_last(), f, p);
        assert(spec_insert_by_size(sorted.drop_last(), f).push(sorted.last()) =~= sorted.insert(p, f));
    }
}

/// The stable insertion keeps the list sorted.
proof fn lemma_insert_by_size_sorted(sorted: Seq<ScannedFile>, f: ScannedFile, p: int)
    requires
        spec_sorted_desc(sorted),
        0 <= p <= sorted.len(),
        forall|j: int| 0 <= j < p ==> (#[trigger] sorted[j]).size >= f.size,
        p < sorted.len() ==> sorted[p].size < f.size,
    ensures
        spec_sorted_desc(sorted.insert(p, f)),
{
    let out = sorted.insert(p, f);
    assert forall|i: int, j: int| 0 <= i <= j < out.len() implies (#[trigger] out[i]).size >= (#[trigger] out[j]).size by {
        if i < p && j < p {
        } else if i >= p + 1 && j >= p + 1 {
            assert(sorted[i - 1].size >= sorted[j - 1].size);
        } else if i == p && j == p {
        } else if i < p && j == p {
            assert(sorted[i].size >= f.size);
        } else if i == p && j > p {
            assert(sorted[j - 1].size <= sorted[p].size);
        } else {
            assert(i < p && j > p);
            assert(sorted[i].size >= sorted[j - 1].size);
        }
    }
}

/// Sorting keeps the total of the sizes.
proof fn lemma_insert_by_size_total(sorted: Seq<ScannedFile>, f: ScannedFile)
    ensures
        spec_total_file_size(spec_insert_by_size(sorted, f)) == spec_total_file_size(sorted) + f.size,
    decreases sorted.len(),
{
    let out = spec_insert_by_size(sorted, f);
    if sorted.len() == 0 {
        assert(out == seq![f]);
        assert(out.drop_last() =~= sorted);
        assert(out.last() == f);
        assert(spec_total_file_size(out) == spec_total_file_size(sorted) + f.size);
    } else if sorted.last().size >= f.size {
        assert(out == sorted.push(f));
        assert(out.drop_last() =~= sorted);
        assert(out.last() == f);
        assert(spec_total_file_size(out) == spec_total_file_size(sorted) + f.size);
    } else {
        lemma_insert_by_size_total(sorted.drop_last(), f);
        let inner = spec_insert_by_size(sorted.drop_last(), f);
        assert(out == inner.push(sorted.last()));
        assert(out.drop_last() =~= inner);
        assert(out.last() == sorted.last());
        assert(spec_total_file_size(out) == spec_total_file_size(inner) + sorted.last().size);
        assert(spec_total_file_size(sorted) == spec_total_file_size(sorted.drop_last()) + sorted.last().size);
    }
}

proof fn lemma_sort_by_size_total(files: Seq<ScannedFile>)
    ensures
        spec_total_file_size(spec_sort_by_size(files)) == spec_total_file_size(files),
    decreases files.len(),
{
    if files.len() > 0 {
        lemma_sort_by_size_total(files.drop_last());
        lemma_insert_by_size_total(spec_sort_by_size(files.drop_last()), files.last());
    }
}

proof fn lemma_large_candidates_total(files: Seq<ScannedFile>, min_size: u64)
    ensures
        0 <= spec_total_file_size(spec_large_candidates(files, min_size)) <= spec_total_file_size(files),
    decreases files.len(),
{
    if files.len() == 0 {
    } else {
        lemma_large_candidates_total(files.drop_last(), min_size);
        if files.last().size >= min_size {
            let prefix = spec_large_candidates(files.drop_last(), min_size);
            assert(prefix.push(files.last()).drop_last() =~= prefix);
        }
    }
}

/// The large-file finder: a size floor in bytes and an optional cap on how
/// many files to report.
pub struct LargeFileFinder {
    pub min_size: u64,
    pub top_n: Option<usize>,
}

impl LargeFileFinder {
    /// A finder for files of at least `min_size_mb` mebibytes, reporting at
    /// most `top_n` of them when a cap is given.
    pub fn new(min_size_mb: u64, top_n: Option<usize>) -> (r: Self)
        requires
            min_size_mb <= u64::MAX / 1048576,
        ensures
            r.min_size == min_size_mb * 1048576,
            r.top_n == top_n,
    {
        LargeFileFinder { min_size: min_size_mb * 1048576, top_n }
    }

    /// The files at or above the floor, largest first (equally sized files
    /// keep their order), capped at `top_n`, with their count and byte total.
    pub fn find(&self, files: Vec<ScannedFile>) -> (r: LargeFileResult)
        requires
            spec_total_file_size(files@) <= u64::MAX,
        ensures
            ({
                let candidates = spec_large_candidates(files@, self.min_size);
                let sorted = spec_sort_by_size(candidates);
                let kept = match self.top_n {
                    Some(n) => if n < sorted.len() {
                        sorted.subrange(0, n as int)
                    } else {
                        sorted
                    },
                    None => sorted,
                };
                &&& r.files@ == kept
                &&& spec_sorted_desc(r.files@)
                &&& r.total_count == r.files@.len()
                &&& r.total_size == spec_total_file_size(r.files@)
            }),
    {
        let ghost all = files@;
        let mut rest = files;
        let mut sorted: Vec<ScannedFile> = Vec::new();
        while rest.len() > 0
            invariant
                rest@.len() <= all.len(),
                rest@ == all.skip(all.len() - rest@.len()),
                sorted@ == spec_sort_by_size(spec_large_candidates(all.take(all.len() - rest@.len()), self.min_size)),
                spec_sorted_desc(sorted@),
            decreases rest@.len(),
        {
            let ghost i = all.len() - rest@.len();
            proof {
                assert(rest@[0] == all[i as int]);
                assert(all.take(i + 1).drop_last() =~= all.take(i as int));
                assert(all.take(i + 1).last() == all[i as int]);
            }
            let f = rest.remove(0);
            proof {
                assert(rest@ =~= all.skip(i + 1));
            }
            if f.size >= self.min_size {
                let size = f.size;
                let ghost before = sorted@;
                let mut p: usize = 0;
                while p < sorted.len() && sorted[p].size >= size
                    invariant
                        p <= sorted@.len(),
                        sorted@ == before,
                        spec_sorted_desc(sorted@),
                        forall|j: int| 0 <= j < p ==> (#[trigger] sorted@[j]).size >= size,
                    decreases sorted@.len() - p,
                {
                    p = p + 1;
                }
                proof {
                    lemma_insert_by_size_at(before, f, p as int);
                    lemma_insert_by_size_sorted(before, f, p as int);
                }
                sorted.insert(p, f);
                proof {
                    let kept = spec_large_candidates(all.take(i + 1), self.min_size);
                    assert(kept.drop_last() =~= spec_large_candidates(all.take(i as int), self.min_size));
                }
            }
        }
        proof {
            assert(all.take(all.len() as int) =~= all);
        }

        proof {
            lemma_large_candidates_total(all, self.min_size);
            lemma_sort_by_size_total(spec_large_candidates(all, self.min_size));
        }
        let ghost full_sorted = sorted@;
        if let Some(n) = self.top_n {
            sorted.truncate(n);
        }
        proof {
            match self.top_n {
                Some(n) => {
                    if n <= full_sorted.len() {
                        crate::scanner::lemma_total_file_size_prefix(full_sorted, n as int);
                        assert(full_sorted.subrange(0, n as int) =~= full_sorted.take(n as int));
                    }
                },
                None => {},
            }
            assert(spec_total_file_size(sorted@) <= u64::MAX);
        }

        let mut total_size: u64 = 0;
        let mut k: usize = 0;
        while k < sorted.len()
            invariant
                k <= sorted@.len(),
                total_size == spec_total_file_size(sorted@.take(k as int)),
                spec_total_file_size(sorted@) <= u64::MAX,
            decreases sorted@.len() - k,
        {
            proof {
                assert(sorted@.take(k + 1).drop_last() =~= sorted@.take(k as int));
                assert(sorted@.take(k + 1).last() == sorted@[k as int]);
                crate::scanner::lemma_total_file_size_prefix(sorted@, k + 1);
            }
            total_size = total_size + sorted[k].size;
            k = k + 1;
        }
        proof {
            assert(sorted@.take(sorted@.len() as int) =~= sorted@);
        }
        let total_count = sorted.len() as u64;
        LargeFileResult { files: sorted, total_size, total_count }
    }
}

} // verus!
