//! Path splitting over byte strings: file names are the bytes after the last
//! separator, extensions the bytes after the last dot of the file name.

use vstd::prelude::*;

verus! {

/// A path separator byte: `/` or `\`.
pub open spec fn is_sep(b: u8) -> bool {
    b == 47u8 || b == 92u8
}

/// A dot byte: `.`.
pub open spec fn is_dot(b: u8) -> bool {
    b == 46u8
}

/// The suffix of `p` that follows the last byte satisfying `stop`
/// (all of `p` when no byte satisfies it).
pub open spec fn tail_after(p: Seq<u8>, stop: spec_fn(u8) -> bool) -> Seq<u8>
    decreases p.len(),
{
    if p.len() == 0 {
        p
    } else if stop(p[p.len() - 1]) {
        Seq::<u8>::empty()
    } else {
        tail_after(p.drop_last(), stop).push(p[p.len() - 1])
    }
}

/// If no byte of `p` at or after position `k` satisfies `stop`, and either
/// `k` is 0 or the byte just before `k` satisfies it, then the tail after the
/// last stop byte is exactly `p` from `k` on.
pub proof fn lemma_tail_after(p: Seq<u8>, stop: spec_fn(u8) -> bool, k: int)
    requires
        0 <= k <= p.len(),
        forall|j: int| k <= j < p.len() ==> !stop(p[j]),
        k > 0 ==> stop(p[k - 1]),
    ensures
        tail_after(p, stop) == p.subrange(k, p.len() as int),
    decreases p.len(),
{
    if p.len() == k {
        assert(tail_after(p, stop) =~= p.subrange(k, p.len() as int));
    } else {
        lemma_tail_after(p.drop_last(), stop, k);
        assert(tail_after(p, stop) =~= p.subrange(k, p.len() as int));
    }
}

/// The file name of a path: the bytes after the last separator.
pub open spec fn file_name_of(p: Seq<u8>) -> Seq<u8> {
    tail_after(p, |b: u8| is_sep(b))
}

/// Whether a dot occurs at a position past the first byte of a file name:
/// only then does the name carry an extension, so a name that is nothing but
/// a leading dot (a hidden file) has none.
pub open spec fn has_extension_dot(name: Seq<u8>) -> bool {
    exists|i: int| 1 <= i < name.len() && is_dot(#[trigger] name[i])
}

/// The extension of a file name: the bytes after its last dot, provided that
/// dot is past the first byte.
pub open spec fn extension_of(name: Seq<u8>) -> Option<Seq<u8>> {
    if has_extension_dot(name) {
        Some(tail_after(name, |b: u8| is_dot(b)))
    } else {
        None
    }
}

/// The file name of a path: the bytes after the last separator.
pub fn file_name(path: &Vec<u8>) -> (r: Vec<u8>)
    ensures
        r@ == file_name_of(path@),
{
    let mut k: usize = path.len();
    while k > 0 && path[k - 1] != 47u8 && path[k - 1] != 92u8
        invariant
            k <= path.len(),
            forall|j: int| k <= j < path@.len() ==> !is_sep(#[trigger] path@[j]),
        decreases k,
    {
        k = k - 1;
    }
    proof {
        lemma_tail_after(path@, |b: u8| is_sep(b), k as int);
    }
    crate::bytes::subvec(path, k, path.len())
}

/// The extension of a file name: the bytes after its last dot, provided that
/// dot is past the first byte.
pub fn extension(name: &Vec<u8>) -> (r: Option<Vec<u8>>)
    ensures
        match r {
            Some(e) => extension_of(name@) == Some(e@),
            None => extension_of(name@) is None,
        },
{
    let mut k: usize = name.len();
    while k > 0 && name[k - 1] != 46u8
        invariant
            k <= name.len(),
            forall|j: int| k <= j < name@.len() ==> !is_dot(#[trigger] name@[j]),
        decreases k,
    {
        k = k - 1;
    }
    if k <= 1 {
        proof {
            assert(!has_extension_dot(name@));
        }
        None
    } else {
        proof {
            assert(has_extension_dot(name@)) by {
                assert(is_dot(name@[k - 1]));
            }
            lemma_tail_after(name@, |b: u8| is_dot(b), k as int);
        }
        Some(crate::bytes::subvec(name, k, name.len()))
    }
}

/// Whether the file name of `path` begins with a dot.
pub fn is_hidden_file(path: &Vec<u8>) -> (r: bool)
    ensures
        r == (file_name_of(path@).len() > 0 && is_dot(file_name_of(path@)[0])),
{
    let name = file_name(path);
    name.len() > 0 && name[0] == 46u8
}

} // verus!
