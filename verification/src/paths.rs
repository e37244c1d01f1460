//! Choosing the files to scan among the entries that a glob pattern expands
//! to.
//!
//! Expanding the pattern and asking the file system about each path happens
//! outside this library; the functions here decide what to do with the
//! answers. They are generic in the type of a path and of a failure, of which
//! they read nothing.

use vstd::prelude::*;

verus! {

/// Whether entry `i` is the first of `entries` that failed.
pub open spec fn first_failure<P, E>(entries: Seq<Result<P, E>>, i: int) -> bool {
    &&& 0 <= i < entries.len()
    &&& entries[i] is Err
    &&& forall|j: int| 0 <= j < i ==> (#[trigger] entries[j]) is Ok
}

/// The paths among `entries` that are flagged as regular files, in the
/// order in which they stand there.
pub open spec fn regular_files<P>(entries: Seq<(P, bool)>) -> Seq<P> {
    entries.filter(|e: (P, bool)| e.1).map_values(|e: (P, bool)| e.0)
}

/// Collects the paths that a pattern expanded to.
///
/// An entry of the expansion is either a path or the failure to read a
/// directory on the way. The paths are returned in order if no entry failed,
/// and the first failure otherwise.
pub fn get_paths<P, E>(entries: Vec<Result<P, E>>) -> (r: Result<Vec<P>, E>)
    ensures
        match r {
            Ok(paths) => {
                &&& paths@.len() == entries@.len()
                &&& forall|i: int|
                    0 <= i < entries@.len() ==> #[trigger] entries@[i] == Ok::<P, E>(paths@[i])
            },
            Err(e) => exists|i: int|
                first_failure(entries@, i) && #[trigger] entries@[i] == Err::<P, E>(e),
        },
{
    let ghost all = entries@;
    let mut paths: Vec<P> = Vec::new();
    for entry in it: entries.into_iter()
        invariant
            it.seq() == all,
            paths@.len() == it.index(),
            forall|i: int| 0 <= i < it.index() ==> #[trigger] all[i] == Ok::<P, E>(paths@[i]),
    {
        match entry {
            Ok(path) => {
                paths.push(path);
            },
            Err(e) => {
                return Err(e);
            },
        }
    }
    Ok(paths)
}

/// Keeps the paths that name regular files.
///
/// Each entry pairs a path with the answer to "is this a regular file?".
/// Directories and other entries that are no files are dropped, and the
/// remaining paths keep their order.
pub fn get_files<P>(entries: Vec<(P, bool)>) -> (files: Vec<P>)
    ensures
        files@ == regular_files(entries@),
{
    let ghost all = entries@;
    let ghost is_file = |e: (P, bool)| e.1;
    let ghost path_of = |e: (P, bool)| e.0;
    let mut files: Vec<P> = Vec::new();
    for entry in it: entries.into_iter()
        invariant
            it.seq() == all,
            is_file == |e: (P, bool)| e.1,
            path_of == |e: (P, bool)| e.0,
            files@ == all.take(it.index() as int).filter(is_file).map_values(path_of),
    {
        proof {
            let k = it.index() as int;
            let seen = all.take(k);
            assert(all.take(k + 1) =~= seen.push(all[k]));
            seen.lemma_filter_push(all[k], is_file);
            seen.filter(is_file).lemma_push_map_commute(path_of, all[k]);
        }
        let (path, flagged) = entry;
        if flagged {
            files.push(path);
        }
    }
    proof {
        assert(all.take(all.len() as int) =~= all);
    }
    files
}

} // verus!
