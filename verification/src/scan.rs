//! Results of walking a source tree: the entries found, the count of
//! regular files (the progress target), and the ordered directory and
//! file lists drawn from the entries.

use vstd::prelude::*;
use crate::fs_path::FsPath;
use crate::fs_path::paths_view;

verus! {

/// What kind of filesystem object a scanned entry is.
#[derive(Clone, Copy, PartialEq, Eq, Structural, Debug)]
pub enum EntryKind {
    Directory,
    File,
}

/// One entry found while walking the source tree.
pub struct ScanEntry {
    pub path: FsPath,
    pub kind: EntryKind,
}

/// The paths of the file entries of `s`, in scan order.
pub open spec fn file_paths(s: Seq<ScanEntry>) -> Seq<Seq<Seq<char>>>
    decreases s.len(),
{
    if s.len() == 0 {
        Seq::empty()
    } else {
        let rest = file_paths(s.drop_last());
        if s.last().kind is File {
            rest.push(s.last().path@)
        } else {
            rest
        }
    }
}

/// The paths of the directory entries of `s`, in scan order.
pub open spec fn dir_paths(s: Seq<ScanEntry>) -> Seq<Seq<Seq<char>>>
    decreases s.len(),
{
    if s.len() == 0 {
        Seq::empty()
    } else {
        let rest = dir_paths(s.drop_last());
        if s.last().kind is Directory {
            rest.push(s.last().path@)
        } else {
            rest
        }
    }
}

/// How many of the entries of `s` are regular files.
pub open spec fn spec_file_count(s: Seq<ScanEntry>) -> nat {
    file_paths(s).len()
}

/// The total number of regular files among the scanned entries: the
/// progress target of a transfer.
pub fn count_files_in_dir(entries: &Vec<ScanEntry>) -> (n: usize)
    ensures
        n == spec_file_count(entries@),
{
    let mut n: usize = 0;
    let mut i: usize = 0;
    while i < entries.len()
        invariant
            i <= entries@.len(),
            n == spec_file_count(entries@.take(i as int)),
            n <= i,
        decreases entries@.len() - i,
    {
        proof {
            assert(entries@.take(i + 1).drop_last() =~= entries@.take(i as int));
            assert(entries@.take(i + 1).last() == entries@[i as int]);
        }
        if matches!(entries[i].kind, EntryKind::File) {
            n += 1;
        }
        i += 1;
    }
    proof {
        assert(entries@.take(entries@.len() as int) =~= entries@);
    }
    n
}

/// The paths of all directory entries, in scan order.
pub fn get_directories(entries: &Vec<ScanEntry>) -> (r: Vec<FsPath>)
    ensures
        paths_view(r@) == dir_paths(entries@),
{
    let mut r: Vec<FsPath> = Vec::new();
    let mut i: usize = 0;
    while i < entries.len()
        invariant
            i <= entries@.len(),
            paths_view(r@) == dir_paths(entries@.take(i as int)),
        decreases entries@.len() - i,
    {
        proof {
            assert(entries@.take(i + 1).drop_last() =~= entries@.take(i as int));
            assert(entries@.take(i + 1).last() == entries@[i as int]);
        }
        if matches!(entries[i].kind, EntryKind::Directory) {
            let p = entries[i].path.clone();
            let ghost prev = r@;
            r.push(p);
            proof {
                assert(paths_view(r@) =~= paths_view(prev).push(entries@[i as int].path@));
            }
        }
        i += 1;
    }
    proof {
        assert(entries@.take(entries@.len() as int) =~= entries@);
    }
    r
}

/// The paths of all file entries, in scan order.
pub fn get_files(entries: &Vec<ScanEntry>) -> (r: Vec<FsPath>)
    ensures
        paths_view(r@) == file_paths(entries@),
{
    let mut r: Vec<FsPath> = Vec::new();
    let mut i: usize = 0;
    while i < entries.len()
        invariant
            i <= entries@.len(),
            paths_view(r@) == file_paths(entries@.take(i as int)),
        decreases entries@.len() - i,
    {
        proof {
            assert(entries@.take(i + 1).drop_last() =~= entries@.take(i as int));
            assert(entries@.take(i + 1).last() == entries@[i as int]);
        }
        if matches!(entries[i].kind, EntryKind::File) {
            let p = entries[i].path.clone();
            let ghost prev = r@;
            r.push(p);
            proof {
                assert(paths_view(r@) =~= paths_view(prev).push(entries@[i as int].path@));
            }
        }
        i += 1;
    }
    proof {
        assert(entries@.take(entries@.len() as int) =~= entries@);
    }
    r
}

} // verus!
