//! The directory-replication plan: every source directory mapped
//! through the root-prefix substitution. Creating all of these before
//! any copy starts means no worker ever has to create a parent
//! directory.

use vstd::prelude::*;
use crate::fs_path::FsPath;
use crate::fs_path::is_prefix;
use crate::fs_path::mirror_path;
use crate::fs_path::mirror_view;
use crate::fs_path::paths_view;

verus! {

/// The destination directories to create, in order: each source
/// directory with the source root prefix replaced by the target root.
pub fn mirror_dirs(dirs: &Vec<FsPath>, source: &FsPath, target: &FsPath) -> (r: Vec<FsPath>)
    requires
        forall|i: int| 0 <= i < dirs@.len() ==> is_prefix(source@, (#[trigger] dirs@[i])@),
    ensures
        paths_view(r@) == paths_view(dirs@).map_values(
            |d: Seq<Seq<char>>| mirror_view(source@, target@, d),
        ),
{
    let ghost goal = paths_view(dirs@).map_values(
        |d: Seq<Seq<char>>| mirror_view(source@, target@, d),
    );
    let mut r: Vec<FsPath> = Vec::new();
    let mut i: usize = 0;
    while i < dirs.len()
        invariant
            i <= dirs@.len(),
            goal == paths_view(dirs@).map_values(
                |d: Seq<Seq<char>>| mirror_view(source@, target@, d),
            ),
            forall|j: int| 0 <= j < dirs@.len() ==> is_prefix(source@, (#[trigger] dirs@[j])@),
            r@.len() == i,
            forall|j: int| 0 <= j < i ==> (#[trigger] r@[j])@ == goal[j],
        decreases dirs@.len() - i,
    {
        match mirror_path(&dirs[i], source, target) {
            Some(dst) => {
                r.push(dst);
            },
            None => {
                proof {
                    assert(is_prefix(source@, dirs@[i as int]@));
                    assert(false);
                }
            },
        }
        i += 1;
    }
    proof {
        assert(paths_view(r@) =~= goal);
    }
    r
}

/// The directories created at the destination are, as a set, exactly
/// the source directories mapped through the root-prefix substitution.
pub proof fn lemma_replication_covers_source_dirs(
    mirrored: Seq<Seq<Seq<char>>>,
    dirs: Seq<Seq<Seq<char>>>,
    source: Seq<Seq<char>>,
    target: Seq<Seq<char>>,
)
    requires
        mirrored == dirs.map_values(|d: Seq<Seq<char>>| mirror_view(source, target, d)),
    ensures
        mirrored.to_set() == dirs.to_set().map(
            |d: Seq<Seq<char>>| mirror_view(source, target, d),
        ),
{
    let f = |d: Seq<Seq<char>>| mirror_view(source, target, d);
    let lhs = mirrored.to_set();
    let rhs = dirs.to_set().map(f);
    assert forall|x: Seq<Seq<char>>| lhs.contains(x) implies rhs.contains(x) by {
        let i = choose|i: int| 0 <= i < mirrored.len() && mirrored[i] == x;
        assert(dirs.to_set().contains(dirs[i]));
        assert(x == f(dirs[i]));
    }
    assert forall|x: Seq<Seq<char>>| rhs.contains(x) implies lhs.contains(x) by {
        let d = choose|d: Seq<Seq<char>>| dirs.to_set().contains(d) && x == f(d);
        let i = choose|i: int| 0 <= i < dirs.len() && dirs[i] == d;
        assert(mirrored[i] == x);
    }
    assert(lhs =~= rhs);
}

} // verus!
