//! A snapshot of live filesystem state, as the poll engine sees it: one
//! directory's entries, with each file already reduced to its absolute path
//! and its fingerprint, and each subdirectory carried recursively.  Whoever
//! walks the real filesystem builds one of these per poll pass and hands it
//! in; the engine itself never touches the disk.

use vstd::prelude::*;
use crate::filter::spec_is_valid_filename;

verus! {

/// One live file: its absolute path and its current fingerprint.
#[derive(Clone, Debug)]
pub struct FsFile {
    pub path: String,
    pub fingerprint: u64,
}

/// One live directory: its absolute path, the files it directly contains,
/// and its subdirectories.
#[derive(Debug)]
pub struct FsDir {
    pub path: String,
    pub files: Vec<FsFile>,
    pub subdirs: Vec<FsDir>,
}

impl FsDir {
    /// The directory directly contains a file at `p`.
    pub open spec fn has_file(self, p: Seq<char>) -> bool {
        exists|i: int| 0 <= i < self.files@.len() && self.files@[i].path@ == p
    }

    /// The fingerprint of the file at `p` (meaningful when file paths are
    /// distinct and `has_file(p)` holds).
    pub open spec fn file_fp(self, p: Seq<char>) -> u64 {
        let i = choose|i: int| 0 <= i < self.files@.len() && self.files@[i].path@ == p;
        self.files@[i].fingerprint
    }

    /// The directory directly contains a subdirectory at `p`.
    pub open spec fn has_dir(self, p: Seq<char>) -> bool {
        exists|i: int| 0 <= i < self.subdirs@.len() && self.subdirs@[i].path@ == p
    }

    /// The index of the subdirectory at `p`.
    pub open spec fn dir_index(self, p: Seq<char>) -> int {
        choose|i: int| 0 <= i < self.subdirs@.len() && self.subdirs@[i].path@ == p
    }

    /// The subdirectory at `p`.
    pub open spec fn dir_at(self, p: Seq<char>) -> FsDir {
        self.subdirs@[self.dir_index(p)]
    }

    /// A file at `p` that passes the path filter.
    pub open spec fn has_watchable_file(self, p: Seq<char>) -> bool {
        self.has_file(p) && spec_is_valid_filename(p)
    }

    /// A subdirectory at `p` that passes the path filter.
    pub open spec fn has_watchable_dir(self, p: Seq<char>) -> bool {
        self.has_dir(p) && spec_is_valid_filename(p)
    }
}

/// The paths the directory itself owns: its own path and its direct files.
pub open spec fn own_paths(d: FsDir) -> Set<Seq<char>> {
    Set::new(
        |p: Seq<char>|
            p == d.path@ || (exists|i: int| 0 <= i < d.files@.len() && d.files@[i].path@ == p),
    )
}

/// Every path anywhere in the snapshot tree rooted at `d`.
pub open spec fn dir_paths(d: FsDir) -> Set<Seq<char>>
    decreases d, 1int, 0int,
{
    own_paths(d).union(subdir_paths_upto(d, d.subdirs@.len() as int))
}

/// The union of `dir_paths` over the first `j` subdirectories of `d`.
pub open spec fn subdir_paths_upto(d: FsDir, j: int) -> Set<Seq<char>>
    decreases d, 0int, j,
{
    if j <= 0 || j > d.subdirs@.len() {
        Set::empty()
    } else {
        subdir_paths_upto(d, j - 1).union(dir_paths(d.subdirs@[j - 1]))
    }
}

/// Well-formedness of a snapshot, as any real filesystem walk satisfies it:
/// entry paths inside one directory are distinct, no entry repeats the
/// directory's own path, and the path sets of distinct subtrees are disjoint
/// (an absolute path names one place in the tree).
pub open spec fn fs_wf(d: FsDir) -> bool
    decreases d,
{
    &&& (forall|i: int, j: int|
        0 <= i < j < d.files@.len() ==> d.files@[i].path@ != d.files@[j].path@)
    &&& (forall|i: int, j: int|
        0 <= i < j < d.subdirs@.len() ==> d.subdirs@[i].path@ != d.subdirs@[j].path@)
    &&& (forall|i: int, j: int|
        0 <= i < d.files@.len() && 0 <= j < d.subdirs@.len() ==> d.files@[i].path@
            != d.subdirs@[j].path@)
    &&& (forall|i: int| 0 <= i < d.files@.len() ==> d.files@[i].path@ != d.path@)
    &&& (forall|j: int|
        0 <= j < d.subdirs@.len() ==> !dir_paths(d.subdirs@[j]).contains(d.path@))
    &&& (forall|i: int, j: int|
        0 <= i < d.files@.len() && 0 <= j < d.subdirs@.len() ==> !dir_paths(
            d.subdirs@[j],
        ).contains(d.files@[i].path@))
    &&& (forall|j1: int, j2: int|
        0 <= j1 < d.subdirs@.len() && 0 <= j2 < d.subdirs@.len() && j1 != j2 ==> dir_paths(
            d.subdirs@[j1],
        ).disjoint(dir_paths(d.subdirs@[j2])))
    &&& (forall|j: int| 0 <= j < d.subdirs@.len() ==> fs_wf(#[trigger] d.subdirs@[j]))
}

/// With distinct subdirectory paths, looking a subdirectory up by its own
/// path finds exactly it.
pub proof fn lemma_dir_index_of(d: FsDir, j: int)
    requires
        forall|a: int, b: int|
            0 <= a < b < d.subdirs@.len() ==> d.subdirs@[a].path@ != d.subdirs@[b].path@,
        0 <= j < d.subdirs@.len(),
    ensures
        d.has_dir(d.subdirs@[j].path@),
        d.dir_index(d.subdirs@[j].path@) == j,
        d.dir_at(d.subdirs@[j].path@) == d.subdirs@[j],
{
    let p = d.subdirs@[j].path@;
    assert(d.has_dir(p));
    let w = choose|w: int| 0 <= w < d.subdirs@.len() && d.subdirs@[w].path@ == p;
    if w < j {
        assert(d.subdirs@[w].path@ != d.subdirs@[j].path@);
    } else if w > j {
        assert(d.subdirs@[j].path@ != d.subdirs@[w].path@);
    }
}

/// With distinct file paths, looking a file up by its own path finds
/// exactly it.
pub proof fn lemma_file_fp_at(d: FsDir, i: int)
    requires
        forall|a: int, b: int|
            0 <= a < b < d.files@.len() ==> d.files@[a].path@ != d.files@[b].path@,
        0 <= i < d.files@.len(),
    ensures
        d.has_file(d.files@[i].path@),
        d.file_fp(d.files@[i].path@) == d.files@[i].fingerprint,
{
    let p = d.files@[i].path@;
    assert(d.has_file(p));
    let w = choose|w: int| 0 <= w < d.files@.len() && d.files@[w].path@ == p;
    if w < i {
        assert(d.files@[w].path@ != d.files@[i].path@);
    } else if w > i {
        assert(d.files@[i].path@ != d.files@[w].path@);
    }
}

/// A subtree's own root path is among its paths.
pub proof fn lemma_dir_paths_contains_root(d: FsDir)
    ensures
        dir_paths(d).contains(d.path@),
{
    assert(own_paths(d).contains(d.path@));
}

/// A direct file's path is among the tree's paths.
pub proof fn lemma_dir_paths_contains_file(d: FsDir, i: int)
    requires
        0 <= i < d.files@.len(),
    ensures
        dir_paths(d).contains(d.files@[i].path@),
{
    assert(own_paths(d).contains(d.files@[i].path@));
}

/// Every path of a subtree is a path of the whole tree.
pub proof fn lemma_subdir_paths_subset(d: FsDir, j: int)
    requires
        0 <= j < d.subdirs@.len(),
    ensures
        forall|q: Seq<char>|
            dir_paths(d.subdirs@[j]).contains(q) ==> #[trigger] dir_paths(d).contains(q),
{
    lemma_subdir_paths_upto_subset(d, j, d.subdirs@.len() as int);
    assert forall|q: Seq<char>| dir_paths(d.subdirs@[j]).contains(q) implies #[trigger] dir_paths(
        d,
    ).contains(q) by {
        assert(subdir_paths_upto(d, d.subdirs@.len() as int).contains(q));
    }
}

proof fn lemma_subdir_paths_upto_subset(d: FsDir, j: int, k: int)
    requires
        0 <= j < k <= d.subdirs@.len(),
    ensures
        forall|q: Seq<char>|
            dir_paths(d.subdirs@[j]).contains(q) ==> #[trigger] subdir_paths_upto(
                d,
                k,
            ).contains(q),
    decreases k,
{
    if j == k - 1 {
        assert forall|q: Seq<char>|
            dir_paths(d.subdirs@[j]).contains(q) implies #[trigger] subdir_paths_upto(
            d,
            k,
        ).contains(q) by {
            assert(subdir_paths_upto(d, k) == subdir_paths_upto(d, k - 1).union(
                dir_paths(d.subdirs@[k - 1]),
            ));
        }
    } else {
        lemma_subdir_paths_upto_subset(d, j, k - 1);
        assert forall|q: Seq<char>|
            dir_paths(d.subdirs@[j]).contains(q) implies #[trigger] subdir_paths_upto(
            d,
            k,
        ).contains(q) by {
            assert(subdir_paths_upto(d, k - 1).contains(q));
        }
    }
}

} // verus!
