//! WatchNode: the in-memory mirror of one watched directory, and the poll
//! engine that reconciles it against a snapshot of live filesystem state.
//!
//! A node owns the fingerprints of the files the directory directly
//! contains and one child node per watched subdirectory — a strict ownership
//! tree, never shared.  One poll pass walks a node against a snapshot,
//! mutates the node in place so it mirrors the snapshot exactly, and returns
//! the changes it observed.  `event_set` is the mathematical statement of
//! which (kind, path) pairs one pass reports.

use vstd::prelude::*;
use crate::filter::is_valid_filename;
use crate::filter::spec_is_valid_filename;
use crate::snapshot::FsDir;
use crate::snapshot::dir_paths;
use crate::snapshot::fs_wf;
use crate::snapshot::lemma_dir_index_of;
use crate::snapshot::lemma_dir_paths_contains_file;
use crate::snapshot::lemma_dir_paths_contains_root;
use crate::snapshot::lemma_subdir_paths_subset;

verus! {

/// One tracked file: its absolute path and its last-observed fingerprint.
pub struct TrackedFile {
    pub path: String,
    pub fingerprint: u64,
}

/// The mirror of one directory: its own absolute path, the files it
/// directly contains, and one child node per watched subdirectory.
pub struct WatchNode {
    pub root: String,
    pub files: Vec<TrackedFile>,
    pub children: Vec<WatchNode>,
}

/// Some tracked file has path `p`.
pub open spec fn tracks(files: Seq<TrackedFile>, p: Seq<char>) -> bool {
    exists|i: int| 0 <= i < files.len() && files[i].path@ == p
}

/// The fingerprint tracked for `p` (meaningful when paths are distinct).
pub open spec fn tracked_fp(files: Seq<TrackedFile>, p: Seq<char>) -> u64 {
    let i = choose|i: int| 0 <= i < files.len() && files[i].path@ == p;
    files[i].fingerprint
}

/// Some child node has root `p`.
pub open spec fn has_child(children: Seq<WatchNode>, p: Seq<char>) -> bool {
    exists|i: int| 0 <= i < children.len() && children[i].root@ == p
}

/// No two tracked files share a path.
pub open spec fn paths_distinct(files: Seq<TrackedFile>) -> bool {
    forall|a: int, b: int| 0 <= a < b < files.len() ==> files[a].path@ != files[b].path@
}

/// No two children share a root.
pub open spec fn roots_distinct(children: Seq<WatchNode>) -> bool {
    forall|a: int, b: int| 0 <= a < b < children.len() ==> children[a].root@ != children[b].root@
}

/// The paths the node itself owns: its root and its tracked files.
pub open spec fn node_own_paths(n: WatchNode) -> Set<Seq<char>> {
    Set::new(|p: Seq<char>| p == n.root@ || tracks(n.files@, p))
}

/// Every path anywhere in the mirror tree rooted at `n`.
pub open spec fn node_paths(n: WatchNode) -> Set<Seq<char>>
    decreases n, 1int, 0int,
{
    node_own_paths(n).union(child_paths_upto(n, n.children@.len() as int))
}

/// The union of `node_paths` over the first `j` children of `n`.
pub open spec fn child_paths_upto(n: WatchNode, j: int) -> Set<Seq<char>>
    decreases n, 0int, j,
{
    if j <= 0 || j > n.children@.len() {
        Set::empty()
    } else {
        child_paths_upto(n, j - 1).union(node_paths(n.children@[j - 1]))
    }
}

/// The invariant every node keeps between polls: entries are watchable and
/// distinct, no entry repeats the root, and the path sets of distinct
/// subtrees are disjoint, so each tracked path lives in one place.
pub open spec fn node_wf(n: WatchNode) -> bool
    decreases n,
{
    &&& paths_distinct(n.files@)
    &&& (forall|i: int|
        0 <= i < n.files@.len() ==> spec_is_valid_filename(#[trigger] n.files@[i].path@))
    &&& roots_distinct(n.children@)
    &&& (forall|j: int|
        0 <= j < n.children@.len() ==> spec_is_valid_filename(#[trigger] n.children@[j].root@))
    &&& (forall|i: int, j: int|
        0 <= i < n.files@.len() && 0 <= j < n.children@.len() ==> n.files@[i].path@
            != n.children@[j].root@)
    &&& (forall|i: int| 0 <= i < n.files@.len() ==> n.files@[i].path@ != n.root@)
    &&& (forall|j: int|
        0 <= j < n.children@.len() ==> !node_paths(#[trigger] n.children@[j]).contains(n.root@))
    &&& (forall|i: int, j: int|
        0 <= i < n.files@.len() && 0 <= j < n.children@.len() ==> !node_paths(
            n.children@[j],
        ).contains(n.files@[i].path@))
    &&& (forall|j1: int, j2: int|
        0 <= j1 < n.children@.len() && 0 <= j2 < n.children@.len() && j1 != j2 ==> node_paths(
            n.children@[j1],
        ).disjoint(node_paths(n.children@[j2])))
    &&& (forall|j: int| 0 <= j < n.children@.len() ==> node_wf(#[trigger] n.children@[j]))
}

/// The node's own file table agrees exactly with the snapshot's watchable
/// files: every watchable live file is tracked with its live fingerprint,
/// and nothing else is tracked.
pub open spec fn files_match(files: Seq<TrackedFile>, d: FsDir) -> bool {
    &&& (forall|i: int|
        0 <= i < d.files@.len() && spec_is_valid_filename(#[trigger] d.files@[i].path@) ==> tracks(
            files,
            d.files@[i].path@,
        ) && tracked_fp(files, d.files@[i].path@) == d.files@[i].fingerprint)
    &&& (forall|i: int| 0 <= i < files.len() ==> d.has_file(#[trigger] files[i].path@))
}

/// The node's children agree with the snapshot's watchable subdirectories,
/// looking one level deep only.
pub open spec fn dirs_match_shallow(children: Seq<WatchNode>, d: FsDir) -> bool {
    &&& (forall|j: int|
        0 <= j < d.subdirs@.len() && spec_is_valid_filename(#[trigger] d.subdirs@[j].path@)
            ==> has_child(children, d.subdirs@[j].path@))
    &&& (forall|j: int| 0 <= j < children.len() ==> d.has_dir(#[trigger] children[j].root@))
}

/// The node mirrors the snapshot exactly, at every level: the statement
/// that the mirror's path-to-fingerprint mapping matches a fresh walk of
/// the live state.
pub open spec fn node_matches(n: WatchNode, d: FsDir) -> bool
    decreases d,
{
    &&& n.root@ == d.path@
    &&& files_match(n.files@, d)
    &&& dirs_match_shallow(n.children@, d)
    &&& (forall|i: int, j: int|
        0 <= i < n.children@.len() && 0 <= j < d.subdirs@.len() && n.children@[i].root@
            == d.subdirs@[j].path@ ==> node_matches(
            #[trigger] n.children@[i],
            #[trigger] d.subdirs@[j],
        ))
}

/// A subtree's root is among its paths.
pub proof fn lemma_node_paths_contains_root(n: WatchNode)
    ensures
        node_paths(n).contains(n.root@),
{
    assert(node_own_paths(n).contains(n.root@));
}

/// A tracked file's path is among the tree's paths.
pub proof fn lemma_node_paths_contains_file(n: WatchNode, i: int)
    requires
        0 <= i < n.files@.len(),
    ensures
        node_paths(n).contains(n.files@[i].path@),
{
    assert(node_own_paths(n).contains(n.files@[i].path@));
}

/// Every path of a child's subtree is a path of the whole tree.
pub proof fn lemma_child_paths_subset(n: WatchNode, j: int)
    requires
        0 <= j < n.children@.len(),
    ensures
        forall|q: Seq<char>|
            node_paths(n.children@[j]).contains(q) ==> #[trigger] node_paths(n).contains(q),
{
    lemma_child_paths_upto_subset(n, j, n.children@.len() as int);
    assert forall|q: Seq<char>|
        node_paths(n.children@[j]).contains(q) implies #[trigger] node_paths(n).contains(q) by {
        assert(child_paths_upto(n, n.children@.len() as int).contains(q));
    }
}

proof fn lemma_child_paths_upto_subset(n: WatchNode, j: int, k: int)
    requires
        0 <= j < k <= n.children@.len(),
    ensures
        forall|q: Seq<char>|
            node_paths(n.children@[j]).contains(q) ==> #[trigger] child_paths_upto(
                n,
                k,
            ).contains(q),
    decreases k,
{
    if j == k - 1 {
        assert forall|q: Seq<char>|
            node_paths(n.children@[j]).contains(q) implies #[trigger] child_paths_upto(
            n,
            k,
        ).contains(q) by {
            assert(child_paths_upto(n, k) == child_paths_upto(n, k - 1).union(
                node_paths(n.children@[k - 1]),
            ));
        }
    } else {
        lemma_child_paths_upto_subset(n, j, k - 1);
        assert forall|q: Seq<char>|
            node_paths(n.children@[j]).contains(q) implies #[trigger] child_paths_upto(
            n,
            k,
        ).contains(q) by {
            assert(child_paths_upto(n, k - 1).contains(q));
        }
    }
}

/// A path in the union over the first `k` children lies in some child.
proof fn lemma_child_paths_upto_member(n: WatchNode, k: int, q: Seq<char>)
    requires
        0 <= k <= n.children@.len(),
        child_paths_upto(n, k).contains(q),
    ensures
        exists|a: int| 0 <= a < k && node_paths(#[trigger] n.children@[a]).contains(q),
    decreases k,
{
    if k > 0 {
        if node_paths(n.children@[k - 1]).contains(q) {
        } else {
            lemma_child_paths_upto_member(n, k - 1, q);
        }
    }
}

/// With distinct tracked paths, looking a tracked file up by its own path
/// finds exactly it.
pub proof fn lemma_tracked_at(files: Seq<TrackedFile>, w: int)
    requires
        paths_distinct(files),
        0 <= w < files.len(),
    ensures
        tracks(files, files[w].path@),
        tracked_fp(files, files[w].path@) == files[w].fingerprint,
{
    let p = files[w].path@;
    assert(tracks(files, p));
    let v = choose|v: int| 0 <= v < files.len() && files[v].path@ == p;
    if v < w {
        assert(files[v].path@ != files[w].path@);
    } else if v > w {
        assert(files[w].path@ != files[v].path@);
    }
}

/// Appending a file with a fresh path keeps every earlier lookup intact.
pub proof fn lemma_tracks_push(of: Seq<TrackedFile>, e: TrackedFile, p: Seq<char>)
    requires
        paths_distinct(of),
        !tracks(of, e.path@),
        tracks(of, p),
    ensures
        tracks(of.push(e), p),
        tracked_fp(of.push(e), p) == tracked_fp(of, p),
{
    let nf = of.push(e);
    let w = choose|w: int| 0 <= w < of.len() && of[w].path@ == p;
    lemma_tracked_at(of, w);
    assert(nf[w] == of[w]);
    assert(paths_distinct(nf)) by {
        assert forall|a: int, b: int| 0 <= a < b < nf.len() implies nf[a].path@ != nf[b].path@ by {
            if b == nf.len() - 1 {
                if nf[a].path@ == nf[b].path@ {
                    assert(of[a].path@ == e.path@);
                    assert(tracks(of, e.path@));
                }
            }
        }
    }
    lemma_tracked_at(nf, w);
}

/// Searches the file table for `p`; answers whether it is tracked and with
/// which fingerprint.
pub(crate) fn find_tracked(files: &Vec<TrackedFile>, p: &String) -> (r: Option<u64>)
    requires
        paths_distinct(files@),
    ensures
        r is Some <==> tracks(files@, p@),
        r is Some ==> r->0 == tracked_fp(files@, p@),
{
    let mut i: usize = 0;
    while i < files.len()
        invariant
            0 <= i <= files@.len(),
            paths_distinct(files@),
            forall|t: int| 0 <= t < i ==> files@[t].path@ != p@,
        decreases files@.len() - i,
    {
        if files[i].path == *p {
            proof {
                lemma_tracked_at(files@, i as int);
            }
            return Some(files[i].fingerprint);
        }
        i += 1;
    }
    proof {
        assert(!tracks(files@, p@));
    }
    None
}

/// Searches a snapshot directory's direct files for `p`.
pub(crate) fn has_live_file(d: &FsDir, p: &String) -> (r: bool)
    ensures
        r == d.has_file(p@),
{
    let mut i: usize = 0;
    while i < d.files.len()
        invariant
            0 <= i <= d.files@.len(),
            forall|t: int| 0 <= t < i ==> d.files@[t].path@ != p@,
        decreases d.files@.len() - i,
    {
        if d.files[i].path == *p {
            return true;
        }
        i += 1;
    }
    false
}

/// Searches a snapshot directory's subdirectories for `p`.
pub(crate) fn find_live_dir(d: &FsDir, p: &String) -> (r: Option<usize>)
    ensures
        r is Some <==> d.has_dir(p@),
        r is Some ==> r->0 < d.subdirs@.len() && d.subdirs@[r->0 as int].path@ == p@,
{
    let mut i: usize = 0;
    while i < d.subdirs.len()
        invariant
            0 <= i <= d.subdirs@.len(),
            forall|t: int| 0 <= t < i ==> d.subdirs@[t].path@ != p@,
        decreases d.subdirs@.len() - i,
    {
        if d.subdirs[i].path == *p {
            return Some(i);
        }
        i += 1;
    }
    None
}

/// Searches the children for a node rooted at `p`.
pub(crate) fn find_child(children: &Vec<WatchNode>, p: &String) -> (r: bool)
    ensures
        r == has_child(children@, p@),
{
    let mut i: usize = 0;
    while i < children.len()
        invariant
            0 <= i <= children@.len(),
            forall|t: int| 0 <= t < i ==> children@[t].root@ != p@,
        decreases children@.len() - i,
    {
        if children[i].root == *p {
            return true;
        }
        i += 1;
    }
    false
}

impl WatchNode {
    /// Walks a snapshot and builds the mirror of it: every watchable file
    /// is tracked with its current fingerprint, every watchable
    /// subdirectory becomes a child node, and nothing else appears.
    /// Entries failing the path filter are skipped silently.
    pub fn new(live: &FsDir) -> (n: WatchNode)
        requires
            fs_wf(*live),
        ensures
            node_wf(n),
            node_matches(n, *live),
            n.root@ == live.path@,
            forall|q: Seq<char>|
                node_paths(n).contains(q) ==> #[trigger] dir_paths(*live).contains(q),
        decreases *live,
    {
        let ghost d = *live;
        let mut files: Vec<TrackedFile> = Vec::new();
        let mut i: usize = 0;
        while i < live.files.len()
            invariant
                d == *live,
                fs_wf(d),
                0 <= i <= d.files@.len(),
                paths_distinct(files@),
                forall|a: int|
                    0 <= a < files@.len() ==> spec_is_valid_filename(#[trigger] files@[a].path@),
                forall|a: int| 0 <= a < files@.len() ==> d.has_file((#[trigger] files@[a]).path@),
                forall|t: int|
                    0 <= t < i && spec_is_valid_filename(#[trigger] d.files@[t].path@) ==> tracks(
                        files@,
                        d.files@[t].path@,
                    ) && tracked_fp(files@, d.files@[t].path@) == d.files@[t].fingerprint,
                forall|t: int|
                    i <= t < d.files@.len() ==> !tracks(files@, #[trigger] d.files@[t].path@),
            decreases d.files@.len() - i,
        {
            let f = &live.files[i];
            let ghost of = files@;
            if is_valid_filename(f.path.as_str()) {
                let e = TrackedFile { path: f.path.clone(), fingerprint: f.fingerprint };
                proof {
                    assert(!tracks(of, d.files@[i as int].path@));
                }
                files.push(e);
                proof {
                    let nf = files@;
                    let last = nf.len() - 1;
                    assert(nf =~= of.push(nf[last]));
                    assert(nf[last].path@ == d.files@[i as int].path@);
                    // distinctness of the extended table
                    assert forall|a: int, b: int|
                        0 <= a < b < nf.len() implies nf[a].path@ != nf[b].path@ by {
                        if b == last {
                            if nf[a].path@ == nf[b].path@ {
                                assert(of[a].path@ == d.files@[i as int].path@);
                                assert(tracks(of, d.files@[i as int].path@));
                            }
                        }
                    }
                    // earlier live files keep their lookup
                    assert forall|t: int|
                        0 <= t < i + 1 && spec_is_valid_filename(
                            #[trigger] d.files@[t].path@,
                        ) implies tracks(nf, d.files@[t].path@) && tracked_fp(nf, d.files@[t].path@)
                        == d.files@[t].fingerprint by {
                        if t == i {
                            lemma_tracked_at(nf, last);
                        } else {
                            lemma_tracks_push(of, nf[last], d.files@[t].path@);
                        }
                    }
                    // later live files stay untracked
                    assert forall|t: int|
                        i + 1 <= t < d.files@.len() implies !tracks(
                        nf,
                        #[trigger] d.files@[t].path@,
                    ) by {
                        if tracks(nf, d.files@[t].path@) {
                            let v = choose|v: int|
                                0 <= v < nf.len() && nf[v].path@ == d.files@[t].path@;
                            if v < last {
                                assert(tracks(of, d.files@[t].path@));
                            } else {
                                assert(d.files@[i as int].path@ == d.files@[t].path@);
                            }
                            assert(false);
                        }
                    }
                }
            }
            i += 1;
        }
        let mut children: Vec<WatchNode> = Vec::new();
        let mut j: usize = 0;
        while j < live.subdirs.len()
            invariant
                d == *live,
                fs_wf(d),
                0 <= j <= d.subdirs@.len(),
                roots_distinct(children@),
                forall|a: int| 0 <= a < children@.len() ==> d.has_dir((#[trigger] children@[a]).root@),
                forall|a: int|
                    0 <= a < children@.len() ==> spec_is_valid_filename(
                        (#[trigger] children@[a]).root@,
                    ),
                forall|a: int| 0 <= a < children@.len() ==> node_wf(#[trigger] children@[a]),
                forall|a: int|
                    0 <= a < children@.len() ==> node_matches(
                        #[trigger] children@[a],
                        d.dir_at(children@[a].root@),
                    ),
                forall|a: int, q: Seq<char>|
                    0 <= a < children@.len() && #[trigger] node_paths(children@[a]).contains(q)
                        ==> dir_paths(d.dir_at(children@[a].root@)).contains(q),
                forall|t: int|
                    0 <= t < j && spec_is_valid_filename(#[trigger] d.subdirs@[t].path@)
                        ==> has_child(children@, d.subdirs@[t].path@),
                forall|t: int|
                    j <= t < d.subdirs@.len() ==> !has_child(
                        children@,
                        #[trigger] d.subdirs@[t].path@,
                    ),
            decreases d.subdirs@.len() - j,
        {
            let sd = &live.subdirs[j];
            let ghost oc = children@;
            if is_valid_filename(sd.path.as_str()) {
                let c = WatchNode::new(sd);
                children.push(c);
                proof {
                    lemma_dir_index_of(d, j as int);
                    let nc = children@;
                    let last = nc.len() - 1;
                    assert(nc =~= oc.push(nc[last]));
                    assert(nc[last].root@ == d.subdirs@[j as int].path@);
                    assert(d.dir_at(nc[last].root@) == d.subdirs@[j as int]);
                    assert forall|a: int, b: int|
                        0 <= a < b < nc.len() implies nc[a].root@ != nc[b].root@ by {
                        if b == last {
                            if nc[a].root@ == nc[b].root@ {
                                assert(has_child(oc, d.subdirs@[j as int].path@));
                            }
                        }
                    }
                    assert forall|t: int|
                        0 <= t < j + 1 && spec_is_valid_filename(
                            #[trigger] d.subdirs@[t].path@,
                        ) implies has_child(nc, d.subdirs@[t].path@) by {
                        if t == j {
                            assert(nc[last].root@ == d.subdirs@[t].path@);
                        } else {
                            let w = choose|w: int| 0 <= w < oc.len() && oc[w].root@ == d.subdirs@[t].path@;
                            assert(nc[w].root@ == d.subdirs@[t].path@);
                        }
                    }
                    assert forall|t: int|
                        j + 1 <= t < d.subdirs@.len() implies !has_child(
                        nc,
                        #[trigger] d.subdirs@[t].path@,
                    ) by {
                        if has_child(nc, d.subdirs@[t].path@) {
                            let v = choose|v: int|
                                0 <= v < nc.len() && nc[v].root@ == d.subdirs@[t].path@;
                            if v < last {
                                assert(has_child(oc, d.subdirs@[t].path@));
                            } else {
                                assert(d.subdirs@[j as int].path@ == d.subdirs@[t].path@);
                            }
                            assert(false);
                        }
                    }
                }
            }
            j += 1;
        }
        proof {
            assert(i == d.files@.len());
            assert(j == d.subdirs@.len());
        }
        let n = WatchNode { root: live.path.clone(), files, children };
        proof {
            lemma_assemble_node(n, d);
        }
        n
    }
}

/// Assembles well-formedness, the mirror statement and the path bound for a
/// node whose file table and children individually agree with the snapshot,
/// as the construction and poll loops leave them.
pub proof fn lemma_assemble_node(n: WatchNode, d: FsDir)
    requires
        fs_wf(d),
        n.root@ == d.path@,
        paths_distinct(n.files@),
        forall|a: int|
            0 <= a < n.files@.len() ==> spec_is_valid_filename(#[trigger] n.files@[a].path@),
        forall|a: int| 0 <= a < n.files@.len() ==> d.has_file((#[trigger] n.files@[a]).path@),
        forall|t: int|
            0 <= t < d.files@.len() && spec_is_valid_filename(#[trigger] d.files@[t].path@)
                ==> tracks(n.files@, d.files@[t].path@) && tracked_fp(n.files@, d.files@[t].path@)
                == d.files@[t].fingerprint,
        roots_distinct(n.children@),
        forall|a: int| 0 <= a < n.children@.len() ==> d.has_dir((#[trigger] n.children@[a]).root@),
        forall|a: int|
            0 <= a < n.children@.len() ==> spec_is_valid_filename((#[trigger] n.children@[a]).root@),
        forall|a: int| 0 <= a < n.children@.len() ==> node_wf(#[trigger] n.children@[a]),
        forall|a: int|
            0 <= a < n.children@.len() ==> node_matches(
                #[trigger] n.children@[a],
                d.dir_at(n.children@[a].root@),
            ),
        forall|a: int, q: Seq<char>|
            0 <= a < n.children@.len() && #[trigger] node_paths(n.children@[a]).contains(q)
                ==> dir_paths(d.dir_at(n.children@[a].root@)).contains(q),
        forall|t: int|
            0 <= t < d.subdirs@.len() && spec_is_valid_filename(#[trigger] d.subdirs@[t].path@)
                ==> has_child(n.children@, d.subdirs@[t].path@),
    ensures
        node_wf(n),
        node_matches(n, d),
        forall|q: Seq<char>| node_paths(n).contains(q) ==> #[trigger] dir_paths(d).contains(q),
{
    // each child's subtree sits inside its live counterpart's subtree
    assert forall|a: int, q: Seq<char>|
        0 <= a < n.children@.len() && #[trigger] node_paths(n.children@[a]).contains(
            q,
        ) implies dir_paths(d).contains(q) && 0 <= d.dir_index(n.children@[a].root@)
        < d.subdirs@.len() && dir_paths(
        d.subdirs@[d.dir_index(n.children@[a].root@)],
    ).contains(q) by {
        assert(d.has_dir(n.children@[a].root@));
        let ti = d.dir_index(n.children@[a].root@);
        assert(0 <= ti < d.subdirs@.len() && d.subdirs@[ti].path@ == n.children@[a].root@);
        assert(dir_paths(d.dir_at(n.children@[a].root@)).contains(q));
        lemma_subdir_paths_subset(d, ti);
    }
    // the children's disjointness conditions descend from fs_wf
    assert forall|j1: int, j2: int|
        0 <= j1 < n.children@.len() && 0 <= j2 < n.children@.len() && j1 != j2 implies node_paths(
        n.children@[j1],
    ).disjoint(node_paths(n.children@[j2])) by {
        let t1 = d.dir_index(n.children@[j1].root@);
        let t2 = d.dir_index(n.children@[j2].root@);
        assert(d.has_dir(n.children@[j1].root@));
        assert(d.has_dir(n.children@[j2].root@));
        if j1 < j2 {
            assert(n.children@[j1].root@ != n.children@[j2].root@);
        } else {
            assert(n.children@[j2].root@ != n.children@[j1].root@);
        }
        assert(d.subdirs@[t1].path@ == n.children@[j1].root@);
        assert(d.subdirs@[t2].path@ == n.children@[j2].root@);
        assert(t1 != t2);
        assert(dir_paths(d.subdirs@[t1]).disjoint(dir_paths(d.subdirs@[t2])));
        assert forall|q: Seq<char>| node_paths(n.children@[j1]).contains(q) implies !node_paths(
            n.children@[j2],
        ).contains(q) by {
            assert(dir_paths(d.subdirs@[t1]).contains(q));
            if node_paths(n.children@[j2]).contains(q) {
                assert(dir_paths(d.subdirs@[t2]).contains(q));
                assert(false);
            }
        }
    }
    assert forall|i: int, j: int|
        0 <= i < n.files@.len() && 0 <= j < n.children@.len() implies !node_paths(
        n.children@[j],
    ).contains(n.files@[i].path@) by {
        if node_paths(n.children@[j]).contains(n.files@[i].path@) {
            let tj = d.dir_index(n.children@[j].root@);
            assert(dir_paths(d.subdirs@[tj]).contains(n.files@[i].path@));
            assert(d.has_file(n.files@[i].path@));
            let t = choose|t: int| 0 <= t < d.files@.len() && d.files@[t].path@ == n.files@[i].path@;
            assert(!dir_paths(d.subdirs@[tj]).contains(d.files@[t].path@));
            assert(false);
        }
    }
    assert forall|j: int| 0 <= j < n.children@.len() implies !node_paths(
        #[trigger] n.children@[j],
    ).contains(n.root@) by {
        if node_paths(n.children@[j]).contains(n.root@) {
            let tj = d.dir_index(n.children@[j].root@);
            assert(dir_paths(d.subdirs@[tj]).contains(d.path@));
            assert(!dir_paths(d.subdirs@[tj]).contains(d.path@));
            assert(false);
        }
    }
    assert forall|i: int, j: int|
        0 <= i < n.files@.len() && 0 <= j < n.children@.len() implies n.files@[i].path@
        != n.children@[j].root@ by {
        if n.files@[i].path@ == n.children@[j].root@ {
            lemma_node_paths_contains_root(n.children@[j]);
            assert(node_paths(n.children@[j]).contains(n.files@[i].path@));
        }
    }
    assert forall|i: int| 0 <= i < n.files@.len() implies n.files@[i].path@ != n.root@ by {
        if n.files@[i].path@ == n.root@ {
            assert(d.has_file(d.path@));
            let t = choose|t: int| 0 <= t < d.files@.len() && d.files@[t].path@ == d.path@;
            assert(false);
        }
    }
    assert(node_wf(n));
    // the mirror statement
    assert forall|i: int, j: int|
        0 <= i < n.children@.len() && 0 <= j < d.subdirs@.len() && n.children@[i].root@
            == d.subdirs@[j].path@ implies node_matches(
        #[trigger] n.children@[i],
        #[trigger] d.subdirs@[j],
    ) by {
        lemma_dir_index_of(d, j);
        assert(d.dir_at(n.children@[i].root@) == d.subdirs@[j]);
    }
    assert(node_matches(n, d));
    // every mirrored path exists in the snapshot
    assert forall|q: Seq<char>| node_paths(n).contains(q) implies #[trigger] dir_paths(
        d,
    ).contains(q) by {
        if node_own_paths(n).contains(q) {
            if q == n.root@ {
                lemma_dir_paths_contains_root(d);
            } else {
                let i = choose|i: int| 0 <= i < n.files@.len() && n.files@[i].path@ == q;
                assert(d.has_file(n.files@[i].path@));
                let t = choose|t: int| 0 <= t < d.files@.len() && d.files@[t].path@ == q;
                lemma_dir_paths_contains_file(d, t);
            }
        } else {
            lemma_child_paths_upto_member(n, n.children@.len() as int, q);
        }
    }
}

} // verus!
