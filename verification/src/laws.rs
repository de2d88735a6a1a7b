//! The engine's laws: what holds of every poll pass, proved once and for
//! all over `event_set` and the mirror invariant.

use vstd::prelude::*;
use crate::filter::spec_is_valid_filename;
use crate::fingerprint::FILE_SIZE_THRESHOLD;
use crate::fingerprint::fingerprint_of;
use crate::node::WatchNode;
use crate::node::has_child;
use crate::node::lemma_child_paths_subset;
use crate::node::lemma_node_paths_contains_file;
use crate::node::lemma_node_paths_contains_root;
use crate::node::node_matches;
use crate::node::node_paths;
use crate::node::node_wf;
use crate::node::tracked_fp;
use crate::node::tracks;
use crate::poll::child_removal_event_at;
use crate::poll::child_removal_events_upto;
use crate::poll::dir_create_event_at;
use crate::poll::dir_create_events_upto;
use crate::poll::event_set;
use crate::poll::file_events_upto;
use crate::poll::live_file_event_at;
use crate::poll::rec_events_upto;
use crate::poll::removal_event_at;
use crate::poll::removal_events_upto;
use crate::snapshot::FsDir;
use crate::snapshot::dir_paths;
use crate::snapshot::fs_wf;
use crate::snapshot::lemma_dir_paths_contains_file;
use crate::snapshot::lemma_dir_paths_contains_root;
use crate::snapshot::lemma_subdir_paths_subset;
use crate::watch::WatchKind;

verus! {

/// A pair in the file-events part comes from one live file entry.
proof fn lemma_file_events_member(
    files: Seq<crate::node::TrackedFile>,
    d: FsDir,
    i: int,
    e: (WatchKind, Seq<char>),
)
    requires
        file_events_upto(files, d, i).contains(e),
    ensures
        exists|t: int| 0 <= t < i && live_file_event_at(files, d, t) == Option::Some(e),
    decreases i,
{
    if i <= 0 || i > d.files@.len() {
    } else {
        if live_file_event_at(files, d, i - 1) == Option::Some(e) {
        } else {
            lemma_file_events_member(files, d, i - 1, e);
        }
    }
}

/// One live file entry's event is in the file-events part.
proof fn lemma_file_events_intro(files: Seq<crate::node::TrackedFile>, d: FsDir, i: int, t: int)
    requires
        0 <= t < i <= d.files@.len(),
        live_file_event_at(files, d, t) is Some,
    ensures
        file_events_upto(files, d, i).contains(live_file_event_at(files, d, t)->0),
    decreases i,
{
    if t == i - 1 {
    } else {
        lemma_file_events_intro(files, d, i - 1, t);
    }
}

/// A pair in the removal part comes from one tracked file.
proof fn lemma_removal_events_member(
    files: Seq<crate::node::TrackedFile>,
    d: FsDir,
    k: int,
    e: (WatchKind, Seq<char>),
)
    requires
        removal_events_upto(files, d, k).contains(e),
    ensures
        exists|t: int| 0 <= t < k && removal_event_at(files, d, t) == Option::Some(e),
    decreases k,
{
    if k <= 0 || k > files.len() {
    } else {
        if removal_event_at(files, d, k - 1) == Option::Some(e) {
        } else {
            lemma_removal_events_member(files, d, k - 1, e);
        }
    }
}

/// A pair in the directory-create part comes from one live subdirectory.
proof fn lemma_dir_create_events_member(
    children: Seq<WatchNode>,
    d: FsDir,
    j: int,
    e: (WatchKind, Seq<char>),
)
    requires
        dir_create_events_upto(children, d, j).contains(e),
    ensures
        exists|t: int| 0 <= t < j && dir_create_event_at(children, d, t) == Option::Some(e),
    decreases j,
{
    if j <= 0 || j > d.subdirs@.len() {
    } else {
        if dir_create_event_at(children, d, j - 1) == Option::Some(e) {
        } else {
            lemma_dir_create_events_member(children, d, j - 1, e);
        }
    }
}

/// A pair in the child-removal part comes from one child.
proof fn lemma_child_removal_events_member(
    children: Seq<WatchNode>,
    d: FsDir,
    k: int,
    e: (WatchKind, Seq<char>),
)
    requires
        child_removal_events_upto(children, d, k).contains(e),
    ensures
        exists|t: int| 0 <= t < k && child_removal_event_at(children, d, t) == Option::Some(e),
    decreases k,
{
    if k <= 0 || k > children.len() {
    } else {
        if child_removal_event_at(children, d, k - 1) == Option::Some(e) {
        } else {
            lemma_child_removal_events_member(children, d, k - 1, e);
        }
    }
}

/// One child's removal event is in the child-removal part.
proof fn lemma_child_removal_events_intro(children: Seq<WatchNode>, d: FsDir, k: int, t: int)
    requires
        0 <= t < k <= children.len(),
        child_removal_event_at(children, d, t) is Some,
    ensures
        child_removal_events_upto(children, d, k).contains(
            child_removal_event_at(children, d, t)->0,
        ),
    decreases k,
{
    if t == k - 1 {
    } else {
        lemma_child_removal_events_intro(children, d, k - 1, t);
    }
}

/// A pair in the recursive part comes from one still-alive child's own
/// event set.
proof fn lemma_rec_events_member(
    children: Seq<WatchNode>,
    d: FsDir,
    k: int,
    e: (WatchKind, Seq<char>),
)
    requires
        rec_events_upto(children, d, k).contains(e),
    ensures
        exists|t: int|
            0 <= t < k && spec_is_valid_filename((#[trigger] children[t]).root@) && d.has_dir(
                children[t].root@,
            ) && event_set(children[t], d.dir_at(children[t].root@)).contains(e),
    decreases k,
{
    if k <= 0 || k > children.len() {
    } else {
        let c = children[k - 1];
        if spec_is_valid_filename(c.root@) && d.has_dir(c.root@) && event_set(
            c,
            d.dir_at(c.root@),
        ).contains(e) {
        } else {
            lemma_rec_events_member(children, d, k - 1, e);
        }
    }
}

/// Idempotence: a poll pass over a node that already mirrors the snapshot
/// reports nothing.  Polling twice with no filesystem change between passes
/// therefore yields an empty batch the second time.
pub proof fn lemma_poll_idempotent(n: WatchNode, d: FsDir)
    requires
        node_wf(n),
        fs_wf(d),
        node_matches(n, d),
    ensures
        event_set(n, d) =~= Set::<(WatchKind, Seq<char>)>::empty(),
    decreases d,
{
    assert forall|e: (WatchKind, Seq<char>)| !event_set(n, d).contains(e) by {
        if event_set(n, d).contains(e) {
            if file_events_upto(n.files@, d, d.files@.len() as int).contains(e) {
                lemma_file_events_member(n.files@, d, d.files@.len() as int, e);
                let t = choose|t: int|
                    0 <= t < d.files@.len() && live_file_event_at(n.files@, d, t) == Option::Some(
                        e,
                    );
                assert(spec_is_valid_filename(d.files@[t].path@));
                assert(tracks(n.files@, d.files@[t].path@));
                assert(tracked_fp(n.files@, d.files@[t].path@) == d.files@[t].fingerprint);
                assert(false);
            } else if removal_events_upto(n.files@, d, n.files@.len() as int).contains(e) {
                lemma_removal_events_member(n.files@, d, n.files@.len() as int, e);
                let t = choose|t: int|
                    0 <= t < n.files@.len() && removal_event_at(n.files@, d, t) == Option::Some(e);
                assert(d.has_file((#[trigger] n.files@[t]).path@));
                assert(spec_is_valid_filename(n.files@[t].path@));
                assert(false);
            } else if dir_create_events_upto(n.children@, d, d.subdirs@.len() as int).contains(e) {
                lemma_dir_create_events_member(n.children@, d, d.subdirs@.len() as int, e);
                let t = choose|t: int|
                    0 <= t < d.subdirs@.len() && dir_create_event_at(n.children@, d, t)
                        == Option::Some(e);
                assert(has_child(n.children@, d.subdirs@[t].path@));
                assert(false);
            } else if child_removal_events_upto(n.children@, d, n.children@.len() as int).contains(
                e,
            ) {
                lemma_child_removal_events_member(n.children@, d, n.children@.len() as int, e);
                let t = choose|t: int|
                    0 <= t < n.children@.len() && child_removal_event_at(n.children@, d, t)
                        == Option::Some(e);
                assert(d.has_dir((#[trigger] n.children@[t]).root@));
                assert(spec_is_valid_filename(n.children@[t].root@));
                assert(false);
            } else {
                lemma_rec_events_member(n.children@, d, n.children@.len() as int, e);
                let t = choose|t: int|
                    0 <= t < n.children@.len() && spec_is_valid_filename(
                        (#[trigger] n.children@[t]).root@,
                    ) && d.has_dir(n.children@[t].root@) && event_set(
                        n.children@[t],
                        d.dir_at(n.children@[t].root@),
                    ).contains(e);
                let c = n.children@[t];
                let j = d.dir_index(c.root@);
                assert(0 <= j < d.subdirs@.len() && d.subdirs@[j].path@ == c.root@);
                assert(node_matches(#[trigger] n.children@[t], #[trigger] d.subdirs@[j]));
                assert(node_wf(#[trigger] n.children@[t]));
                assert(fs_wf(#[trigger] d.subdirs@[j]));
                lemma_poll_idempotent(c, d.subdirs@[j]);
                assert(false);
            }
        }
    }
}

/// Every reported path passed the filter: a file named like an editor
/// backup or living under the output directory never produces an event.
pub proof fn lemma_filter_exclusion(n: WatchNode, d: FsDir)
    requires
        node_wf(n),
    ensures
        forall|e: (WatchKind, Seq<char>)|
            #[trigger] event_set(n, d).contains(e) ==> spec_is_valid_filename(e.1),
    decreases d,
{
    assert forall|e: (WatchKind, Seq<char>)|
        #[trigger] event_set(n, d).contains(e) implies spec_is_valid_filename(e.1) by {
        if file_events_upto(n.files@, d, d.files@.len() as int).contains(e) {
            lemma_file_events_member(n.files@, d, d.files@.len() as int, e);
        } else if removal_events_upto(n.files@, d, n.files@.len() as int).contains(e) {
            lemma_removal_events_member(n.files@, d, n.files@.len() as int, e);
            let t = choose|t: int|
                0 <= t < n.files@.len() && removal_event_at(n.files@, d, t) == Option::Some(e);
            assert(spec_is_valid_filename(#[trigger] n.files@[t].path@));
        } else if dir_create_events_upto(n.children@, d, d.subdirs@.len() as int).contains(e) {
            lemma_dir_create_events_member(n.children@, d, d.subdirs@.len() as int, e);
        } else if child_removal_events_upto(n.children@, d, n.children@.len() as int).contains(e) {
            lemma_child_removal_events_member(n.children@, d, n.children@.len() as int, e);
            let t = choose|t: int|
                0 <= t < n.children@.len() && child_removal_event_at(n.children@, d, t)
                    == Option::Some(e);
            assert(spec_is_valid_filename(#[trigger] n.children@[t].root@));
        } else {
            lemma_rec_events_member(n.children@, d, n.children@.len() as int, e);
            let t = choose|t: int|
                0 <= t < n.children@.len() && spec_is_valid_filename(
                    (#[trigger] n.children@[t]).root@,
                ) && d.has_dir(n.children@[t].root@) && event_set(
                    n.children@[t],
                    d.dir_at(n.children@[t].root@),
                ).contains(e);
            assert(node_wf(#[trigger] n.children@[t]));
            lemma_filter_exclusion(n.children@[t], d.dir_at(n.children@[t].root@));
        }
    }
}

/// A path the filter rejects — an editor backup, the swap sentinel, or
/// anything under the output directory — never produces an event of any
/// kind, no matter how its content changes.
pub proof fn lemma_no_event_for_filtered(n: WatchNode, d: FsDir, q: Seq<char>)
    requires
        node_wf(n),
        !spec_is_valid_filename(q),
    ensures
        forall|kind: WatchKind| !event_set(n, d).contains((kind, q)),
{
    lemma_filter_exclusion(n, d);
    assert forall|kind: WatchKind| !event_set(n, d).contains((kind, q)) by {
        if event_set(n, d).contains((kind, q)) {
            assert(spec_is_valid_filename(q));
        }
    }
}

/// Every reported path names a place in the old mirror or in the snapshot.
pub proof fn lemma_event_paths_located(n: WatchNode, d: FsDir)
    ensures
        forall|e: (WatchKind, Seq<char>)|
            #[trigger] event_set(n, d).contains(e) ==> node_paths(n).contains(e.1) || dir_paths(
                d,
            ).contains(e.1),
    decreases d,
{
    assert forall|e: (WatchKind, Seq<char>)|
        #[trigger] event_set(n, d).contains(e) implies node_paths(n).contains(e.1) || dir_paths(
        d,
    ).contains(e.1) by {
        if file_events_upto(n.files@, d, d.files@.len() as int).contains(e) {
            lemma_file_events_member(n.files@, d, d.files@.len() as int, e);
            let t = choose|t: int|
                0 <= t < d.files@.len() && live_file_event_at(n.files@, d, t) == Option::Some(e);
            lemma_dir_paths_contains_file(d, t);
        } else if removal_events_upto(n.files@, d, n.files@.len() as int).contains(e) {
            lemma_removal_events_member(n.files@, d, n.files@.len() as int, e);
            let t = choose|t: int|
                0 <= t < n.files@.len() && removal_event_at(n.files@, d, t) == Option::Some(e);
            lemma_node_paths_contains_file(n, t);
        } else if dir_create_events_upto(n.children@, d, d.subdirs@.len() as int).contains(e) {
            lemma_dir_create_events_member(n.children@, d, d.subdirs@.len() as int, e);
            let t = choose|t: int|
                0 <= t < d.subdirs@.len() && dir_create_event_at(n.children@, d, t) == Option::Some(
                    e,
                );
            lemma_dir_paths_contains_root(d.subdirs@[t]);
            lemma_subdir_paths_subset(d, t);
        } else if child_removal_events_upto(n.children@, d, n.children@.len() as int).contains(e) {
            lemma_child_removal_events_member(n.children@, d, n.children@.len() as int, e);
            let t = choose|t: int|
                0 <= t < n.children@.len() && child_removal_event_at(n.children@, d, t)
                    == Option::Some(e);
            lemma_node_paths_contains_root(n.children@[t]);
            lemma_child_paths_subset(n, t);
        } else {
            lemma_rec_events_member(n.children@, d, n.children@.len() as int, e);
            let t = choose|t: int|
                0 <= t < n.children@.len() && spec_is_valid_filename(
                    (#[trigger] n.children@[t]).root@,
                ) && d.has_dir(n.children@[t].root@) && event_set(
                    n.children@[t],
                    d.dir_at(n.children@[t].root@),
                ).contains(e);
            let c = n.children@[t];
            let j = d.dir_index(c.root@);
            assert(0 <= j < d.subdirs@.len() && d.subdirs@[j].path@ == c.root@);
            lemma_event_paths_located(c, d.subdirs@[j]);
            lemma_child_paths_subset(n, t);
            lemma_subdir_paths_subset(d, j);
        }
    }
}

/// The large-file short-circuit: a file at or above the size threshold is
/// fingerprinted by size alone, so two polls seeing equal sizes report no
/// change even if the content differs, while a size change is always
/// reported as a Modify.
pub proof fn lemma_large_file_short_circuit(
    n: WatchNode,
    d: FsDir,
    i: int,
    size_then: u64,
    h_then: Option<u64>,
    size_now: u64,
    h_now: Option<u64>,
)
    requires
        0 <= i < d.files@.len(),
        spec_is_valid_filename(d.files@[i].path@),
        tracks(n.files@, d.files@[i].path@),
        tracked_fp(n.files@, d.files@[i].path@) == fingerprint_of(size_then, h_then),
        d.files@[i].fingerprint == fingerprint_of(size_now, h_now),
        size_then >= FILE_SIZE_THRESHOLD,
        size_now >= FILE_SIZE_THRESHOLD,
    ensures
        size_then == size_now ==> live_file_event_at(n.files@, d, i) is None,
        size_then != size_now ==> event_set(n, d).contains(
            (WatchKind::Modify, d.files@[i].path@),
        ),
{
    assert(fingerprint_of(size_then, h_then) == size_then);
    assert(fingerprint_of(size_now, h_now) == size_now);
    if size_then != size_now {
        assert(live_file_event_at(n.files@, d, i) == Option::Some(
            (WatchKind::Modify, d.files@[i].path@),
        ));
        lemma_file_events_intro(n.files@, d, d.files@.len() as int, i);
    }
}

/// Directory removal cascades: when a watched directory vanishes together
/// with its contents, the pass reports exactly one Remove — for the
/// directory itself — and nothing at all for any path that lived under it.
pub proof fn lemma_removal_cascade(n: WatchNode, d: FsDir, k: int, q: Seq<char>)
    requires
        node_wf(n),
        0 <= k < n.children@.len(),
        !d.has_dir(n.children@[k].root@),
        node_paths(n.children@[k]).contains(q),
        q != n.children@[k].root@,
        !dir_paths(d).contains(q),
    ensures
        event_set(n, d).contains((WatchKind::Remove, n.children@[k].root@)),
        forall|kind: WatchKind| !event_set(n, d).contains((kind, q)),
{
    // one Remove for the directory itself
    assert(child_removal_event_at(n.children@, d, k) == Option::Some(
        (WatchKind::Remove, n.children@[k].root@),
    ));
    lemma_child_removal_events_intro(n.children@, d, n.children@.len() as int, k);
    // nothing for its former contents
    assert forall|kind: WatchKind| !event_set(n, d).contains((kind, q)) by {
        let e = (kind, q);
        if event_set(n, d).contains(e) {
            if file_events_upto(n.files@, d, d.files@.len() as int).contains(e) {
                lemma_file_events_member(n.files@, d, d.files@.len() as int, e);
                let t = choose|t: int|
                    0 <= t < d.files@.len() && live_file_event_at(n.files@, d, t) == Option::Some(
                        e,
                    );
                lemma_dir_paths_contains_file(d, t);
                assert(false);
            } else if removal_events_upto(n.files@, d, n.files@.len() as int).contains(e) {
                lemma_removal_events_member(n.files@, d, n.files@.len() as int, e);
                let t = choose|t: int|
                    0 <= t < n.files@.len() && removal_event_at(n.files@, d, t) == Option::Some(e);
                assert(!node_paths(n.children@[k]).contains(n.files@[t].path@));
                assert(false);
            } else if dir_create_events_upto(n.children@, d, d.subdirs@.len() as int).contains(e) {
                lemma_dir_create_events_member(n.children@, d, d.subdirs@.len() as int, e);
                let t = choose|t: int|
                    0 <= t < d.subdirs@.len() && dir_create_event_at(n.children@, d, t)
                        == Option::Some(e);
                lemma_dir_paths_contains_root(d.subdirs@[t]);
                lemma_subdir_paths_subset(d, t);
                assert(false);
            } else if child_removal_events_upto(n.children@, d, n.children@.len() as int).contains(
                e,
            ) {
                lemma_child_removal_events_member(n.children@, d, n.children@.len() as int, e);
                let t = choose|t: int|
                    0 <= t < n.children@.len() && child_removal_event_at(n.children@, d, t)
                        == Option::Some(e);
                if t == k {
                    assert(q == n.children@[k].root@);
                } else {
                    lemma_node_paths_contains_root(n.children@[t]);
                    assert(node_paths(n.children@[t]).disjoint(node_paths(n.children@[k])));
                    assert(node_paths(n.children@[t]).contains(q));
                }
                assert(false);
            } else {
                lemma_rec_events_member(n.children@, d, n.children@.len() as int, e);
                let t = choose|t: int|
                    0 <= t < n.children@.len() && spec_is_valid_filename(
                        (#[trigger] n.children@[t]).root@,
                    ) && d.has_dir(n.children@[t].root@) && event_set(
                        n.children@[t],
                        d.dir_at(n.children@[t].root@),
                    ).contains(e);
                let c = n.children@[t];
                assert(t != k);
                let j = d.dir_index(c.root@);
                assert(0 <= j < d.subdirs@.len() && d.subdirs@[j].path@ == c.root@);
                lemma_event_paths_located(c, d.subdirs@[j]);
                assert(node_paths(c).contains(q) || dir_paths(d.subdirs@[j]).contains(q));
                if node_paths(c).contains(q) {
                    assert(node_paths(n.children@[t]).disjoint(node_paths(n.children@[k])));
                    assert(false);
                } else {
                    lemma_subdir_paths_subset(d, j);
                    assert(dir_paths(d).contains(q));
                    assert(false);
                }
            }
        }
    }
}

/// The mirror pins the tracked state: two nodes that both mirror the same
/// snapshot track exactly the same paths with the same fingerprints, so a
/// poll pass reproduces the live state no matter where the mirror started.
pub proof fn lemma_matches_determines_files(n1: WatchNode, n2: WatchNode, d: FsDir, p: Seq<char>)
    requires
        node_wf(n1),
        node_wf(n2),
        node_matches(n1, d),
        node_matches(n2, d),
    ensures
        tracks(n1.files@, p) <==> tracks(n2.files@, p),
        tracks(n1.files@, p) ==> tracked_fp(n1.files@, p) == tracked_fp(n2.files@, p),
{
    if tracks(n1.files@, p) {
        let w = choose|w: int| 0 <= w < n1.files@.len() && n1.files@[w].path@ == p;
        assert(d.has_file((#[trigger] n1.files@[w]).path@));
        let t = choose|t: int| 0 <= t < d.files@.len() && d.files@[t].path@ == p;
        assert(spec_is_valid_filename(#[trigger] n1.files@[w].path@));
        assert(tracks(n2.files@, d.files@[t].path@) && tracked_fp(n2.files@, d.files@[t].path@)
            == d.files@[t].fingerprint);
        assert(tracks(n1.files@, d.files@[t].path@) && tracked_fp(n1.files@, d.files@[t].path@)
            == d.files@[t].fingerprint);
    }
    if tracks(n2.files@, p) {
        let w = choose|w: int| 0 <= w < n2.files@.len() && n2.files@[w].path@ == p;
        assert(d.has_file((#[trigger] n2.files@[w]).path@));
        let t = choose|t: int| 0 <= t < d.files@.len() && d.files@[t].path@ == p;
        assert(spec_is_valid_filename(#[trigger] n2.files@[w].path@));
        assert(tracks(n1.files@, d.files@[t].path@));
    }
}

} // verus!
