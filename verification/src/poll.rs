//! One poll pass: diff a WatchNode against a snapshot of live filesystem
//! state, mutate the node in place so it mirrors the snapshot, and return
//! the observed changes.
//!
//! `event_set` states which (kind, path) pairs one pass reports: a Create
//! for each new watchable file or directory, a Modify for each tracked file
//! whose fingerprint changed, a Remove for each tracked entry that is gone —
//! one Remove for a vanished directory, nothing for its former contents —
//! and, recursively, the events of every child that is still alive.  Order
//! is not significant: callers get a set of changes.

use vstd::prelude::*;
use crate::filter::is_valid_filename;
use crate::filter::spec_is_valid_filename;
use crate::node::TrackedFile;
use crate::node::WatchNode;
use crate::node::files_match;
use crate::node::has_child;
use crate::node::lemma_assemble_node;
use crate::node::lemma_tracked_at;
use crate::node::lemma_tracks_push;
use crate::node::node_matches;
use crate::node::node_paths;
use crate::node::node_wf;
use crate::node::paths_distinct;
use crate::node::roots_distinct;
use crate::node::tracked_fp;
use crate::node::tracks;
use crate::snapshot::FsDir;
use crate::snapshot::dir_paths;
use crate::snapshot::fs_wf;
use crate::snapshot::lemma_dir_index_of;
use crate::watch::WatchEvent;
use crate::watch::WatchKind;
use crate::watch::events_set;

verus! {

/// What one live file entry contributes: a Create when it is new, a Modify
/// when its fingerprint changed, nothing when it is unchanged or filtered.
pub open spec fn live_file_event_at(files: Seq<TrackedFile>, d: FsDir, i: int) -> Option<
    (WatchKind, Seq<char>),
> {
    let f = d.files@[i];
    if !spec_is_valid_filename(f.path@) {
        Option::None
    } else if !tracks(files, f.path@) {
        Option::Some((WatchKind::Create, f.path@))
    } else if tracked_fp(files, f.path@) != f.fingerprint {
        Option::Some((WatchKind::Modify, f.path@))
    } else {
        Option::None
    }
}

/// The create/modify events of the first `i` live files.
pub open spec fn file_events_upto(files: Seq<TrackedFile>, d: FsDir, i: int) -> Set<
    (WatchKind, Seq<char>),
>
    decreases i,
{
    if i <= 0 || i > d.files@.len() {
        Set::empty()
    } else {
        let rest = file_events_upto(files, d, i - 1);
        match live_file_event_at(files, d, i - 1) {
            Option::Some(e) => rest.insert(e),
            Option::None => rest,
        }
    }
}

/// What one tracked file contributes: a Remove when no watchable live file
/// has its path any more.
pub open spec fn removal_event_at(files: Seq<TrackedFile>, d: FsDir, k: int) -> Option<
    (WatchKind, Seq<char>),
> {
    let p = files[k].path@;
    if d.has_file(p) && spec_is_valid_filename(p) {
        Option::None
    } else {
        Option::Some((WatchKind::Remove, p))
    }
}

/// The remove events of the first `k` tracked files.
pub open spec fn removal_events_upto(files: Seq<TrackedFile>, d: FsDir, k: int) -> Set<
    (WatchKind, Seq<char>),
>
    decreases k,
{
    if k <= 0 || k > files.len() {
        Set::empty()
    } else {
        let rest = removal_events_upto(files, d, k - 1);
        match removal_event_at(files, d, k - 1) {
            Option::Some(e) => rest.insert(e),
            Option::None => rest,
        }
    }
}

/// What one live subdirectory contributes: a Create when it is watchable
/// and no child mirrors it yet.  Its contents are captured silently into the
/// new child's snapshot, not reported one by one.
pub open spec fn dir_create_event_at(children: Seq<WatchNode>, d: FsDir, j: int) -> Option<
    (WatchKind, Seq<char>),
> {
    let p = d.subdirs@[j].path@;
    if spec_is_valid_filename(p) && !has_child(children, p) {
        Option::Some((WatchKind::Create, p))
    } else {
        Option::None
    }
}

/// The create events of the first `j` live subdirectories.
pub open spec fn dir_create_events_upto(children: Seq<WatchNode>, d: FsDir, j: int) -> Set<
    (WatchKind, Seq<char>),
>
    decreases j,
{
    if j <= 0 || j > d.subdirs@.len() {
        Set::empty()
    } else {
        let rest = dir_create_events_upto(children, d, j - 1);
        match dir_create_event_at(children, d, j - 1) {
            Option::Some(e) => rest.insert(e),
            Option::None => rest,
        }
    }
}

/// What one child contributes when its directory is gone: exactly one
/// Remove for the directory itself, and nothing for its former contents.
pub open spec fn child_removal_event_at(children: Seq<WatchNode>, d: FsDir, k: int) -> Option<
    (WatchKind, Seq<char>),
> {
    let p = children[k].root@;
    if d.has_dir(p) && spec_is_valid_filename(p) {
        Option::None
    } else {
        Option::Some((WatchKind::Remove, p))
    }
}

/// The remove events of the first `k` children.
pub open spec fn child_removal_events_upto(children: Seq<WatchNode>, d: FsDir, k: int) -> Set<
    (WatchKind, Seq<char>),
>
    decreases k,
{
    if k <= 0 || k > children.len() {
        Set::empty()
    } else {
        let rest = child_removal_events_upto(children, d, k - 1);
        match child_removal_event_at(children, d, k - 1) {
            Option::Some(e) => rest.insert(e),
            Option::None => rest,
        }
    }
}

/// The recursive events of the first `k` children that are still alive,
/// each polled against its live counterpart.
pub open spec fn rec_events_upto(children: Seq<WatchNode>, d: FsDir, k: int) -> Set<
    (WatchKind, Seq<char>),
>
    decreases d, 0int, k,
{
    if k <= 0 || k > children.len() {
        Set::empty()
    } else {
        let rest = rec_events_upto(children, d, k - 1);
        let c = children[k - 1];
        if spec_is_valid_filename(c.root@) && d.has_dir(c.root@) {
            rest.union(event_set(c, d.dir_at(c.root@)))
        } else {
            rest
        }
    }
}

/// Every (kind, path) pair one poll pass over `n` against `d` reports.
pub open spec fn event_set(n: WatchNode, d: FsDir) -> Set<(WatchKind, Seq<char>)>
    decreases d, 1int, 0int,
{
    file_events_upto(n.files@, d, d.files@.len() as int).union(
        removal_events_upto(n.files@, d, n.files@.len() as int),
    ).union(dir_create_events_upto(n.children@, d, d.subdirs@.len() as int)).union(
        child_removal_events_upto(n.children@, d, n.children@.len() as int),
    ).union(rec_events_upto(n.children@, d, n.children@.len() as int))
}

/// Appending one event adds exactly its (kind, path) pair to the set.
pub proof fn lemma_events_set_push(evs: Seq<WatchEvent>, e: WatchEvent)
    ensures
        events_set(evs.push(e)) =~= events_set(evs).insert(e@),
{
    let nv = evs.push(e);
    assert forall|x: (WatchKind, Seq<char>)| events_set(nv).contains(x) implies events_set(
        evs,
    ).insert(e@).contains(x) by {
        let i = choose|i: int| 0 <= i < nv.len() && nv[i]@ == x;
        if i < evs.len() {
            assert(evs[i]@ == x);
            assert(events_set(evs).contains(x));
        } else {
            assert(x == e@);
        }
    }
    assert forall|x: (WatchKind, Seq<char>)|
        events_set(evs).insert(e@).contains(x) implies events_set(nv).contains(x) by {
        if x == e@ {
            assert(nv[evs.len() as int]@ == x);
        } else {
            let i = choose|i: int| 0 <= i < evs.len() && evs[i]@ == x;
            assert(nv[i]@ == x);
        }
    }
}

/// Concatenating event lists unions their sets.
pub proof fn lemma_events_set_append(a: Seq<WatchEvent>, b: Seq<WatchEvent>)
    ensures
        events_set(a + b) =~= events_set(a).union(events_set(b)),
{
    let cc = a + b;
    assert forall|x: (WatchKind, Seq<char>)| events_set(cc).contains(x) implies events_set(
        a,
    ).union(events_set(b)).contains(x) by {
        let i = choose|i: int| 0 <= i < cc.len() && cc[i]@ == x;
        if i < a.len() {
            assert(a[i]@ == x);
            assert(events_set(a).contains(x));
        } else {
            assert(b[i - a.len()]@ == x);
            assert(events_set(b).contains(x));
        }
    }
    assert forall|x: (WatchKind, Seq<char>)|
        events_set(a).union(events_set(b)).contains(x) implies events_set(cc).contains(x) by {
        if events_set(a).contains(x) {
            let i = choose|i: int| 0 <= i < a.len() && a[i]@ == x;
            assert(cc[i]@ == x);
        } else {
            let i = choose|i: int| 0 <= i < b.len() && b[i]@ == x;
            assert(cc[a.len() + i]@ == x);
        }
    }
}

/// Rebuilds the file table from the snapshot's watchable files and collects
/// the Create and Modify events of this directory level.
fn sync_files(files: &Vec<TrackedFile>, d: &FsDir) -> (r: (Vec<TrackedFile>, Vec<WatchEvent>))
    requires
        paths_distinct(files@),
        forall|a: int, b: int|
            0 <= a < b < d.files@.len() ==> d.files@[a].path@ != d.files@[b].path@,
    ensures
        paths_distinct(r.0@),
        forall|a: int|
            0 <= a < r.0@.len() ==> spec_is_valid_filename((#[trigger] r.0@[a]).path@),
        forall|a: int| 0 <= a < r.0@.len() ==> d.has_file((#[trigger] r.0@[a]).path@),
        forall|t: int|
            0 <= t < d.files@.len() && spec_is_valid_filename(#[trigger] d.files@[t].path@)
                ==> tracks(r.0@, d.files@[t].path@) && tracked_fp(r.0@, d.files@[t].path@)
                == d.files@[t].fingerprint,
        events_set(r.1@) =~= file_events_upto(files@, *d, d.files@.len() as int),
        files_match(files@, *d) ==> r.1@.len() == 0,
{
    let ghost dd = *d;
    let mut nf: Vec<TrackedFile> = Vec::new();
    let mut evs: Vec<WatchEvent> = Vec::new();
    let mut i: usize = 0;
    while i < d.files.len()
        invariant
            dd == *d,
            paths_distinct(files@),
            forall|a: int, b: int|
                0 <= a < b < dd.files@.len() ==> dd.files@[a].path@ != dd.files@[b].path@,
            0 <= i <= dd.files@.len(),
            paths_distinct(nf@),
            forall|a: int| 0 <= a < nf@.len() ==> spec_is_valid_filename((#[trigger] nf@[a]).path@),
            forall|a: int| 0 <= a < nf@.len() ==> dd.has_file((#[trigger] nf@[a]).path@),
            forall|t: int|
                0 <= t < i && spec_is_valid_filename(#[trigger] dd.files@[t].path@) ==> tracks(
                    nf@,
                    dd.files@[t].path@,
                ) && tracked_fp(nf@, dd.files@[t].path@) == dd.files@[t].fingerprint,
            forall|t: int| i <= t < dd.files@.len() ==> !tracks(nf@, #[trigger] dd.files@[t].path@),
            events_set(evs@) =~= file_events_upto(files@, dd, i as int),
            files_match(files@, dd) ==> evs@.len() == 0,
        decreases dd.files@.len() - i,
    {
        let f = &d.files[i];
        let ghost onf = nf@;
        let ghost oevs = evs@;
        if is_valid_filename(f.path.as_str()) {
            let prior = crate::node::find_tracked(files, &f.path);
            match prior {
                None => {
                    evs.push(WatchEvent { kind: WatchKind::Create, path: f.path.clone() });
                    proof {
                        lemma_events_set_push(oevs, evs@[evs@.len() - 1]);
                        assert(live_file_event_at(files@, dd, i as int) == Option::Some(
                            (WatchKind::Create, dd.files@[i as int].path@),
                        ));
                        if files_match(files@, dd) {
                            assert(tracks(files@, dd.files@[i as int].path@));
                            assert(false);
                        }
                    }
                },
                Some(h) => {
                    if h != f.fingerprint {
                        evs.push(WatchEvent { kind: WatchKind::Modify, path: f.path.clone() });
                        proof {
                            lemma_events_set_push(oevs, evs@[evs@.len() - 1]);
                            assert(live_file_event_at(files@, dd, i as int) == Option::Some(
                                (WatchKind::Modify, dd.files@[i as int].path@),
                            ));
                            if files_match(files@, dd) {
                                assert(tracked_fp(files@, dd.files@[i as int].path@)
                                    == dd.files@[i as int].fingerprint);
                                assert(false);
                            }
                        }
                    } else {
                        proof {
                            assert(live_file_event_at(files@, dd, i as int) is None);
                        }
                    }
                },
            }
            let e = TrackedFile { path: f.path.clone(), fingerprint: f.fingerprint };
            proof {
                assert(!tracks(onf, dd.files@[i as int].path@));
            }
            nf.push(e);
            proof {
                let nnf = nf@;
                let last = nnf.len() - 1;
                assert(nnf =~= onf.push(nnf[last]));
                assert(nnf[last].path@ == dd.files@[i as int].path@);
                assert forall|a: int, b: int|
                    0 <= a < b < nnf.len() implies nnf[a].path@ != nnf[b].path@ by {
                    if b == last {
                        if nnf[a].path@ == nnf[b].path@ {
                            assert(tracks(onf, dd.files@[i as int].path@));
                        }
                    }
                }
                assert forall|t: int|
                    0 <= t < i + 1 && spec_is_valid_filename(
                        #[trigger] dd.files@[t].path@,
                    ) implies tracks(nnf, dd.files@[t].path@) && tracked_fp(nnf, dd.files@[t].path@)
                    == dd.files@[t].fingerprint by {
                    if t == i {
                        lemma_tracked_at(nnf, last);
                    } else {
                        lemma_tracks_push(onf, nnf[last], dd.files@[t].path@);
                    }
                }
                assert forall|t: int|
                    i + 1 <= t < dd.files@.len() implies !tracks(
                    nnf,
                    #[trigger] dd.files@[t].path@,
                ) by {
                    if tracks(nnf, dd.files@[t].path@) {
                        let v = choose|v: int| 0 <= v < nnf.len() && nnf[v].path@ == dd.files@[t].path@;
                        if v < last {
                            assert(tracks(onf, dd.files@[t].path@));
                        } else {
                            assert(dd.files@[i as int].path@ == dd.files@[t].path@);
                        }
                        assert(false);
                    }
                }
            }
        } else {
            proof {
                assert(live_file_event_at(files@, dd, i as int) is None);
            }
        }
        i += 1;
    }
    (nf, evs)
}

/// A root occurs in a concatenation when it occurs in either part.
proof fn lemma_has_child_concat(a: Seq<WatchNode>, b: Seq<WatchNode>, p: Seq<char>)
    ensures
        has_child(a + b, p) <==> has_child(a, p) || has_child(b, p),
{
    let cc = a + b;
    if has_child(cc, p) {
        let i = choose|i: int| 0 <= i < cc.len() && cc[i].root@ == p;
        if i < a.len() {
            assert(a[i].root@ == p);
        } else {
            assert(b[i - a.len()].root@ == p);
        }
    }
    if has_child(a, p) {
        let i = choose|i: int| 0 <= i < a.len() && a[i].root@ == p;
        assert(cc[i].root@ == p);
    }
    if has_child(b, p) {
        let i = choose|i: int| 0 <= i < b.len() && b[i].root@ == p;
        assert(cc[a.len() + i].root@ == p);
    }
}

impl WatchNode {
    /// One poll pass: reconcile this node against the snapshot `live` of the
    /// directory it mirrors, mutating the node in place, and return the
    /// changes observed — exactly the pairs of `event_set`, and none at all
    /// when nothing changed since the node last matched the snapshot.
    pub fn poll(&mut self, live: &FsDir) -> (events: Vec<WatchEvent>)
        requires
            node_wf(*old(self)),
            fs_wf(*live),
            old(self).root@ == live.path@,
        ensures
            node_wf(*final(self)),
            final(self).root@ == old(self).root@,
            node_matches(*final(self), *live),
            events_set(events@) =~= event_set(*old(self), *live),
            forall|q: Seq<char>|
                node_paths(*final(self)).contains(q) ==> #[trigger] dir_paths(*live).contains(q),
            node_matches(*old(self), *live) ==> events@.len() == 0,
        decreases *live,
    {
        let ghost d = *live;
        let ghost old_files = old(self).files@;
        let ghost old_children = old(self).children@;

        // files of this level: creates and modifies, then removals
        let (new_files, mut events) = sync_files(&self.files, live);
        let mut rem = file_removals(&self.files, live);
        let ghost ev0 = events@;
        let ghost grem = rem@;
        events.append(&mut rem);
        let ghost base2 = file_events_upto(old_files, d, d.files@.len() as int).union(
            removal_events_upto(old_files, d, old_files.len() as int),
        );
        proof {
            lemma_events_set_append(ev0, grem);
            assert(events_set(events@) =~= base2);
            if node_matches(*old(self), d) {
                assert(forall|a: int|
                    0 <= a < old_files.len() ==> d.has_file((#[trigger] old_files[a]).path@));
                assert(events@.len() == 0);
            }
        }

        // children: poll survivors, drop the vanished, adopt the new
        let mut kept: Vec<WatchNode> = Vec::new();
        let mut remaining: Vec<WatchNode> = Vec::new();
        core::mem::swap(&mut remaining, &mut self.children);
        let ghost mut processed: int = 0;
        proof {
            assert(remaining@ =~= old_children.skip(0));
        }
        while remaining.len() > 0
            invariant
                d == *live,
                fs_wf(d),
                node_wf(*old(self)),
                old_children == old(self).children@,
                processed + remaining@.len() == old_children.len(),
                0 <= processed <= old_children.len(),
                remaining@ =~= old_children.skip(processed),
                roots_distinct(kept@),
                forall|a: int| 0 <= a < kept@.len() ==> d.has_dir((#[trigger] kept@[a]).root@),
                forall|a: int|
                    0 <= a < kept@.len() ==> spec_is_valid_filename((#[trigger] kept@[a]).root@),
                forall|a: int| 0 <= a < kept@.len() ==> node_wf(#[trigger] kept@[a]),
                forall|a: int|
                    0 <= a < kept@.len() ==> node_matches(
                        #[trigger] kept@[a],
                        d.dir_at(kept@[a].root@),
                    ),
                forall|a: int, q: Seq<char>|
                    0 <= a < kept@.len() && #[trigger] node_paths(kept@[a]).contains(q)
                        ==> dir_paths(d.dir_at(kept@[a].root@)).contains(q),
                forall|a: int|
                    0 <= a < kept@.len() ==> has_child(old_children, (#[trigger] kept@[a]).root@),
                forall|t: int|
                    0 <= t < processed && d.has_dir((#[trigger] old_children[t]).root@)
                        ==> has_child(kept@, old_children[t].root@),
                forall|t: int|
                    processed <= t < old_children.len() ==> !has_child(
                        kept@,
                        (#[trigger] old_children[t]).root@,
                    ),
                events_set(events@) =~= base2.union(
                    rec_events_upto(old_children, d, processed),
                ).union(child_removal_events_upto(old_children, d, processed)),
                node_matches(*old(self), d) ==> events@.len() == 0,
            decreases remaining@.len(),
        {
            let mut c = remaining.remove(0);
            proof {
                assert(c == old_children.skip(processed)[0]);
                assert(c == old_children[processed]);
                assert(remaining@ =~= old_children.skip(processed + 1));
                assert(node_wf(#[trigger] old(self).children@[processed]));
                assert(spec_is_valid_filename(old(self).children@[processed].root@));
            }
            let found = crate::node::find_live_dir(live, &c.root);
            let ghost oev = events@;
            let ghost okept = kept@;
            match found {
                Some(j) => {
                    proof {
                        lemma_dir_index_of(d, j as int);
                        assert(d.dir_at(c.root@) == d.subdirs@[j as int]);
                        assert(fs_wf(#[trigger] d.subdirs@[j as int]));
                    }
                    let ghost cpre = c;
                    let mut evs_c = c.poll(&live.subdirs[j]);
                    let ghost gevc = evs_c@;
                    events.append(&mut evs_c);
                    kept.push(c);
                    proof {
                        lemma_events_set_append(oev, gevc);
                        // the recursive batch is exactly this child's event set
                        assert(spec_is_valid_filename(cpre.root@) && d.has_dir(cpre.root@));
                        assert(rec_events_upto(old_children, d, processed + 1)
                            =~= rec_events_upto(old_children, d, processed).union(
                            event_set(cpre, d.dir_at(cpre.root@)),
                        ));
                        assert(child_removal_event_at(old_children, d, processed) is None);
                        assert(child_removal_events_upto(old_children, d, processed + 1)
                            =~= child_removal_events_upto(old_children, d, processed));
                        assert(events_set(events@) =~= base2.union(
                            rec_events_upto(old_children, d, processed + 1),
                        ).union(child_removal_events_upto(old_children, d, processed + 1)));
                        // the polled child keeps its root and now mirrors its live dir
                        let nk = kept@;
                        let last = nk.len() - 1;
                        assert(nk =~= okept.push(nk[last]));
                        assert(nk[last].root@ == cpre.root@);
                        assert(node_matches(nk[last], d.dir_at(nk[last].root@)));
                        assert forall|a: int, b: int|
                            0 <= a < b < nk.len() implies nk[a].root@ != nk[b].root@ by {
                            if b == last {
                                if nk[a].root@ == nk[b].root@ {
                                    assert(has_child(okept, old_children[processed].root@));
                                }
                            }
                        }
                        assert forall|t: int|
                            processed + 1 <= t < old_children.len() implies !has_child(
                            nk,
                            (#[trigger] old_children[t]).root@,
                        ) by {
                            if has_child(nk, old_children[t].root@) {
                                let v = choose|v: int|
                                    0 <= v < nk.len() && nk[v].root@ == old_children[t].root@;
                                if v < last {
                                    assert(has_child(okept, old_children[t].root@));
                                } else {
                                    assert(old_children[processed].root@
                                        == old_children[t].root@);
                                }
                                assert(false);
                            }
                        }
                        assert forall|t: int|
                            0 <= t < processed + 1 && d.has_dir(
                                (#[trigger] old_children[t]).root@,
                            ) implies has_child(nk, old_children[t].root@) by {
                            if t == processed {
                                assert(nk[last].root@ == old_children[t].root@);
                            } else {
                                let w = choose|w: int|
                                    0 <= w < okept.len() && okept[w].root@ == old_children[t].root@;
                                assert(nk[w].root@ == old_children[t].root@);
                            }
                        }
                        // when the whole node matched, the child matched too and
                        // reported nothing
                        if node_matches(*old(self), d) {
                            assert(node_matches(
                                #[trigger] old(self).children@[processed],
                                #[trigger] d.subdirs@[j as int],
                            ));
                            assert(gevc.len() == 0);
                        }
                    }
                },
                None => {
                    proof {
                        assert(!d.has_dir(c.root@));
                    }
                    events.push(WatchEvent { kind: WatchKind::Remove, path: c.root.clone() });
                    proof {
                        lemma_events_set_push(oev, events@[events@.len() - 1]);
                        assert(child_removal_event_at(old_children, d, processed)
                            == Option::Some((WatchKind::Remove, c.root@)));
                        assert(child_removal_events_upto(old_children, d, processed + 1)
                            =~= child_removal_events_upto(old_children, d, processed).insert(
                            (WatchKind::Remove, c.root@),
                        ));
                        assert(rec_events_upto(old_children, d, processed + 1)
                            =~= rec_events_upto(old_children, d, processed));
                        assert(events_set(events@) =~= base2.union(
                            rec_events_upto(old_children, d, processed + 1),
                        ).union(child_removal_events_upto(old_children, d, processed + 1)));
                        if node_matches(*old(self), d) {
                            assert(d.has_dir(
                                (#[trigger] old(self).children@[processed]).root@,
                            ));
                            assert(false);
                        }
                    }
                },
            }
            proof {
                processed = processed + 1;
            }
        }
        proof {
            assert(processed == old_children.len());
        }

        // live subdirectories with no mirror yet: adopt them, one Create each
        let mut added: Vec<WatchNode> = Vec::new();
        let mut j: usize = 0;
        while j < live.subdirs.len()
            invariant
                d == *live,
                fs_wf(d),
                node_wf(*old(self)),
                old_children == old(self).children@,
                0 <= j <= d.subdirs@.len(),
                roots_distinct(kept@),
                forall|a: int| 0 <= a < kept@.len() ==> d.has_dir((#[trigger] kept@[a]).root@),
                forall|a: int|
                    0 <= a < kept@.len() ==> spec_is_valid_filename((#[trigger] kept@[a]).root@),
                forall|a: int| 0 <= a < kept@.len() ==> node_wf(#[trigger] kept@[a]),
                forall|a: int|
                    0 <= a < kept@.len() ==> node_matches(
                        #[trigger] kept@[a],
                        d.dir_at(kept@[a].root@),
                    ),
                forall|a: int, q: Seq<char>|
                    0 <= a < kept@.len() && #[trigger] node_paths(kept@[a]).contains(q)
                        ==> dir_paths(d.dir_at(kept@[a].root@)).contains(q),
                forall|a: int|
                    0 <= a < kept@.len() ==> has_child(old_children, (#[trigger] kept@[a]).root@),
                forall|t: int|
                    0 <= t < old_children.len() && d.has_dir((#[trigger] old_children[t]).root@)
                        ==> has_child(kept@, old_children[t].root@),
                roots_distinct(added@),
                forall|a: int| 0 <= a < added@.len() ==> d.has_dir((#[trigger] added@[a]).root@),
                forall|a: int|
                    0 <= a < added@.len() ==> spec_is_valid_filename((#[trigger] added@[a]).root@),
                forall|a: int| 0 <= a < added@.len() ==> node_wf(#[trigger] added@[a]),
                forall|a: int|
                    0 <= a < added@.len() ==> node_matches(
                        #[trigger] added@[a],
                        d.dir_at(added@[a].root@),
                    ),
                forall|a: int, q: Seq<char>|
                    0 <= a < added@.len() && #[trigger] node_paths(added@[a]).contains(q)
                        ==> dir_paths(d.dir_at(added@[a].root@)).contains(q),
                forall|a: int|
                    0 <= a < added@.len() ==> !has_child(kept@, (#[trigger] added@[a]).root@),
                forall|a: int|
                    0 <= a < added@.len() ==> d.dir_index((#[trigger] added@[a]).root@) < j,
                forall|t: int|
                    0 <= t < j && spec_is_valid_filename(#[trigger] d.subdirs@[t].path@)
                        ==> has_child(kept@, d.subdirs@[t].path@) || has_child(
                        added@,
                        d.subdirs@[t].path@,
                    ),
                events_set(events@) =~= base2.union(
                    rec_events_upto(old_children, d, old_children.len() as int),
                ).union(child_removal_events_upto(old_children, d, old_children.len() as int)).union(
                    dir_create_events_upto(old_children, d, j as int),
                ),
                node_matches(*old(self), d) ==> events@.len() == 0,
            decreases d.subdirs@.len() - j,
        {
            let sd = &live.subdirs[j];
            let ghost oev = events@;
            let ghost oadd = added@;
            if is_valid_filename(sd.path.as_str()) {
                let already = crate::node::find_child(&kept, &sd.path);
                if !already {
                    proof {
                        // never a child before: otherwise the survivor loop kept it
                        if has_child(old_children, d.subdirs@[j as int].path@) {
                            let t = choose|t: int|
                                0 <= t < old_children.len() && old_children[t].root@
                                    == d.subdirs@[j as int].path@;
                            assert(d.has_dir((#[trigger] old_children[t]).root@));
                            assert(has_child(kept@, d.subdirs@[j as int].path@));
                            assert(false);
                        }
                        assert(dir_create_event_at(old_children, d, j as int) == Option::Some(
                            (WatchKind::Create, d.subdirs@[j as int].path@),
                        ));
                        assert(fs_wf(#[trigger] d.subdirs@[j as int]));
                    }
                    let c = WatchNode::new(sd);
                    events.push(WatchEvent { kind: WatchKind::Create, path: sd.path.clone() });
                    added.push(c);
                    proof {
                        lemma_dir_index_of(d, j as int);
                        lemma_events_set_push(oev, events@[events@.len() - 1]);
                        assert(dir_create_events_upto(old_children, d, j as int + 1)
                            =~= dir_create_events_upto(old_children, d, j as int).insert(
                            (WatchKind::Create, d.subdirs@[j as int].path@),
                        ));
                        assert(events_set(events@) =~= base2.union(
                            rec_events_upto(old_children, d, old_children.len() as int),
                        ).union(
                            child_removal_events_upto(old_children, d, old_children.len() as int),
                        ).union(dir_create_events_upto(old_children, d, j as int + 1)));
                        let na = added@;
                        let last = na.len() - 1;
                        assert(na =~= oadd.push(na[last]));
                        assert(na[last].root@ == d.subdirs@[j as int].path@);
                        assert(d.dir_at(na[last].root@) == d.subdirs@[j as int]);
                        assert forall|a: int, b: int|
                            0 <= a < b < na.len() implies na[a].root@ != na[b].root@ by {
                            if b == last {
                                if na[a].root@ == na[b].root@ {
                                    assert(d.has_dir(oadd[a].root@));
                                    let t = d.dir_index(oadd[a].root@);
                                    assert(0 <= t < d.subdirs@.len() && d.subdirs@[t].path@
                                        == oadd[a].root@);
                                    assert(t < j);
                                    assert(d.subdirs@[t].path@ != d.subdirs@[j as int].path@);
                                }
                            }
                        }
                        assert forall|t: int|
                            0 <= t < j + 1 && spec_is_valid_filename(
                                #[trigger] d.subdirs@[t].path@,
                            ) implies has_child(kept@, d.subdirs@[t].path@) || has_child(
                            na,
                            d.subdirs@[t].path@,
                        ) by {
                            if t == j {
                                assert(na[last].root@ == d.subdirs@[t].path@);
                            } else {
                                if has_child(oadd, d.subdirs@[t].path@) {
                                    let w = choose|w: int|
                                        0 <= w < oadd.len() && oadd[w].root@ == d.subdirs@[t].path@;
                                    assert(na[w].root@ == d.subdirs@[t].path@);
                                }
                            }
                        }
                        if node_matches(*old(self), d) {
                            assert(has_child(old_children, d.subdirs@[j as int].path@));
                            assert(false);
                        }
                    }
                } else {
                    proof {
                        // kept roots are old children roots, so the live dir was
                        // already mirrored
                        let a = choose|a: int|
                            0 <= a < kept@.len() && kept@[a].root@ == d.subdirs@[j as int].path@;
                        assert(has_child(old_children, (#[trigger] kept@[a]).root@));
                        assert(dir_create_event_at(old_children, d, j as int) is None);
                        assert(dir_create_events_upto(old_children, d, j as int + 1)
                            =~= dir_create_events_upto(old_children, d, j as int));
                    }
                }
            } else {
                proof {
                    assert(dir_create_event_at(old_children, d, j as int) is None);
                    assert(dir_create_events_upto(old_children, d, j as int + 1)
                        =~= dir_create_events_upto(old_children, d, j as int));
                }
            }
            j += 1;
        }

        // install the reconciled state
        let ghost gkept = kept@;
        let ghost gadded = added@;
        kept.append(&mut added);
        self.files = new_files;
        self.children = kept;
        proof {
            let nc = self.children@;
            assert(nc == gkept + gadded);
            assert forall|p: Seq<char>|
                has_child(gkept, p) || has_child(gadded, p) implies #[trigger] has_child(
                nc,
                p,
            ) by {
                lemma_has_child_concat(gkept, gadded, p);
            }
            assert(roots_distinct(nc)) by {
                assert forall|a: int, b: int|
                    0 <= a < b < nc.len() implies nc[a].root@ != nc[b].root@ by {
                    if b < gkept.len() {
                    } else if a >= gkept.len() {
                        assert(gadded[a - gkept.len()].root@ != gadded[b - gkept.len()].root@);
                    } else {
                        // a in kept, b in added: added roots are never kept roots
                        if nc[a].root@ == nc[b].root@ {
                            assert(has_child(gkept, gadded[b - gkept.len()].root@));
                            assert(!has_child(gkept, (#[trigger] gadded[b - gkept.len()]).root@));
                        }
                    }
                }
            }
            assert forall|a: int| 0 <= a < nc.len() implies d.has_dir((#[trigger] nc[a]).root@)
                && spec_is_valid_filename(nc[a].root@) && node_wf(nc[a]) && node_matches(
                nc[a],
                d.dir_at(nc[a].root@),
            ) by {
                if a < gkept.len() {
                    assert(nc[a] == gkept[a]);
                } else {
                    assert(nc[a] == gadded[a - gkept.len()]);
                }
            }
            assert forall|a: int, q: Seq<char>|
                0 <= a < nc.len() && #[trigger] node_paths(nc[a]).contains(q) implies dir_paths(
                d.dir_at(nc[a].root@),
            ).contains(q) by {
                if a < gkept.len() {
                    assert(nc[a] == gkept[a]);
                    assert(node_paths(gkept[a]).contains(q));
                } else {
                    assert(nc[a] == gadded[a - gkept.len()]);
                    assert(node_paths(gadded[a - gkept.len()]).contains(q));
                }
            }
            assert forall|t: int|
                0 <= t < d.subdirs@.len() && spec_is_valid_filename(
                    #[trigger] d.subdirs@[t].path@,
                ) implies has_child(nc, d.subdirs@[t].path@) by {
                assert(has_child(gkept, d.subdirs@[t].path@) || has_child(
                    gadded,
                    d.subdirs@[t].path@,
                ));
            }
            lemma_assemble_node(*self, d);
            // the five parts together are exactly the event set
            assert(event_set(*old(self), d) == file_events_upto(
                old_files,
                d,
                d.files@.len() as int,
            ).union(removal_events_upto(old_files, d, old_files.len() as int)).union(
                dir_create_events_upto(old_children, d, d.subdirs@.len() as int),
            ).union(child_removal_events_upto(old_children, d, old_children.len() as int)).union(
                rec_events_upto(old_children, d, old_children.len() as int),
            ));
            assert(events_set(events@) =~= event_set(*old(self), d));
        }
        events
    }
}

/// Collects a Remove for every tracked file whose path no longer names a
/// watchable live file.
fn file_removals(files: &Vec<TrackedFile>, d: &FsDir) -> (evs: Vec<WatchEvent>)
    ensures
        events_set(evs@) =~= removal_events_upto(files@, *d, files@.len() as int),
        (forall|a: int|
            0 <= a < files@.len() ==> d.has_file((#[trigger] files@[a]).path@)
                && spec_is_valid_filename(files@[a].path@)) ==> evs@.len() == 0,
{
    let ghost dd = *d;
    let mut evs: Vec<WatchEvent> = Vec::new();
    let mut k: usize = 0;
    while k < files.len()
        invariant
            dd == *d,
            0 <= k <= files@.len(),
            events_set(evs@) =~= removal_events_upto(files@, dd, k as int),
            (forall|a: int|
                0 <= a < files@.len() ==> dd.has_file((#[trigger] files@[a]).path@)
                    && spec_is_valid_filename(files@[a].path@)) ==> evs@.len() == 0,
        decreases files@.len() - k,
    {
        let tf = &files[k];
        let ghost oevs = evs@;
        let alive = crate::node::has_live_file(d, &tf.path);
        if alive && is_valid_filename(tf.path.as_str()) {
            proof {
                assert(removal_event_at(files@, dd, k as int) is None);
            }
        } else {
            evs.push(WatchEvent { kind: WatchKind::Remove, path: tf.path.clone() });
            proof {
                lemma_events_set_push(oevs, evs@[evs@.len() - 1]);
                assert(removal_event_at(files@, dd, k as int) == Option::Some(
                    (WatchKind::Remove, files@[k as int].path@),
                ));
            }
        }
        k += 1;
    }
    evs
}

} // verus!
