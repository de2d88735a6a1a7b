use densky::fingerprint::{Fingerprint, FILE_SIZE_THRESHOLD};
use densky::node::WatchNode;
use densky::snapshot::{FsDir, FsFile};
use densky::watch::WatchKind;

fn file(path: &str, fingerprint: u64) -> FsFile {
    FsFile { path: String::from(path), fingerprint }
}

fn dir(path: &str, files: Vec<FsFile>, subdirs: Vec<FsDir>) -> FsDir {
    FsDir { path: String::from(path), files, subdirs }
}

fn empty_root(path: &str) -> FsDir {
    dir(path, vec![], vec![])
}

#[test]
fn single_file_lifecycle() {
    // a fresh watcher is an empty mirror: the first poll reports the tree
    let mut node = WatchNode::new(&empty_root("/r"));

    let live1 = dir("/r", vec![file("/r/a.txt", 1)], vec![]);
    let ev1 = node.poll(&live1);
    assert_eq!(ev1.len(), 1);
    assert_eq!(ev1[0].kind, WatchKind::Create);
    assert_eq!(ev1[0].path, "/r/a.txt");

    // edit the file: its fingerprint changes
    let live2 = dir("/r", vec![file("/r/a.txt", 2)], vec![]);
    let ev2 = node.poll(&live2);
    assert_eq!(ev2.len(), 1);
    assert_eq!(ev2[0].kind, WatchKind::Modify);
    assert_eq!(ev2[0].path, "/r/a.txt");

    // delete the file
    let live3 = empty_root("/r");
    let ev3 = node.poll(&live3);
    assert_eq!(ev3.len(), 1);
    assert_eq!(ev3[0].kind, WatchKind::Remove);
    assert_eq!(ev3[0].path, "/r/a.txt");

    // no change: an empty batch
    let live4 = empty_root("/r");
    let ev4 = node.poll(&live4);
    assert_eq!(ev4.len(), 0);
}

#[test]
fn second_poll_with_no_change_is_empty() {
    let mut node = WatchNode::new(&empty_root("/r"));
    let live = dir(
        "/r",
        vec![file("/r/a.txt", 10), file("/r/b.txt", 11)],
        vec![dir("/r/sub", vec![file("/r/sub/c.txt", 12)], vec![])],
    );
    let first = node.poll(&live);
    assert!(first.len() > 0);
    let second = node.poll(&live);
    assert_eq!(second.len(), 0);
}

#[test]
fn new_subdirectory_reports_one_create_only() {
    // mirror of a root that already matches the live state
    let base = dir("/r", vec![file("/r/a.txt", 1)], vec![]);
    let mut node = WatchNode::new(&base);
    assert_eq!(node.poll(&base).len(), 0);

    // a subdirectory with a file inside appears: one Create for the
    // directory, nothing for its contents
    let live = dir(
        "/r",
        vec![file("/r/a.txt", 1)],
        vec![dir("/r/sub", vec![file("/r/sub/b.txt", 7)], vec![])],
    );
    let ev = node.poll(&live);
    assert_eq!(ev.len(), 1);
    assert_eq!(ev[0].kind, WatchKind::Create);
    assert_eq!(ev[0].path, "/r/sub");

    // later edits inside the adopted subdirectory are reported normally
    let live2 = dir(
        "/r",
        vec![file("/r/a.txt", 1)],
        vec![dir("/r/sub", vec![file("/r/sub/b.txt", 8)], vec![])],
    );
    let ev2 = node.poll(&live2);
    assert_eq!(ev2.len(), 1);
    assert_eq!(ev2[0].kind, WatchKind::Modify);
    assert_eq!(ev2[0].path, "/r/sub/b.txt");
}

#[test]
fn directory_removal_cascades_to_one_event() {
    let base = dir(
        "/r",
        vec![],
        vec![dir(
            "/r/sub",
            vec![
                file("/r/sub/a.txt", 1),
                file("/r/sub/b.txt", 2),
                file("/r/sub/c.txt", 3),
            ],
            vec![],
        )],
    );
    let mut node = WatchNode::new(&base);
    assert_eq!(node.poll(&base).len(), 0);

    // the directory and its three tracked files vanish: exactly one Remove
    // for the directory, none for its former children
    let live = empty_root("/r");
    let ev = node.poll(&live);
    assert_eq!(ev.len(), 1);
    assert_eq!(ev[0].kind, WatchKind::Remove);
    assert_eq!(ev[0].path, "/r/sub");
}

#[test]
fn filtered_paths_never_produce_events() {
    let mut node = WatchNode::new(&empty_root("/r"));
    let live = dir(
        "/r",
        vec![
            file("/r/foo.txt~", 1),
            file("/r/keep.txt", 2),
            file("/r/4913", 3),
        ],
        vec![dir("/r/.densky", vec![file("/r/.densky/gen.ts", 4)], vec![])],
    );
    let ev = node.poll(&live);
    assert_eq!(ev.len(), 1);
    assert_eq!(ev[0].kind, WatchKind::Create);
    assert_eq!(ev[0].path, "/r/keep.txt");

    // content changes under the filter stay invisible
    let live2 = dir(
        "/r",
        vec![
            file("/r/foo.txt~", 100),
            file("/r/keep.txt", 2),
            file("/r/4913", 300),
        ],
        vec![dir("/r/.densky", vec![file("/r/.densky/gen.ts", 400)], vec![])],
    );
    let ev2 = node.poll(&live2);
    assert_eq!(ev2.len(), 0);
}

#[test]
fn large_file_short_circuit_across_polls() {
    let fp = Fingerprint::new(29384);
    let content_a = String::from("one content");
    let content_b = String::from("another one");

    let mut node = WatchNode::new(&empty_root("/r"));
    let fp1 = fp.get_hash_with_size(FILE_SIZE_THRESHOLD + 10, Some(&content_a));
    let ev = node.poll(&dir("/r", vec![file("/r/big.bin", fp1)], vec![]));
    assert_eq!(ev.len(), 1);

    // same size, different content: reported as unchanged
    let fp2 = fp.get_hash_with_size(FILE_SIZE_THRESHOLD + 10, Some(&content_b));
    assert_eq!(fp1, fp2);
    let ev2 = node.poll(&dir("/r", vec![file("/r/big.bin", fp2)], vec![]));
    assert_eq!(ev2.len(), 0);

    // a size change is always a Modify
    let fp3 = fp.get_hash_with_size(FILE_SIZE_THRESHOLD + 11, Some(&content_b));
    let ev3 = node.poll(&dir("/r", vec![file("/r/big.bin", fp3)], vec![]));
    assert_eq!(ev3.len(), 1);
    assert_eq!(ev3[0].kind, WatchKind::Modify);
    assert_eq!(ev3[0].path, "/r/big.bin");
}

#[test]
fn mixed_changes_in_one_pass() {
    let base = dir(
        "/r",
        vec![file("/r/stay.txt", 1), file("/r/edit.txt", 2), file("/r/gone.txt", 3)],
        vec![],
    );
    let mut node = WatchNode::new(&base);
    assert_eq!(node.poll(&base).len(), 0);

    let live = dir(
        "/r",
        vec![file("/r/stay.txt", 1), file("/r/edit.txt", 20), file("/r/new.txt", 4)],
        vec![],
    );
    let mut ev = node.poll(&live);
    ev.sort_by(|a, b| a.path.cmp(&b.path));
    assert_eq!(ev.len(), 3);
    assert_eq!(ev[0].kind, WatchKind::Modify);
    assert_eq!(ev[0].path, "/r/edit.txt");
    assert_eq!(ev[1].kind, WatchKind::Remove);
    assert_eq!(ev[1].path, "/r/gone.txt");
    assert_eq!(ev[2].kind, WatchKind::Create);
    assert_eq!(ev[2].path, "/r/new.txt");
}

#[test]
fn directory_replaced_by_file_reports_both_sides() {
    let base = dir("/r", vec![], vec![dir("/r/x", vec![file("/r/x/in.txt", 1)], vec![])]);
    let mut node = WatchNode::new(&base);
    assert_eq!(node.poll(&base).len(), 0);

    // the directory gives way to a plain file of the same name
    let live = dir("/r", vec![file("/r/x", 9)], vec![]);
    let mut ev = node.poll(&live);
    ev.sort_by(|a, b| format!("{:?}", a.kind).cmp(&format!("{:?}", b.kind)));
    assert_eq!(ev.len(), 2);
    assert_eq!(ev[0].kind, WatchKind::Create);
    assert_eq!(ev[0].path, "/r/x");
    assert_eq!(ev[1].kind, WatchKind::Remove);
    assert_eq!(ev[1].path, "/r/x");
}

#[test]
fn nested_changes_surface_through_parents() {
    let base = dir(
        "/r",
        vec![],
        vec![dir(
            "/r/a",
            vec![],
            vec![dir("/r/a/b", vec![file("/r/a/b/deep.txt", 5)], vec![])],
        )],
    );
    let mut node = WatchNode::new(&base);
    assert_eq!(node.poll(&base).len(), 0);

    let live = dir(
        "/r",
        vec![],
        vec![dir(
            "/r/a",
            vec![],
            vec![dir("/r/a/b", vec![file("/r/a/b/deep.txt", 6)], vec![])],
        )],
    );
    let ev = node.poll(&live);
    assert_eq!(ev.len(), 1);
    assert_eq!(ev[0].kind, WatchKind::Modify);
    assert_eq!(ev[0].path, "/r/a/b/deep.txt");
}
