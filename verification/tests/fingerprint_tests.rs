use densky::fingerprint::{Fingerprint, FILE_SIZE_THRESHOLD};

#[test]
fn large_files_fingerprint_by_size_alone() {
    let fp = Fingerprint::new(29384);
    let a = String::from("first content");
    let b = String::from("other content");
    // equal sizes, different content: indistinguishable
    assert_eq!(
        fp.get_hash_with_size(FILE_SIZE_THRESHOLD, Some(&a)),
        fp.get_hash_with_size(FILE_SIZE_THRESHOLD, Some(&b))
    );
    assert_eq!(fp.get_hash_with_size(FILE_SIZE_THRESHOLD + 5, None), FILE_SIZE_THRESHOLD + 5);
    // a size change is always visible
    assert_ne!(
        fp.get_hash_with_size(FILE_SIZE_THRESHOLD, Some(&a)),
        fp.get_hash_with_size(FILE_SIZE_THRESHOLD + 1, Some(&a))
    );
}

#[test]
fn unreadable_small_files_get_the_sentinel() {
    let fp = Fingerprint::new(29384);
    assert_eq!(fp.get_hash_with_size(100, None), 0);
    assert_eq!(fp.get_hash_with_size(0, None), 0);
    // two unreadable files never falsely differ
    assert_eq!(fp.get_hash_with_size(3, None), fp.get_hash_with_size(9, None));
}

#[test]
fn small_files_hash_with_the_configured_seed() {
    let fp = Fingerprint::new(29384);
    let content = String::from("export default 1;\n");
    let got = fp.get_hash_with_size(18, Some(&content));
    let want = ahash::RandomState::with_seed(29384).hash_one(content.as_str());
    assert_eq!(got, want);
}

#[test]
fn fingerprints_are_stable_within_one_run() {
    let fp = Fingerprint::new(7);
    let content = String::from("same bytes");
    assert_eq!(
        fp.get_hash_with_size(10, Some(&content)),
        fp.get_hash_with_size(10, Some(&content))
    );
}

#[test]
fn of_parts_combines_exactly() {
    assert_eq!(Fingerprint::of_parts(5, Some(42)), 42);
    assert_eq!(Fingerprint::of_parts(5, None), 0);
    assert_eq!(Fingerprint::of_parts(FILE_SIZE_THRESHOLD, Some(42)), FILE_SIZE_THRESHOLD);
    assert_eq!(Fingerprint::of_parts(FILE_SIZE_THRESHOLD, None), FILE_SIZE_THRESHOLD);
}
