use densky::filter::is_valid_filename;

#[test]
fn rejects_editor_backup_suffix() {
    assert!(!is_valid_filename("/proj/foo.txt~"));
    assert!(!is_valid_filename("foo~"));
    assert!(!is_valid_filename("~"));
}

#[test]
fn rejects_editor_swap_sentinel() {
    assert!(!is_valid_filename("/proj/4913"));
    assert!(!is_valid_filename("4913"));
}

#[test]
fn sentinel_must_be_whole_final_component() {
    assert!(is_valid_filename("/proj/49131"));
    assert!(is_valid_filename("/proj/a4913"));
    assert!(is_valid_filename("/4913/later.ts"));
}

#[test]
fn rejects_output_directory_component() {
    assert!(!is_valid_filename("/proj/.densky"));
    assert!(!is_valid_filename("/proj/.densky/out.ts"));
    assert!(!is_valid_filename("/a/.densky/b/c.ts"));
    assert!(!is_valid_filename(".densky"));
}

#[test]
fn output_name_must_be_whole_component() {
    assert!(is_valid_filename("/proj/x.densky"));
    assert!(is_valid_filename("/proj/.densky2/file.ts"));
}

#[test]
fn accepts_ordinary_paths() {
    assert!(is_valid_filename("/proj/src/routes/index.ts"));
    assert!(is_valid_filename("/proj/src/views/home.html"));
    assert!(is_valid_filename(""));
    assert!(is_valid_filename("/"));
}
