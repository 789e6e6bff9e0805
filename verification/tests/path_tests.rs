use filedrop::path_check::path_is_valid;

#[test]
fn rejects_names_with_separators() {
    assert!(!path_is_valid("a/b"));
    assert!(!path_is_valid("/"));
    assert!(!path_is_valid("///"));
    assert!(!path_is_valid("a/"));
    assert!(!path_is_valid("/etc/passwd"));
    assert!(!path_is_valid("../secret"));
}

#[test]
fn rejects_parent_dir_marker() {
    assert!(!path_is_valid(".."));
}

#[test]
fn rejects_cur_dir_marker() {
    assert!(!path_is_valid("."));
}

#[test]
fn rejects_empty_name() {
    assert!(!path_is_valid(""));
}

#[test]
fn accepts_plain_names() {
    assert!(path_is_valid("report.pdf"));
    assert!(path_is_valid("x"));
    assert!(path_is_valid("..hidden"));
    assert!(path_is_valid("..."));
    assert!(path_is_valid("a b"));
    assert!(path_is_valid("zażółć.txt"));
}
