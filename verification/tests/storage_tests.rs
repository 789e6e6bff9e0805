use filedrop::storage::StorageModel;

#[test]
fn store_then_get_returns_exact_bytes() {
    let mut s = StorageModel::new();
    let bytes = vec![1u8, 2, 3, 4, 5];
    s.store("report.pdf", bytes.clone());
    assert_eq!(s.get("report.pdf"), Some(&bytes));
}

#[test]
fn get_absent_is_none() {
    let mut s = StorageModel::new();
    assert_eq!(s.get("report.pdf"), None);
    s.store("other.txt", vec![9u8]);
    assert_eq!(s.get("report.pdf"), None);
}

#[test]
fn reupload_overwrites_previous_content() {
    let mut s = StorageModel::new();
    s.store("notes.txt", vec![1u8, 1, 1]);
    s.store("notes.txt", vec![2u8, 2]);
    assert_eq!(s.get("notes.txt"), Some(&vec![2u8, 2]));
    let names = s.list_names();
    assert_eq!(names.len(), 1);
}

#[test]
fn list_names_is_exactly_the_stored_set() {
    let mut s = StorageModel::new();
    s.store("a.txt", vec![1u8]);
    s.store("b.txt", vec![2u8]);
    let mut names = s.list_names();
    names.sort();
    assert_eq!(names, vec!["a.txt".to_string(), "b.txt".to_string()]);
}

#[test]
fn empty_storage_lists_nothing() {
    let s = StorageModel::new();
    assert!(s.list_names().is_empty());
}
