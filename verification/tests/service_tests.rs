use filedrop::auth::CredentialGate;
use filedrop::service::{list, make_url, retrieve, RequestError};
use filedrop::storage::StorageModel;

fn gate() -> CredentialGate {
    CredentialGate::new(vec!["secret".to_string()])
}

#[test]
fn list_with_wrong_credential_is_unauthorized_and_names_nothing() {
    let mut s = StorageModel::new();
    s.store("a.txt", vec![1u8]);
    s.store("b.txt", vec![2u8]);
    let r = list(&gate(), "wrong", &s);
    // the refusal carries no stored names at all
    assert_eq!(r, Err(RequestError::Unauthorized));
}

#[test]
fn list_with_correct_credential_names_exactly_the_stored_files() {
    let mut s = StorageModel::new();
    s.store("a.txt", vec![1u8]);
    s.store("b.txt", vec![2u8]);
    let mut names = list(&gate(), "secret", &s).unwrap();
    names.sort();
    assert_eq!(names, vec!["a.txt".to_string(), "b.txt".to_string()]);
}

#[test]
fn uploaded_file_is_retrievable_with_exact_bytes() {
    let mut s = StorageModel::new();
    let bytes = b"%PDF-1.4 example".to_vec();
    s.store("report.pdf", bytes.clone());
    assert_eq!(retrieve(&s, "report.pdf"), Some(&bytes));
}

#[test]
fn retrieve_absent_file_is_none() {
    let s = StorageModel::new();
    assert_eq!(retrieve(&s, "report.pdf"), None);
}

#[test]
fn retrieve_refuses_traversal_names() {
    let mut s = StorageModel::new();
    s.store("safe.txt", vec![1u8]);
    assert_eq!(retrieve(&s, "../safe.txt"), None);
    assert_eq!(retrieve(&s, ".."), None);
    assert_eq!(retrieve(&s, "a/safe.txt"), None);
}

#[test]
fn make_url_joins_origin_and_name() {
    let url = make_url("http://localhost:3000", "report.pdf");
    assert_eq!(url, "http://localhost:3000/report.pdf");
}

#[test]
fn error_status_codes() {
    assert_eq!(RequestError::Unauthorized.status_code(), 401);
    assert_eq!(RequestError::InvalidName.status_code(), 400);
}
