use filedrop::auth::CredentialGate;
use filedrop::service::RequestError;
use filedrop::storage::StorageModel;
use filedrop::upload::{ingest, ingest_authorized, UploadField};

fn named(name: &str, data: &[u8]) -> UploadField {
    UploadField { file_name: Some(name.to_string()), data: data.to_vec() }
}

fn unnamed(data: &[u8]) -> UploadField {
    UploadField { file_name: None, data: data.to_vec() }
}

#[test]
fn unnamed_field_creates_nothing_and_reports_nothing() {
    let mut s = StorageModel::new();
    let fields = vec![unnamed(b"metadata"), named("kept.txt", b"k")];
    let r = ingest(&mut s, &fields).unwrap();
    assert_eq!(r, vec!["kept.txt".to_string()]);
    assert_eq!(s.list_names(), vec!["kept.txt".to_string()]);
}

#[test]
fn traversal_name_is_rejected_and_nothing_is_written() {
    let mut s = StorageModel::new();
    let fields = vec![named("../secret", b"payload")];
    assert_eq!(ingest(&mut s, &fields), Err(RequestError::InvalidName));
    assert!(s.list_names().is_empty());
    assert_eq!(s.get("../secret"), None);
    assert_eq!(s.get("secret"), None);
}

#[test]
fn first_invalid_field_aborts_the_rest() {
    let mut s = StorageModel::new();
    let fields = vec![named("w.txt", b"w"), named("../x", b"x"), named("y.txt", b"y")];
    assert_eq!(ingest(&mut s, &fields), Err(RequestError::InvalidName));
    // the field before the invalid one stays written; the one after is never written
    assert_eq!(s.get("w.txt"), Some(&b"w".to_vec()));
    assert_eq!(s.get("y.txt"), None);
}

#[test]
fn success_reports_stored_names_in_arrival_order() {
    let mut s = StorageModel::new();
    let fields = vec![named("x", b"1"), unnamed(b"skip"), named("y", b"2")];
    let r = ingest(&mut s, &fields).unwrap();
    assert_eq!(r, vec!["x".to_string(), "y".to_string()]);
    assert_eq!(s.get("x"), Some(&b"1".to_vec()));
    assert_eq!(s.get("y"), Some(&b"2".to_vec()));
}

#[test]
fn reupload_in_one_request_keeps_the_last_payload() {
    let mut s = StorageModel::new();
    let fields = vec![named("f", b"first"), named("f", b"second")];
    let r = ingest(&mut s, &fields).unwrap();
    assert_eq!(r.len(), 2);
    assert_eq!(s.get("f"), Some(&b"second".to_vec()));
}

#[test]
fn upload_with_wrong_credential_is_unauthorized_and_writes_nothing() {
    let gate = CredentialGate::new(vec!["secret".to_string()]);
    let mut s = StorageModel::new();
    let fields = vec![named("a.txt", b"a")];
    let r = ingest_authorized(&gate, "wrong", &mut s, &fields);
    assert_eq!(r, Err(RequestError::Unauthorized));
    assert!(s.list_names().is_empty());
}

#[test]
fn upload_with_valid_credential_succeeds() {
    let gate = CredentialGate::new(vec!["secret".to_string()]);
    let mut s = StorageModel::new();
    let fields = vec![named("report.pdf", b"pdf bytes")];
    let r = ingest_authorized(&gate, "secret", &mut s, &fields).unwrap();
    assert_eq!(r, vec!["report.pdf".to_string()]);
    assert_eq!(s.get("report.pdf"), Some(&b"pdf bytes".to_vec()));
}
