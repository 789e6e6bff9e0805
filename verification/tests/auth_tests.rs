use filedrop::auth::CredentialGate;

fn gate() -> CredentialGate {
    CredentialGate::new(vec!["alpha".to_string(), "beta".to_string()])
}

#[test]
fn accepts_member_credentials() {
    let g = gate();
    assert!(g.is_authorized("alpha"));
    assert!(g.is_authorized("beta"));
}

#[test]
fn rejects_unknown_credential() {
    let g = gate();
    assert!(!g.is_authorized("gamma"));
    assert!(!g.is_authorized(""));
    assert!(!g.is_authorized("alph"));
    assert!(!g.is_authorized("alphaa"));
}

#[test]
fn empty_set_rejects_everything() {
    let g = CredentialGate::new(Vec::new());
    assert!(!g.is_authorized(""));
    assert!(!g.is_authorized("alpha"));
}
