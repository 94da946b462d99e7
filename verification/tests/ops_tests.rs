use credential_store::name_gen::generate_name;
use credential_store::ops::store;
use credential_store::ops::Error;
use credential_store::source::resolve_source;
use credential_store::source::CredentialSource;
use credential_store::source::SourceError;
use credential_store::store::CredentialStateStore;
use credential_store::store::StoreError;

fn valid_id(fill: &str) -> String {
    format!("P{}", fill.repeat(64))
}

#[test]
fn resolve_picks_the_literal() {
    let r = resolve_source(Some("blob".to_string()), None);
    match r {
        Ok(CredentialSource::Literal(text)) => assert_eq!(text, "blob"),
        _ => panic!("literal alone must resolve to the literal"),
    }
}

#[test]
fn resolve_picks_the_file_path() {
    let r = resolve_source(None, Some("/tmp/cred".to_string()));
    match r {
        Ok(CredentialSource::FilePath(path)) => assert_eq!(path, "/tmp/cred"),
        _ => panic!("path alone must resolve to the file reference"),
    }
}

#[test]
fn resolve_rejects_both_sources() {
    let r = resolve_source(Some("x".to_string()), Some("/tmp/y".to_string()));
    assert!(matches!(r, Err(SourceError::AmbiguousSource)));
}

#[test]
fn resolve_rejects_no_source() {
    let r = resolve_source(None, None);
    assert!(matches!(r, Err(SourceError::MissingSource)));
}

#[test]
fn generated_names_are_the_entropy_in_hex() {
    assert_eq!(generate_name(0), "0000000000000000");
    assert_eq!(generate_name(0x0123456789abcdef), "0123456789abcdef");
    assert_eq!(generate_name(u64::MAX), "ffffffffffffffff");
}

#[test]
fn distinct_entropy_gives_distinct_names() {
    assert_ne!(generate_name(1), generate_name(2));
    assert_ne!(generate_name(0), generate_name(u64::MAX));
}

#[test]
fn store_without_name_generates_one_and_uses_default_vault() {
    let mut st = CredentialStateStore::new();
    let name = store(
        &mut st,
        None,
        0xfeed,
        &valid_id("1"),
        &valid_id("2"),
        Some("blob".to_string()),
        None,
        None,
    )
    .expect("a fresh record must be stored");
    assert_eq!(name, "000000000000feed");
    let got = st.get(&name).unwrap();
    assert_eq!(got.payload().as_text(), "blob");
    assert_eq!(got.vault(), "default");
    assert_eq!(got.issuer().as_text(), valid_id("1"));
    assert_eq!(got.subject().as_text(), valid_id("2"));
}

#[test]
fn store_with_both_sources_fails_before_any_mutation() {
    let mut st = CredentialStateStore::new();
    let r = store(
        &mut st,
        None,
        1,
        &valid_id("1"),
        &valid_id("2"),
        Some("x".to_string()),
        Some("contents of /tmp/y".to_string()),
        None,
    );
    assert!(matches!(r, Err(Error::Source(SourceError::AmbiguousSource))));
    assert!(st.list().is_empty());
}

#[test]
fn store_with_no_source_fails_before_any_mutation() {
    let mut st = CredentialStateStore::new();
    let r = store(&mut st, None, 1, &valid_id("1"), &valid_id("2"), None, None, None);
    assert!(matches!(r, Err(Error::Source(SourceError::MissingSource))));
    assert!(st.list().is_empty());
}

#[test]
fn store_duplicate_name_fails_and_keeps_the_first_record() {
    let mut st = CredentialStateStore::new();
    let first = store(
        &mut st,
        Some("dup".to_string()),
        1,
        &valid_id("1"),
        &valid_id("2"),
        Some("first".to_string()),
        None,
        None,
    );
    assert_eq!(first.unwrap(), "dup");
    let second = store(
        &mut st,
        Some("dup".to_string()),
        2,
        &valid_id("3"),
        &valid_id("4"),
        Some("second".to_string()),
        None,
        None,
    );
    assert!(matches!(second, Err(Error::Store(StoreError::AlreadyExists))));
    assert_eq!(st.list(), vec!["dup".to_string()]);
    assert_eq!(st.get("dup").unwrap().payload().as_text(), "first");
}

#[test]
fn store_rejects_invalid_issuer() {
    let mut st = CredentialStateStore::new();
    let r = store(
        &mut st,
        None,
        1,
        "I1",
        &valid_id("2"),
        Some("blob".to_string()),
        None,
        None,
    );
    match r {
        Err(Error::InvalidIssuer(e)) => assert_eq!(e.raw, "I1"),
        _ => panic!("malformed issuer must be reported as such"),
    }
    assert!(st.list().is_empty());
}

#[test]
fn store_rejects_invalid_subject() {
    let mut st = CredentialStateStore::new();
    let r = store(
        &mut st,
        None,
        1,
        &valid_id("1"),
        "S1",
        Some("blob".to_string()),
        None,
        None,
    );
    match r {
        Err(Error::InvalidSubject(e)) => assert_eq!(e.raw, "S1"),
        _ => panic!("malformed subject must be reported as such"),
    }
    assert!(st.list().is_empty());
}

#[test]
fn store_takes_the_payload_from_the_file_text() {
    let mut st = CredentialStateStore::new();
    let name = store(
        &mut st,
        Some("from-file".to_string()),
        1,
        &valid_id("1"),
        &valid_id("2"),
        None,
        Some("full file contents".to_string()),
        Some("my-vault".to_string()),
    )
    .unwrap();
    let got = st.get(&name).unwrap();
    assert_eq!(got.payload().as_text(), "full file contents");
    assert_eq!(got.vault(), "my-vault");
}
