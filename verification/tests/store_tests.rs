use credential_store::identifier::validate;
use credential_store::record::build;
use credential_store::source::CredentialPayload;
use credential_store::store::CredentialStateStore;
use credential_store::store::StoreError;

fn valid_id(fill: &str) -> String {
    format!("P{}", fill.repeat(64))
}

fn record(name: &str, payload: &str) -> credential_store::record::CredentialRecord {
    let issuer = validate(&valid_id("1")).unwrap();
    let subject = validate(&valid_id("2")).unwrap();
    build(
        name.to_string(),
        issuer,
        subject,
        CredentialPayload::from_text(payload.to_string()),
        "default".to_string(),
    )
}

#[test]
fn create_then_get_round_trips_every_field() {
    let mut st = CredentialStateStore::new();
    let r = record("alpha", "blob");
    st.create(r.clone()).expect("fresh name must be accepted");
    let got = st.get("alpha").expect("stored name must be found");
    assert_eq!(got.name(), r.name());
    assert_eq!(got.issuer().as_text(), r.issuer().as_text());
    assert_eq!(got.subject().as_text(), r.subject().as_text());
    assert_eq!(got.payload().as_text(), r.payload().as_text());
    assert_eq!(got.vault(), r.vault());
}

#[test]
fn create_never_overwrites() {
    let mut st = CredentialStateStore::new();
    st.create(record("alpha", "first")).unwrap();
    let second = st.create(record("alpha", "second"));
    assert!(matches!(second, Err(StoreError::AlreadyExists)));
    let got = st.get("alpha").unwrap();
    assert_eq!(got.payload().as_text(), "first");
    assert_eq!(st.list(), vec!["alpha".to_string()]);
}

#[test]
fn get_of_unknown_name_is_not_found() {
    let st = CredentialStateStore::new();
    assert!(matches!(st.get("missing"), Err(StoreError::NotFound)));
    assert!(!st.contains("missing"));
}

#[test]
fn list_keeps_creation_order() {
    let mut st = CredentialStateStore::new();
    st.create(record("c", "1")).unwrap();
    st.create(record("a", "2")).unwrap();
    st.create(record("b", "3")).unwrap();
    assert_eq!(st.list(), vec!["c".to_string(), "a".to_string(), "b".to_string()]);
    assert!(st.contains("a"));
}

#[test]
fn self_issued_records_are_permitted() {
    let mut st = CredentialStateStore::new();
    let id = validate(&valid_id("7")).unwrap();
    let r = build(
        "selfie".to_string(),
        id.clone(),
        id,
        CredentialPayload::from_text(String::new()),
        "v".to_string(),
    );
    st.create(r).unwrap();
    let got = st.get("selfie").unwrap();
    assert_eq!(got.issuer().as_text(), got.subject().as_text());
    assert_eq!(got.payload().as_text(), "");
}
