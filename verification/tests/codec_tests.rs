use credential_store::codec::decode;
use credential_store::codec::encode;
use credential_store::identifier::validate;
use credential_store::record::build;
use credential_store::source::CredentialPayload;
use credential_store::store::StoreError;

fn valid_id(fill: &str) -> String {
    format!("P{}", fill.repeat(64))
}

fn record(name: &str, payload: &str, vault: &str) -> credential_store::record::CredentialRecord {
    let issuer = validate(&valid_id("1")).unwrap();
    let subject = validate(&valid_id("2")).unwrap();
    build(
        name.to_string(),
        issuer,
        subject,
        CredentialPayload::from_text(payload.to_string()),
        vault.to_string(),
    )
}

#[test]
fn encoding_round_trips_every_field() {
    let r = record("alpha", "some signed blob\nwith a second line", "default");
    let text = encode(&r);
    let back = decode(&text).expect("the encoding of a record must decode");
    assert_eq!(back.name(), r.name());
    assert_eq!(back.issuer().as_text(), r.issuer().as_text());
    assert_eq!(back.subject().as_text(), r.subject().as_text());
    assert_eq!(back.payload().as_text(), r.payload().as_text());
    assert_eq!(back.vault(), r.vault());
}

#[test]
fn encoding_is_the_length_prefixed_text() {
    let r = record("n", "blob", "v");
    let text = encode(&r);
    let expected = format!("1:n65:{}65:{}4:blob1:v", valid_id("1"), valid_id("2"));
    assert_eq!(text, expected);
}

#[test]
fn empty_payload_round_trips() {
    let r = record("bare", "", "default");
    let back = decode(&encode(&r)).unwrap();
    assert_eq!(back.payload().as_text(), "");
}

#[test]
fn decode_rejects_garbage() {
    for text in ["", "abc", "5:n", "1n:rest", "::::", "3:abc"] {
        match decode(text) {
            Err(StoreError::Io(_)) => {}
            other => panic!("garbage must be rejected, got {:?}", other.map(|r| r.name().to_string())),
        }
    }
}

#[test]
fn decode_rejects_truncations() {
    let full = encode(&record("alpha", "payload", "vault"));
    for cut in 0..full.len() {
        assert!(
            decode(&full[..cut]).is_err(),
            "a torn prefix of length {cut} must be rejected"
        );
    }
}

#[test]
fn decode_rejects_trailing_text() {
    let mut text = encode(&record("alpha", "payload", "vault"));
    text.push_str("x");
    assert!(decode(&text).is_err());
}

#[test]
fn decode_rejects_tampered_identifier() {
    let r = record("alpha", "payload", "vault");
    let text = encode(&r).replace(&valid_id("1"), &format!("Q{}", "1".repeat(64)));
    assert!(decode(&text).is_err());
}
