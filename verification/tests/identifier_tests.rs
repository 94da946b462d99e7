use credential_store::identifier::validate;

fn valid_id(fill: &str) -> String {
    assert_eq!(fill.len(), 1);
    format!("P{}", fill.repeat(64))
}

#[test]
fn accepts_canonical_identifier() {
    let text = valid_id("a");
    let id = validate(&text).expect("canonical identifier must validate");
    assert_eq!(id.as_text(), text.as_str());
}

#[test]
fn accepts_all_hex_digits() {
    let text = format!("P{}", "0123456789abcdef".repeat(4));
    let id = validate(&text).expect("hex digest must validate");
    assert_eq!(id.as_text(), text.as_str());
}

#[test]
fn rejects_empty_string() {
    let err = validate("").expect_err("empty string is malformed");
    assert_eq!(err.raw, "");
}

#[test]
fn rejects_wrong_prefix() {
    let text = format!("Q{}", "a".repeat(64));
    let err = validate(&text).expect_err("wrong prefix is malformed");
    assert_eq!(err.raw, text);
}

#[test]
fn rejects_wrong_length() {
    let short = format!("P{}", "a".repeat(63));
    assert!(validate(&short).is_err());
    let long = format!("P{}", "a".repeat(65));
    assert!(validate(&long).is_err());
}

#[test]
fn rejects_uppercase_digest() {
    let text = format!("P{}", "A".repeat(64));
    assert!(validate(&text).is_err());
}

#[test]
fn rejects_non_hex_character() {
    let text = format!("P{}g", "a".repeat(63));
    let err = validate(&text).expect_err("non-hex digit is malformed");
    assert_eq!(err.raw, text);
}

#[test]
fn identifiers_compare_by_text() {
    let a = validate(&valid_id("a")).unwrap();
    let b = validate(&valid_id("a")).unwrap();
    let c = validate(&valid_id("b")).unwrap();
    assert!(a.equals(&b));
    assert!(!a.equals(&c));
}
