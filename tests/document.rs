use prover_pool::document::{
    extract_postal_code, first_valid_atcud, is_atcud_shaped, is_valid_atcud, run_on_text,
    validate, Config, Country, Scope,
};

const INVOICE: &str = "Fatura FT 2024/17\nRua das Flores 12, 1000-001 Lisboa\nATCUD: JJ4TZ3PM-17\nTotal 12,30";

#[test]
fn invoice_passes() {
    assert!(validate(INVOICE.to_string()));
    assert!(run_on_text(
        INVOICE.to_string(),
        Config { scope: Scope::Country, country: Country::Portugal }
    ));
}

#[test]
fn missing_postal_code_fails() {
    assert!(!validate("ATCUD: JJ4TZ3PM-17".to_string()));
}

#[test]
fn missing_atcud_fails() {
    assert!(!validate("Rua das Flores 12, 1000-001 Lisboa".to_string()));
    assert!(!validate(String::new()));
}

#[test]
fn postal_code_is_first_match() {
    assert_eq!(
        extract_postal_code("1000-001 and 4000-322"),
        Some("1000-001".to_string())
    );
    assert_eq!(extract_postal_code("11000-0011"), None);
    assert_eq!(extract_postal_code("no code"), None);
}

#[test]
fn atcud_is_found() {
    assert_eq!(
        is_valid_atcud("x ABCD1234-5 y"),
        Some("ABCD1234-5".to_string())
    );
    assert_eq!(is_valid_atcud("abcd1234-5"), None);
    assert_eq!(is_valid_atcud("ABCD123-5"), None);
}

#[test]
fn atcud_with_non_ascii_digits_is_skipped() {
    // the pattern's \d accepts any decimal digit; the sequence must be ASCII
    assert_eq!(is_valid_atcud("ABCD1234-\u{0661}\u{0662}"), None);
    assert_eq!(
        is_valid_atcud("ABCD1234-\u{0661} then QWERTY12-9"),
        Some("QWERTY12-9".to_string())
    );
}

#[test]
fn atcud_shape() {
    assert!(is_atcud_shaped("ABCD1234-5"));
    assert!(is_atcud_shaped("ABCD1234-0123"));
    assert!(!is_atcud_shaped("ABCD1234-"));
    assert!(!is_atcud_shaped("ABCD1234-5-6"));
    assert!(!is_atcud_shaped("ABCD12345"));
    assert!(!is_atcud_shaped("ABC1234-5"));
    assert!(!is_atcud_shaped("ABCD1234-5a"));
    // eight bytes, not eight characters
    assert!(!is_atcud_shaped("ÁBCD1234-5"));
    assert!(is_atcud_shaped("ÁBCD123-5"));
}

#[test]
fn first_valid_candidate_wins() {
    let c = vec![
        "ABCD1234-x".to_string(),
        "ZZZZ9999-1".to_string(),
        "YYYY8888-2".to_string(),
    ];
    assert_eq!(first_valid_atcud(&c), Some("ZZZZ9999-1".to_string()));
    assert_eq!(first_valid_atcud(&vec![]), None);
}
