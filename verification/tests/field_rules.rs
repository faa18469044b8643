//! The per-field normalisation rules, on concrete values.

use nfse_convert::mapping::{format_competencia, format_numero_nota};
use nfse_convert::text::{is_decimal_str, str_eq};

#[test]
fn sequence_number_pads_short_values() {
    assert_eq!(format_numero_nota(Some("42".to_string())), "00000042".to_string());
}

#[test]
fn sequence_number_keeps_long_values() {
    assert_eq!(format_numero_nota(Some("123456789".to_string())), "123456789".to_string());
}

#[test]
fn sequence_number_defaults_when_absent() {
    assert_eq!(format_numero_nota(None), "00000000".to_string());
}

#[test]
fn sequence_number_exact_width_unchanged() {
    assert_eq!(format_numero_nota(Some("12345678".to_string())), "12345678".to_string());
}

#[test]
fn competencia_expands_compact_period() {
    assert_eq!(
        format_competencia(Some("202505Z".to_string())),
        "2025-05-01T00:00:00".to_string()
    );
}

#[test]
fn competencia_keeps_expanded_value() {
    assert_eq!(
        format_competencia(Some("2025-05-01T00:00:00".to_string())),
        "2025-05-01T00:00:00".to_string()
    );
}

#[test]
fn competencia_defaults_when_absent() {
    assert_eq!(format_competencia(None), "2025-01-01T00:00:00".to_string());
}

#[test]
fn competencia_keeps_non_matching_values() {
    assert_eq!(format_competencia(Some("202505".to_string())), "202505".to_string());
    assert_eq!(format_competencia(Some("20250AZ".to_string())), "20250AZ".to_string());
    assert_eq!(format_competencia(Some("2025051Z".to_string())), "2025051Z".to_string());
}

#[test]
fn decimal_recognition() {
    assert!(is_decimal_str("0.0"));
    assert!(is_decimal_str("123"));
    assert!(is_decimal_str("-123.45"));
    assert!(is_decimal_str("1500.00"));
    assert!(!is_decimal_str(""));
    assert!(!is_decimal_str("abc"));
    assert!(!is_decimal_str("1.2.3"));
    assert!(!is_decimal_str("1."));
    assert!(!is_decimal_str(".5"));
    assert!(!is_decimal_str("-"));
}

#[test]
fn string_equality_by_content() {
    assert!(str_eq("CompNfse", "CompNfse"));
    assert!(!str_eq("CompNfse", "compNfse"));
    assert!(!str_eq("a", "ab"));
    assert!(str_eq("", ""));
}
