use sentry_tracing::ansi::{strip_ansi_codes_from_string, text_with_fallback};
use sentry_tracing::outside::short_span_id;
use sentry_tracing::text::{bool_to_text, i64_to_text, join_with_space, u64_to_text};
use sentry_tracing::value::{FieldMap, FieldValue};

#[test]
fn unsigned_integers_are_written_in_decimal() {
    assert_eq!(u64_to_text(0), "0");
    assert_eq!(u64_to_text(7), "7");
    assert_eq!(u64_to_text(10), "10");
    assert_eq!(u64_to_text(12345), "12345");
    assert_eq!(u64_to_text(u64::MAX), "18446744073709551615");
}

#[test]
fn signed_integers_are_written_in_decimal() {
    assert_eq!(i64_to_text(0), "0");
    assert_eq!(i64_to_text(42), "42");
    assert_eq!(i64_to_text(-1), "-1");
    assert_eq!(i64_to_text(-907), "-907");
    assert_eq!(i64_to_text(i64::MAX), "9223372036854775807");
    assert_eq!(i64_to_text(i64::MIN), "-9223372036854775808");
}

#[test]
fn decimal_text_agrees_with_the_standard_formatter() {
    for n in [0u64, 1, 9, 10, 99, 100, 1_000_000, u64::MAX - 1] {
        assert_eq!(u64_to_text(n), format!("{}", n));
    }
    for n in [-100i64, -10, -9, 5, 1_000] {
        assert_eq!(i64_to_text(n), format!("{}", n));
    }
}

#[test]
fn booleans_are_written_as_words() {
    assert_eq!(bool_to_text(true), "true");
    assert_eq!(bool_to_text(false), "false");
}

#[test]
fn parts_are_joined_with_single_spaces() {
    assert_eq!(join_with_space(&vec![]), "");
    assert_eq!(join_with_space(&vec!["a=1".to_string()]), "a=1");
    assert_eq!(
        join_with_space(&vec!["a=1".to_string(), "b=x".to_string(), "c=true".to_string()]),
        "a=1 b=x c=true"
    );
}

#[test]
fn escape_sequences_are_stripped() {
    assert_eq!(strip_ansi_codes_from_string("\x1b[32mfoo\x1b[m bar"), "foo bar");
    assert_eq!(
        strip_ansi_codes_from_string("\x1b[1m\x1b[31merror\x1b[0m: failed"),
        "error: failed"
    );
}

#[test]
fn text_without_escape_sequences_is_kept() {
    assert_eq!(strip_ansi_codes_from_string("plain text"), "plain text");
    assert_eq!(strip_ansi_codes_from_string(""), "");
    assert_eq!(strip_ansi_codes_from_string("h\u{e9}llo w\u{f6}rld"), "h\u{e9}llo w\u{f6}rld");
}

#[test]
fn failed_stripping_keeps_the_text_as_it_was() {
    assert_eq!(text_with_fallback("kept", None), "kept");
    assert_eq!(text_with_fallback("kept", Some(vec![0xff, 0xfe])), "kept");
    assert_eq!(text_with_fallback("dropped", Some(b"clean".to_vec())), "clean");
}

#[test]
fn short_span_id_is_the_first_half_of_the_hex_form() {
    assert_eq!(
        short_span_id(0x0123456789abcdef_fedcba9876543210),
        "0123456789abcdef"
    );
    assert_eq!(short_span_id(0), "0000000000000000");
    assert_eq!(short_span_id(1), "0000000000000000");
    assert_eq!(short_span_id(u128::MAX), "ffffffffffffffff");
    assert_eq!(short_span_id(0xab << 120), "ab00000000000000");
}

#[test]
fn short_span_id_agrees_with_the_identifier_type() {
    let id: u128 = 0x9f8e7d6c5b4a39281726354453627180;
    let full = sentry_core::types::Uuid::from_u128(id).to_simple_ref().to_string();
    assert_eq!(short_span_id(id), full[..16]);
}

#[test]
fn a_map_keeps_the_last_value_written_under_a_name() {
    let mut map = FieldMap::new();
    assert_eq!(map.len(), 0);
    assert!(!map.contains_key("a"));
    map.insert("a".to_string(), FieldValue::Int(1));
    map.insert("b".to_string(), FieldValue::Bool(true));
    map.insert("a".to_string(), FieldValue::Str("two".to_string()));
    assert_eq!(map.len(), 2);
    assert!(map.contains_key("a"));
    assert!(map.contains_key("b"));
    assert!(!map.contains_key("c"));
    assert!(matches!(map.get("a"), Some(FieldValue::Str(s)) if s == "two"));
    assert!(matches!(map.get("b"), Some(FieldValue::Bool(true))));
    assert!(map.get("c").is_none());
    assert_eq!(map.entries()[0].name, "a");
    assert_eq!(map.entries()[1].name, "b");
    assert_eq!(map.entry(1).name, "b");
}

#[test]
fn a_copied_map_holds_the_same_entries() {
    let mut map = FieldMap::new();
    map.insert("n".to_string(), FieldValue::UInt(9));
    map.insert("s".to_string(), FieldValue::Str("x".to_string()));
    let copy = map.duplicate();
    assert_eq!(copy.len(), 2);
    assert!(matches!(copy.get("n"), Some(FieldValue::UInt(9))));
    assert!(matches!(copy.get("s"), Some(FieldValue::Str(s)) if s == "x"));
}

#[test]
fn values_have_a_display_form() {
    assert_eq!(FieldValue::Int(-3).to_text(), "-3");
    assert_eq!(FieldValue::UInt(3).to_text(), "3");
    assert_eq!(FieldValue::Bool(false).to_text(), "false");
    assert_eq!(FieldValue::Str("db".to_string()).to_text(), "db");
}
