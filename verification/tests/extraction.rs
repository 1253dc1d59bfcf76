use sentry_tracing::fields::{
    extract_fields, Attribute, AttributeValue, ExceptionRecord, FieldRecord, FieldVisitorConfig,
};
use sentry_tracing::value::FieldValue;

fn attribute(name: &str, value: AttributeValue) -> Attribute {
    Attribute { name: name.to_string(), value }
}

fn text(value: &str) -> AttributeValue {
    AttributeValue::Str(value.to_string())
}

fn plain() -> FieldVisitorConfig<'static> {
    FieldVisitorConfig { strip_ansi_escapes: false, event_type_field: None }
}

fn exception(ty: &str, message: &str) -> ExceptionRecord {
    ExceptionRecord {
        ty: ty.to_string(),
        value: Some(message.to_string()),
        module: None,
        stacktrace: None,
    }
}

#[test]
fn no_attributes_give_an_empty_record() {
    let record = extract_fields(vec![], plain());
    assert!(record.display_log.is_empty());
    assert_eq!(record.structured.len(), 0);
    assert!(record.promoted_label.is_none());
    assert!(record.category_override.is_none());
    assert!(record.extracted_errors.is_empty());
}

#[test]
fn typed_values_are_stored_and_logged_in_visiting_order() {
    let record = extract_fields(
        vec![
            attribute("count", AttributeValue::Int(-3)),
            attribute("size", AttributeValue::UInt(18446744073709551615)),
            attribute("ok", AttributeValue::Bool(true)),
            attribute("user", text("ada")),
            attribute("shape", AttributeValue::Debug("Point { x: 1 }".to_string())),
        ],
        plain(),
    );
    assert_eq!(
        record.display_log,
        vec![
            "count=-3",
            "size=18446744073709551615",
            "ok=true",
            "user=ada",
            "shape=Point { x: 1 }"
        ]
    );
    assert_eq!(record.structured.len(), 5);
    assert!(matches!(record.structured.get("count"), Some(FieldValue::Int(-3))));
    assert!(matches!(record.structured.get("size"), Some(FieldValue::UInt(u64::MAX))));
    assert!(matches!(record.structured.get("ok"), Some(FieldValue::Bool(true))));
    assert!(matches!(record.structured.get("user"), Some(FieldValue::Str(s)) if s == "ada"));
    assert!(
        matches!(record.structured.get("shape"), Some(FieldValue::Str(s)) if s == "Point { x: 1 }")
    );
    assert!(record.promoted_label.is_none());
    assert!(record.category_override.is_none());
    assert!(record.extracted_errors.is_empty());
}

#[test]
fn the_last_write_under_a_name_wins() {
    let record = extract_fields(
        vec![
            attribute("n", AttributeValue::Int(1)),
            attribute("n", AttributeValue::Int(2)),
        ],
        plain(),
    );
    assert_eq!(record.structured.len(), 1);
    assert!(matches!(record.structured.get("n"), Some(FieldValue::Int(2))));
    assert_eq!(record.display_log, vec!["n=1", "n=2"]);
}

#[test]
fn the_promoted_attribute_becomes_the_label_and_is_not_stored() {
    let config = FieldVisitorConfig { strip_ansi_escapes: false, event_type_field: Some("message") };
    let record = extract_fields(
        vec![
            attribute("message", text("disk full")),
            attribute("free", AttributeValue::UInt(0)),
        ],
        config,
    );
    assert_eq!(record.promoted_label.as_deref(), Some("disk full"));
    assert!(!record.structured.contains_key("message"));
    assert!(record.structured.contains_key("free"));
    assert_eq!(record.display_log, vec!["free=0"]);
}

#[test]
fn promotion_takes_the_display_form_of_any_typed_value() {
    let config = FieldVisitorConfig { strip_ansi_escapes: false, event_type_field: Some("code") };
    let number = extract_fields(vec![attribute("code", AttributeValue::Int(-404))], config);
    assert_eq!(number.promoted_label.as_deref(), Some("-404"));
    assert_eq!(number.structured.len(), 0);
    let unsigned = extract_fields(vec![attribute("code", AttributeValue::UInt(7))], config);
    assert_eq!(unsigned.promoted_label.as_deref(), Some("7"));
    let flag = extract_fields(vec![attribute("code", AttributeValue::Bool(false))], config);
    assert_eq!(flag.promoted_label.as_deref(), Some("false"));
    let debug =
        extract_fields(vec![attribute("code", AttributeValue::Debug("E(1)".to_string()))], config);
    assert_eq!(debug.promoted_label.as_deref(), Some("E(1)"));
    assert_eq!(debug.structured.len(), 0);
    assert!(debug.display_log.is_empty());
}

#[test]
fn the_promoted_key_is_never_stored_even_when_it_repeats() {
    let config = FieldVisitorConfig { strip_ansi_escapes: false, event_type_field: Some("kind") };
    let record = extract_fields(
        vec![
            attribute("kind", text("first")),
            attribute("a", AttributeValue::Int(1)),
            attribute("kind", AttributeValue::Int(2)),
        ],
        config,
    );
    assert!(!record.structured.contains_key("kind"));
    assert_eq!(record.promoted_label.as_deref(), Some("2"));
    assert_eq!(record.structured.len(), 1);
}

#[test]
fn log_target_overrides_the_category_and_is_still_stored() {
    let record = extract_fields(vec![attribute("log.target", text("db"))], plain());
    assert_eq!(record.category_override.as_deref(), Some("db"));
    assert!(matches!(record.structured.get("log.target"), Some(FieldValue::Str(s)) if s == "db"));
    assert_eq!(record.display_log, vec!["log.target=db"]);
}

#[test]
fn a_formatted_log_target_overrides_the_category_too() {
    let record = extract_fields(
        vec![attribute("log.target", AttributeValue::Debug("\"db\"".to_string()))],
        plain(),
    );
    assert_eq!(record.category_override.as_deref(), Some("\"db\""));
}

#[test]
fn a_log_target_that_is_no_string_does_not_override() {
    let record = extract_fields(vec![attribute("log.target", AttributeValue::Int(5))], plain());
    assert!(record.category_override.is_none());
    assert!(record.structured.contains_key("log.target"));
}

#[test]
fn a_promoted_log_target_feeds_the_label_only() {
    let config =
        FieldVisitorConfig { strip_ansi_escapes: false, event_type_field: Some("log.target") };
    let record = extract_fields(vec![attribute("log.target", text("db"))], config);
    assert_eq!(record.promoted_label.as_deref(), Some("db"));
    assert!(record.category_override.is_none());
    assert_eq!(record.structured.len(), 0);
}

#[test]
fn errors_are_extracted_and_not_stored() {
    let record = extract_fields(
        vec![
            attribute(
                "error",
                AttributeValue::Error(vec![
                    exception("Os", "no such file"),
                    exception("ConfigError", "cannot read config"),
                ]),
            ),
            attribute("path", text("/etc/app")),
            attribute("again", AttributeValue::Error(vec![exception("Timeout", "too slow")])),
        ],
        plain(),
    );
    assert_eq!(record.extracted_errors.len(), 3);
    assert_eq!(record.extracted_errors[0].ty, "Os");
    assert_eq!(record.extracted_errors[0].value.as_deref(), Some("no such file"));
    assert_eq!(record.extracted_errors[1].ty, "ConfigError");
    assert_eq!(record.extracted_errors[2].ty, "Timeout");
    assert!(!record.structured.contains_key("error"));
    assert!(!record.structured.contains_key("again"));
    assert_eq!(record.structured.len(), 1);
    assert_eq!(record.display_log, vec!["path=/etc/app"]);
}

#[test]
fn an_error_named_by_the_promote_key_is_still_an_error() {
    let config = FieldVisitorConfig { strip_ansi_escapes: false, event_type_field: Some("error") };
    let record = extract_fields(
        vec![attribute("error", AttributeValue::Error(vec![exception("Boom", "bang")]))],
        config,
    );
    assert!(record.promoted_label.is_none());
    assert_eq!(record.extracted_errors.len(), 1);
    assert!(!record.structured.contains_key("error"));
}

#[test]
fn escape_sequences_are_stripped_from_strings_and_debug_values() {
    let config = FieldVisitorConfig { strip_ansi_escapes: true, event_type_field: Some("message") };
    let record = extract_fields(
        vec![
            attribute("message", text("\x1b[31mred\x1b[0m alert")),
            attribute("user", text("\x1b[1mada\x1b[0m")),
            attribute("shape", AttributeValue::Debug("\x1b[32mSquare\x1b[m".to_string())),
            attribute("log.target", text("\x1b[34mdb\x1b[0m")),
        ],
        config,
    );
    assert_eq!(record.promoted_label.as_deref(), Some("red alert"));
    assert!(matches!(record.structured.get("user"), Some(FieldValue::Str(s)) if s == "ada"));
    assert!(matches!(record.structured.get("shape"), Some(FieldValue::Str(s)) if s == "Square"));
    assert_eq!(record.category_override.as_deref(), Some("db"));
    assert_eq!(record.display_log, vec!["user=ada", "shape=Square", "log.target=db"]);
}

#[test]
fn escape_sequences_are_kept_when_stripping_is_off() {
    let record = extract_fields(vec![attribute("user", text("\x1b[1mada\x1b[0m"))], plain());
    assert!(
        matches!(record.structured.get("user"), Some(FieldValue::Str(s)) if s == "\x1b[1mada\x1b[0m")
    );
}

#[test]
fn extracting_twice_gives_the_same_record() {
    let build = || {
        vec![
            attribute("a", AttributeValue::Int(1)),
            attribute("b", text("two")),
            attribute("c", AttributeValue::Bool(false)),
            attribute("e", AttributeValue::Error(vec![exception("E", "m")])),
            attribute("message", text("hello")),
        ]
    };
    let config = FieldVisitorConfig { strip_ansi_escapes: true, event_type_field: Some("message") };
    let first = extract_fields(build(), config);
    let second = extract_fields(build(), config);
    assert_eq!(first.display_log, second.display_log);
    assert_eq!(first.promoted_label, second.promoted_label);
    assert_eq!(first.category_override, second.category_override);
    assert_eq!(first.structured.len(), second.structured.len());
    for i in 0..first.structured.len() {
        assert_eq!(first.structured.entry(i).name, second.structured.entry(i).name);
        assert_eq!(
            first.structured.entry(i).value.to_text(),
            second.structured.entry(i).value.to_text()
        );
    }
    assert_eq!(first.extracted_errors.len(), second.extracted_errors.len());
    assert_eq!(first.extracted_errors[0].ty, second.extracted_errors[0].ty);
    assert_eq!(first.extracted_errors[0].value, second.extracted_errors[0].value);
}

#[test]
fn attributes_with_unique_names_are_all_kept() {
    let record = extract_fields(
        vec![
            attribute("a", AttributeValue::Int(1)),
            attribute("b", AttributeValue::Int(2)),
            attribute("c", AttributeValue::Int(3)),
        ],
        plain(),
    );
    assert_eq!(record.structured.len(), 3);
    assert!(matches!(record.structured.get("a"), Some(FieldValue::Int(1))));
    assert!(matches!(record.structured.get("b"), Some(FieldValue::Int(2))));
    assert!(matches!(record.structured.get("c"), Some(FieldValue::Int(3))));
}

#[test]
fn the_visiting_methods_build_the_record_step_by_step() {
    let config = FieldVisitorConfig { strip_ansi_escapes: false, event_type_field: Some("kind") };
    let mut record = FieldRecord::new();
    record.record_i64(&config, "delta".to_string(), -5);
    record.record_u64(&config, "total".to_string(), 5);
    record.record_bool(&config, "done".to_string(), true);
    record.record_str(&config, "kind".to_string(), "sync");
    record.record_debug(&config, "state".to_string(), "Idle".to_string());
    record.record_error(vec![exception("E", "failed")]);
    record.record(&config, attribute("log.target", text("jobs")));
    assert_eq!(record.promoted_label.as_deref(), Some("sync"));
    assert_eq!(record.category_override.as_deref(), Some("jobs"));
    assert_eq!(record.extracted_errors.len(), 1);
    assert_eq!(
        record.display_log,
        vec!["delta=-5", "total=5", "done=true", "state=Idle", "log.target=jobs"]
    );
    assert_eq!(record.structured.len(), 5);
}

#[test]
fn trying_to_promote_reports_whether_the_name_matched() {
    let config = FieldVisitorConfig { strip_ansi_escapes: false, event_type_field: Some("kind") };
    let mut record = FieldRecord::new();
    assert!(!record.try_record_event_type(&config, &"other".to_string(), &FieldValue::Int(1)));
    assert!(record.promoted_label.is_none());
    assert!(record.try_record_event_type(&config, &"kind".to_string(), &FieldValue::Int(1)));
    assert_eq!(record.promoted_label.as_deref(), Some("1"));
    assert!(!record.try_record_event_type(&plain(), &"kind".to_string(), &FieldValue::Int(2)));
    assert_eq!(record.promoted_label.as_deref(), Some("1"));
}
