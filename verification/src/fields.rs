//! Field extraction: turning the attributes of an event or a span into one
//! canonical record.

use vstd::prelude::*;
use crate::ansi::{strip_ansi, strip_ansi_codes_from_string};
use crate::text::{opt_text, texts};
use crate::value::{display_text, FieldMap, FieldValue, JsonValue};

verus! {

/// One exception of an error's cause chain, as the backend reports it.
#[derive(Debug)]
pub struct ExceptionRecord {
    /// The type name of the error.
    pub ty: String,
    /// The message of the error.
    pub value: Option<String>,
    /// The module in which it was raised.
    pub module: Option<String>,
    /// The stack captured with it.
    pub stacktrace: Option<sentry_core::protocol::Stacktrace>,
}

/// What an exception record holds.
pub struct ExceptionView {
    pub ty: Seq<char>,
    pub value: Option<Seq<char>>,
    pub module: Option<Seq<char>>,
    pub stacktrace: Option<sentry_core::protocol::Stacktrace>,
}

impl View for ExceptionRecord {
    type V = ExceptionView;

    open spec fn view(&self) -> ExceptionView {
        ExceptionView {
            ty: self.ty@,
            value: opt_text(self.value),
            module: opt_text(self.module),
            stacktrace: self.stacktrace,
        }
    }
}

/// The views of a list of exception records, in order.
pub open spec fn exception_views(records: Seq<ExceptionRecord>) -> Seq<ExceptionView> {
    Seq::new(records.len(), |i: int| records[i]@)
}

/// The value of one attribute, by its declared kind.
#[derive(Debug)]
pub enum AttributeValue {
    Int(i64),
    UInt(u64),
    Bool(bool),
    Str(String),
    /// An error, decomposed into the exception records of its cause chain.
    Error(Vec<ExceptionRecord>),
    /// A value without a structured form, already formatted for display.
    Debug(String),
}

/// What an attribute value holds.
pub enum AttributeValueView {
    Int(i64),
    UInt(u64),
    Bool(bool),
    Str(Seq<char>),
    Error(Seq<ExceptionView>),
    Debug(Seq<char>),
}

impl View for AttributeValue {
    type V = AttributeValueView;

    open spec fn view(&self) -> AttributeValueView {
        match self {
            AttributeValue::Int(n) => AttributeValueView::Int(*n),
            AttributeValue::UInt(n) => AttributeValueView::UInt(*n),
            AttributeValue::Bool(b) => AttributeValueView::Bool(*b),
            AttributeValue::Str(s) => AttributeValueView::Str(s@),
            AttributeValue::Error(records) => AttributeValueView::Error(exception_views(records@)),
            AttributeValue::Debug(s) => AttributeValueView::Debug(s@),
        }
    }
}

/// A named attribute of an event or a span.
#[derive(Debug)]
pub struct Attribute {
    pub name: String,
    pub value: AttributeValue,
}

/// What an attribute holds.
pub struct AttributeView {
    pub name: Seq<char>,
    pub value: AttributeValueView,
}

impl View for Attribute {
    type V = AttributeView;

    open spec fn view(&self) -> AttributeView {
        AttributeView { name: self.name@, value: self.value@ }
    }
}

/// The views of a list of attributes, in order.
pub open spec fn attribute_views(attributes: Seq<Attribute>) -> Seq<AttributeView> {
    Seq::new(attributes.len(), |i: int| attributes[i]@)
}

/// Configures how event and span data is recorded from attributes.
#[derive(Clone, Copy, Debug)]
pub struct FieldVisitorConfig<'a> {
    /// If set to true, ANSI escape sequences are stripped from string
    /// values and from formatted debug values.
    pub strip_ansi_escapes: bool,
    /// If `Some`, the value of an attribute with this name becomes the
    /// record's headline label and is kept out of the structured data.
    pub event_type_field: Option<&'a str>,
}

/// What a configuration holds.
pub struct ConfigView {
    pub strip_ansi_escapes: bool,
    pub event_type_field: Option<Seq<char>>,
}

impl<'a> View for FieldVisitorConfig<'a> {
    type V = ConfigView;

    open spec fn view(&self) -> ConfigView {
        ConfigView {
            strip_ansi_escapes: self.strip_ansi_escapes,
            event_type_field: match self.event_type_field {
                Some(key) => Some(key@),
                None => None,
            },
        }
    }
}

/// The canonical record extracted from a set of attributes.
#[derive(Debug)]
pub struct FieldRecord {
    /// One `name=value` line per stored attribute, in visiting order.
    pub display_log: Vec<String>,
    /// The stored attributes by name.
    pub structured: FieldMap,
    /// The display form of the promoted attribute.
    pub promoted_label: Option<String>,
    /// The category that a `log.target` attribute asks for.
    pub category_override: Option<String>,
    /// The exception records of the error attributes, in visiting order.
    pub extracted_errors: Vec<ExceptionRecord>,
}

/// What a field record holds.
pub struct FieldRecordView {
    pub display_log: Seq<Seq<char>>,
    pub structured: Map<Seq<char>, JsonValue>,
    pub promoted_label: Option<Seq<char>>,
    pub category_override: Option<Seq<char>>,
    pub extracted_errors: Seq<ExceptionView>,
}

impl View for FieldRecord {
    type V = FieldRecordView;

    open spec fn view(&self) -> FieldRecordView {
        FieldRecordView {
            display_log: texts(self.display_log@),
            structured: self.structured@,
            promoted_label: opt_text(self.promoted_label),
            category_override: opt_text(self.category_override),
            extracted_errors: exception_views(self.extracted_errors@),
        }
    }
}

/// The record before any attribute was visited.
pub open spec fn empty_record() -> FieldRecordView {
    FieldRecordView {
        display_log: Seq::empty(),
        structured: Map::empty(),
        promoted_label: None,
        category_override: None,
        extracted_errors: Seq::empty(),
    }
}

/// The attribute name is the configured promote key.
pub open spec fn is_promoted(config: ConfigView, name: Seq<char>) -> bool {
    config.event_type_field == Some(name)
}

/// The text that is stored for a string or debug value.
pub open spec fn stored_text(config: ConfigView, text: Seq<char>) -> Seq<char> {
    if config.strip_ansi_escapes {
        strip_ansi(text)
    } else {
        text
    }
}

/// The line that the display log gets for a stored attribute.
pub open spec fn display_line(name: Seq<char>, value: JsonValue) -> Seq<char> {
    name + "="@ + display_text(value)
}

/// The record after a value was stored under `name`.
pub open spec fn record_stored(
    record: FieldRecordView,
    name: Seq<char>,
    value: JsonValue,
) -> FieldRecordView {
    FieldRecordView {
        display_log: record.display_log.push(display_line(name, value)),
        structured: record.structured.insert(name, value),
        ..record
    }
}

/// The record after an integer, boolean or text value was visited: the
/// promoted attribute becomes the label and nothing else, any other is
/// stored.
pub open spec fn record_value(
    record: FieldRecordView,
    config: ConfigView,
    name: Seq<char>,
    value: JsonValue,
) -> FieldRecordView {
    if is_promoted(config, name) {
        FieldRecordView { promoted_label: Some(display_text(value)), ..record }
    } else {
        record_stored(record, name, value)
    }
}

/// The record after a string or debug value was visited. A stored
/// `log.target` also sets the category override.
pub open spec fn record_text(
    record: FieldRecordView,
    config: ConfigView,
    name: Seq<char>,
    text: Seq<char>,
) -> FieldRecordView {
    let stored = stored_text(config, text);
    let after = record_value(record, config, name, JsonValue::Text(stored));
    if !is_promoted(config, name) && name == "log.target"@ {
        FieldRecordView { category_override: Some(stored), ..after }
    } else {
        after
    }
}

/// The record after the exception records of an error were visited.
pub open spec fn record_errors(
    record: FieldRecordView,
    errors: Seq<ExceptionView>,
) -> FieldRecordView {
    FieldRecordView { extracted_errors: record.extracted_errors + errors, ..record }
}

/// The record after one attribute was visited.
pub open spec fn record_attribute(
    record: FieldRecordView,
    config: ConfigView,
    attribute: AttributeView,
) -> FieldRecordView {
    match attribute.value {
        AttributeValueView::Int(n) => record_value(
            record,
            config,
            attribute.name,
            JsonValue::Number(n as int),
        ),
        AttributeValueView::UInt(n) => record_value(
            record,
            config,
            attribute.name,
            JsonValue::Number(n as int),
        ),
        AttributeValueView::Bool(b) => record_value(
            record,
            config,
            attribute.name,
            JsonValue::Bool(b),
        ),
        AttributeValueView::Str(s) => record_text(record, config, attribute.name, s),
        AttributeValueView::Debug(s) => record_text(record, config, attribute.name, s),
        AttributeValueView::Error(errors) => record_errors(record, errors),
    }
}

/// The record after a list of attributes was visited in order.
pub open spec fn record_all(
    record: FieldRecordView,
    config: ConfigView,
    attributes: Seq<AttributeView>,
) -> FieldRecordView
    decreases attributes.len(),
{
    if attributes.len() == 0 {
        record
    } else {
        record_attribute(
            record_all(record, config, attributes.drop_last()),
            config,
            attributes.last(),
        )
    }
}

/// The record extracted from a set of attributes.
pub open spec fn extracted(config: ConfigView, attributes: Seq<AttributeView>) -> FieldRecordView {
    record_all(empty_record(), config, attributes)
}

fn name_is_promoted(config: &FieldVisitorConfig, name: &String) -> (promoted: bool)
    ensures
        promoted == is_promoted(config@, name@),
{
    match config.event_type_field {
        Some(key) => {
            let key = key.to_owned();
            key == *name
        },
        None => false,
    }
}

impl FieldRecord {
    /// A record that holds nothing.
    pub fn new() -> (record: FieldRecord)
        ensures
            record@ == empty_record(),
    {
        let record = FieldRecord {
            display_log: Vec::new(),
            structured: FieldMap::new(),
            promoted_label: None,
            category_override: None,
            extracted_errors: Vec::new(),
        };
        assert(record@.display_log =~= Seq::empty());
        assert(record@.extracted_errors =~= Seq::empty());
        record
    }

    /// Stores a value under the attribute's name and logs its display line.
    pub fn record_json_value(&mut self, name: String, value: FieldValue)
        ensures
            final(self)@ == record_stored(old(self)@, name@, value@),
    {
        let mut line = name.clone();
        line.append("=");
        let shown = value.to_text();
        line.append(shown.as_str());
        self.display_log.push(line);
        self.structured.insert(name, value);
        assert(self@.display_log =~= old(self)@.display_log.push(display_line(name@, value@)));
        assert(self@.extracted_errors =~= old(self)@.extracted_errors);
    }

    /// Tries to record the attribute as the promoted label. Returns true if
    /// the value became the label and false if the record is unchanged.
    pub fn try_record_event_type(
        &mut self,
        config: &FieldVisitorConfig,
        name: &String,
        value: &FieldValue,
    ) -> (promoted: bool)
        ensures
            promoted == is_promoted(config@, name@),
            promoted ==> final(self)@ == (FieldRecordView {
                promoted_label: Some(display_text(value@)),
                ..old(self)@
            }),
            !promoted ==> final(self)@ == old(self)@,
    {
        if name_is_promoted(config, name) {
            self.promoted_label = Some(value.to_text());
            true
        } else {
            false
        }
    }

    fn record_typed(&mut self, config: &FieldVisitorConfig, name: String, value: FieldValue)
        ensures
            final(self)@ == record_value(old(self)@, config@, name@, value@),
    {
        if !self.try_record_event_type(config, &name, &value) {
            self.record_json_value(name, value);
        }
    }

    /// Visits a signed integer value.
    pub fn record_i64(&mut self, config: &FieldVisitorConfig, name: String, value: i64)
        ensures
            final(self)@ == record_value(
                old(self)@,
                config@,
                name@,
                JsonValue::Number(value as int),
            ),
    {
        self.record_typed(config, name, FieldValue::Int(value));
    }

    /// Visits an unsigned integer value.
    pub fn record_u64(&mut self, config: &FieldVisitorConfig, name: String, value: u64)
        ensures
            final(self)@ == record_value(
                old(self)@,
                config@,
                name@,
                JsonValue::Number(value as int),
            ),
    {
        self.record_typed(config, name, FieldValue::UInt(value));
    }

    /// Visits a boolean value.
    pub fn record_bool(&mut self, config: &FieldVisitorConfig, name: String, value: bool)
        ensures
            final(self)@ == record_value(old(self)@, config@, name@, JsonValue::Bool(value)),
    {
        self.record_typed(config, name, FieldValue::Bool(value));
    }

    /// Visits a string value.
    pub fn record_str(&mut self, config: &FieldVisitorConfig, name: String, value: &str)
        ensures
            final(self)@ == record_text(old(self)@, config@, name@, value@),
    {
        let stored = if config.strip_ansi_escapes {
            strip_ansi_codes_from_string(value)
        } else {
            value.to_owned()
        };
        let target = String::from_str("log.target");
        if name == target && !name_is_promoted(config, &name) {
            self.category_override = Some(stored.clone());
        }
        self.record_typed(config, name, FieldValue::Str(stored));
    }

    /// Visits a value that was formatted for display because it has no
    /// structured form. It is handled as a string value is.
    pub fn record_debug(&mut self, config: &FieldVisitorConfig, name: String, formatted: String)
        ensures
            final(self)@ == record_text(old(self)@, config@, name@, formatted@),
    {
        self.record_str(config, name, formatted.as_str());
    }

    /// Visits an error value, given as the exception records of its cause
    /// chain.
    pub fn record_error(&mut self, errors: Vec<ExceptionRecord>)
        ensures
            final(self)@ == record_errors(old(self)@, exception_views(errors@)),
    {
        let mut rest = errors;
        self.extracted_errors.append(&mut rest);
        assert(self@.extracted_errors =~= old(self)@.extracted_errors + exception_views(
            errors@,
        ));
        assert(self@.display_log =~= old(self)@.display_log);
    }

    /// Visits one attribute, whatever its kind.
    pub fn record(&mut self, config: &FieldVisitorConfig, attribute: Attribute)
        ensures
            final(self)@ == record_attribute(old(self)@, config@, attribute@),
    {
        let Attribute { name, value } = attribute;
        match value {
            AttributeValue::Int(n) => self.record_i64(config, name, n),
            AttributeValue::UInt(n) => self.record_u64(config, name, n),
            AttributeValue::Bool(b) => self.record_bool(config, name, b),
            AttributeValue::Str(s) => self.record_str(config, name, s.as_str()),
            AttributeValue::Debug(s) => self.record_debug(config, name, s),
            AttributeValue::Error(errors) => self.record_error(errors),
        }
    }
}

/// Extracts one record from a set of attributes, visiting each attribute
/// once and in order.
pub fn extract_fields(
    attributes: Vec<Attribute>,
    config: FieldVisitorConfig,
) -> (record: FieldRecord)
    ensures
        record@ == extracted(config@, attribute_views(attributes@)),
{
    let mut record = FieldRecord::new();
    let ghost all = attribute_views(attributes@);
    for attribute in it: attributes
        invariant
            it.seq() == attributes@,
            all == attribute_views(attributes@),
            record@ == record_all(empty_record(), config@, all.take(it.index() as int)),
    {
        proof {
            let next = all.take(it.index() + 1);
            assert(next.drop_last() =~= all.take(it.index() as int));
            assert(next.last() == attribute@);
        }
        record.record(&config, attribute);
    }
    proof {
        assert(all.take(all.len() as int) =~= all);
    }
    record
}

} // verus!
