//! Parsing and matching media types.

use http_streams_core::{
    ArrowRecordBatchIpcStreamFormat, ContentType, CsvStreamFormat, JsonArrayStreamFormat,
    JsonNewLineStreamFormat, ProtobufStreamFormat, StreamFormat, TextStreamFormat,
};

#[test]
fn strips_parameters_and_whitespace() {
    assert_eq!(
        ContentType::parse("application/json").essence(),
        "application/json"
    );
    assert_eq!(
        ContentType::parse("application/json; charset=utf-8").essence(),
        "application/json"
    );
    assert_eq!(
        ContentType::parse("application/json;charset=utf-8").essence(),
        "application/json"
    );
    assert_eq!(ContentType::parse("  text/csv  ").essence(), "text/csv");
}

#[test]
fn matching_ignores_case() {
    assert!(ContentType::parse("APPLICATION/JSON").matches("application/json"));
    assert!(ContentType::parse("application/json").matches("Application/Json"));
    assert!(!ContentType::parse("text/json").matches("application/json"));
}

#[test]
fn matches_any_of_a_set() {
    let ct = ContentType::parse("application/x-ndjson");
    assert!(ct.matches_any(&["application/jsonstream", "application/x-ndjson"]));
    assert!(!ct.matches_any(&["application/json", "text/csv"]));
}

#[test]
fn structured_suffix() {
    assert!(ContentType::parse("application/cloudevents+json").has_suffix("json"));
    assert!(ContentType::parse("application/vnd.foo+JSON").has_suffix("json"));
    assert!(!ContentType::parse("application/json").has_suffix("json"));
    assert!(!ContentType::parse("text/csv").has_suffix("json"));
}

#[test]
fn nonsense_matches_nothing() {
    let ct = ContentType::parse("");
    assert_eq!(ct.essence(), "");
    assert_eq!(ct.subtype(), "");
    assert!(!ct.matches("application/json"));
    assert!(!ct.has_suffix("json"));
}

#[test]
fn only_the_first_slash_and_the_last_plus_count() {
    let ct = ContentType::parse("application/a/b+c+JSON ; q=1; x=/y+z");
    assert_eq!(ct.essence(), "application/a/b+c+JSON");
    assert_eq!(ct.subtype(), "a/b+c+JSON");
    assert!(ct.has_suffix("json"));
    assert!(!ct.has_suffix("c+json"));
}

#[test]
fn unicode_whitespace_is_trimmed_and_other_letters_keep_their_case() {
    let ct = ContentType::parse("\u{3000}\u{2003}text/\u{c9}\u{a0}\u{85}\t;x");
    assert_eq!(ct.essence(), "text/\u{c9}");
    assert!(ct.matches("TEXT/\u{c9}"));
    assert!(!ct.matches("text/\u{e9}"));
    // A zero-width space is no whitespace.
    assert_eq!(ContentType::parse("\u{200b}a").essence(), "\u{200b}a");
}

#[test]
fn parameters_and_surrounding_whitespace_make_no_difference() {
    let plain = ContentType::parse("text/csv");
    assert_eq!(ContentType::parse(" \ttext/csv \n; header=present"), plain);
    assert!(!plain.matches_any(&[]));
}

#[test]
fn a_format_accepts_what_it_emits() {
    fn own<F: StreamFormat>(format: F) -> bool {
        format.accepts_content_type(&ContentType::parse(format.default_content_type()))
    }
    assert!(own(JsonArrayStreamFormat::new()));
    assert!(own(JsonNewLineStreamFormat::new()));
    assert!(own(CsvStreamFormat::default()));
    assert!(own(ProtobufStreamFormat::new()));
    assert!(own(ArrowRecordBatchIpcStreamFormat::for_decoding()));
    assert!(own(TextStreamFormat::new()));
}
