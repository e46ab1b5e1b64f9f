use docworks::json::{to_json_text, JsonNumber, JsonValue};
use docworks::skills::runner::{build_output, count_of, output_value, OutputValue};

fn s(v: &str) -> JsonValue {
    JsonValue::Str(v.to_string())
}

fn n(v: u64) -> JsonValue {
    JsonValue::Number(JsonNumber::PosInt(v))
}

fn obj(fields: Vec<(&str, JsonValue)>) -> JsonValue {
    JsonValue::Object(fields.into_iter().map(|(k, v)| (k.to_string(), v)).collect())
}

fn params(fields: Vec<(&str, JsonValue)>) -> Vec<(String, JsonValue)> {
    fields.into_iter().map(|(k, v)| (k.to_string(), v)).collect()
}

fn text_of(o: &OutputValue) -> String {
    match o {
        OutputValue::Value(v) => to_json_text(v),
        OutputValue::Param(v) => to_json_text(v),
        OutputValue::Subtotal => "subtotal".to_string(),
        OutputValue::TaxAmount => "tax_amount".to_string(),
        OutputValue::Total => "total".to_string(),
    }
}

fn table() -> JsonValue {
    JsonValue::Array(vec![
        JsonValue::Array(vec![s("Region"), s("Q1"), s("Q2")]),
        JsonValue::Array(vec![s("North"), n(1), n(2)]),
        JsonValue::Array(vec![s("South"), n(3), n(4)]),
    ])
}

#[test]
fn test_counts_of_table_data() {
    let p = params(vec![("data", table())]);
    assert_eq!(count_of(&p, "rows_written"), Some(3));
    assert_eq!(count_of(&p, "columns"), Some(3));
    assert_eq!(count_of(&p, "series_count"), Some(2));
    assert_eq!(count_of(&p, "line_item_count"), Some(0));
    assert_eq!(count_of(&p, "file_path"), None);
}

#[test]
fn test_series_count_of_empty_data_is_zero() {
    let p = params(vec![("data", JsonValue::Array(vec![]))]);
    assert_eq!(count_of(&p, "series_count"), Some(0));
    assert_eq!(count_of(&p, "columns"), Some(0));
}

#[test]
fn test_word_count_prefers_markdown_text() {
    let p = params(vec![("template_text", s("one two")), ("markdown_text", s("  alpha beta\tgamma\n delta "))]);
    assert_eq!(count_of(&p, "word_count"), Some(4));
    let q = params(vec![("template_text", s("one two three"))]);
    assert_eq!(count_of(&q, "word_count_estimate"), Some(3));
    let r = params(vec![("markdown_text", n(5))]);
    assert_eq!(count_of(&r, "word_count"), Some(0));
}

#[test]
fn test_money_outputs_are_left_to_the_caller() {
    let p = params(vec![]);
    assert!(matches!(output_value(&p, "subtotal"), OutputValue::Subtotal));
    assert!(matches!(output_value(&p, "tax_amount"), OutputValue::TaxAmount));
    assert!(matches!(output_value(&p, "total"), OutputValue::Total));
}

#[test]
fn test_fixed_and_default_outputs() {
    let p = params(vec![]);
    assert_eq!(text_of(&output_value(&p, "file_path")), "\"generated_file\"");
    assert_eq!(text_of(&output_value(&p, "chart_type")), "\"generated_file\"");
    assert_eq!(text_of(&output_value(&p, "row_fields")), "[]");
    assert_eq!(text_of(&output_value(&p, "aggregate")), "\"sum\"");
    assert_eq!(text_of(&output_value(&p, "headings")), "[]");
    assert_eq!(text_of(&output_value(&p, "something_else")), "null");
}

#[test]
fn test_outputs_taken_from_params() {
    let p = params(vec![("aggregate", s("avg")), ("value_fields", JsonValue::Array(vec![s("Q1")]))]);
    assert!(matches!(output_value(&p, "aggregate"), OutputValue::Param(_)));
    assert_eq!(text_of(&output_value(&p, "aggregate")), "\"avg\"");
    assert_eq!(text_of(&output_value(&p, "value_fields")), "[\"Q1\"]");
}

#[test]
fn test_slide_types_skip_untyped_slides() {
    let slides = JsonValue::Array(vec![
        obj(vec![("type", s("title"))]),
        obj(vec![("heading", s("no type"))]),
        obj(vec![("type", n(3))]),
        obj(vec![("type", s("bullets"))]),
    ]);
    let p = params(vec![("slides", slides)]);
    assert_eq!(text_of(&output_value(&p, "slide_types")), "[\"title\",\"bullets\"]");
    assert_eq!(count_of(&p, "slide_count"), Some(4));
}

#[test]
fn test_themes_applied() {
    let dark = params(vec![("theme", s("dark"))]);
    assert_eq!(
        text_of(&output_value(&dark, "themes_applied")),
        "{\"background\":\"#1E1E1E\",\"text\":\"#CCCCCC\",\"theme\":\"dark\"}"
    );
    let none = params(vec![]);
    assert_eq!(
        text_of(&output_value(&none, "themes_applied")),
        "{\"background\":\"#FFFFFF\",\"text\":\"#333333\",\"theme\":\"light\"}"
    );
}

#[test]
fn test_build_output_keeps_the_listed_order() {
    let p = params(vec![("data", table())]);
    let outputs = vec!["file_path".to_string(), "rows_written".to_string(), "total".to_string()];
    let r = build_output(&p, &outputs);
    assert_eq!(r.len(), 3);
    assert_eq!(r[0].0, "file_path");
    assert_eq!(r[1].0, "rows_written");
    assert_eq!(text_of(&r[1].1), "3");
    assert!(matches!(r[2].1, OutputValue::Total));
}
