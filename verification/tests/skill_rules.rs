use docworks::json::{to_json_text, JsonNumber, JsonValue};
use docworks::skill::types::{ValidationRule, ValidationRuleType};
use docworks::skill::validator::{evaluate_custom_rule, evaluate_rule, validate_skill_inputs};

fn rule(name: &str, rule_type: ValidationRuleType, field: &str) -> ValidationRule {
    ValidationRule {
        name: name.to_string(),
        rule_type,
        field: field.to_string(),
        message: format!("{} failed", name),
        pattern: None,
        values: None,
        depends_on: None,
    }
}

fn s(v: &str) -> JsonValue {
    JsonValue::Str(v.to_string())
}

fn n(v: u64) -> JsonValue {
    JsonValue::Number(JsonNumber::PosInt(v))
}

fn obj(fields: Vec<(&str, JsonValue)>) -> JsonValue {
    JsonValue::Object(fields.into_iter().map(|(k, v)| (k.to_string(), v)).collect())
}

fn params(fields: Vec<(&str, JsonValue)>) -> Vec<(String, JsonValue)> {
    fields.into_iter().map(|(k, v)| (k.to_string(), v)).collect()
}

#[test]
fn assert_rule_needs_a_non_empty_value() {
    let r = rule("title_present", ValidationRuleType::Assert, "title");
    assert!(evaluate_rule(&r, &params(vec![("title", s("Q3"))])).passed);
    let res = evaluate_rule(&r, &params(vec![("title", s(""))]));
    assert!(!res.passed);
    assert_eq!(res.message, "title_present failed");
    assert!(!evaluate_rule(&r, &params(vec![("title", JsonValue::Null)])).passed);
    assert_eq!(evaluate_rule(&r, &params(vec![("title", n(0))])).message, "title_present: ok");
}

#[test]
fn regex_rule_and_invalid_pattern() {
    let mut r = rule("email", ValidationRuleType::Regex, "to");
    r.pattern = Some("^[a-z]+@[a-z]+$".to_string());
    assert!(evaluate_rule(&r, &params(vec![("to", s("ann@example"))])).passed);
    assert!(!evaluate_rule(&r, &params(vec![("to", s("Ann"))])).passed);
    r.pattern = Some("(".to_string());
    let res = evaluate_rule(&r, &params(vec![("to", s("x"))]));
    assert!(!res.passed);
    assert!(res.message.starts_with("Invalid regex pattern '(': "));
}

#[test]
fn enum_rule_message_lists_valid_values() {
    let mut r = rule("theme", ValidationRuleType::Enum, "theme");
    r.values = Some(vec!["light".to_string(), "dark".to_string()]);
    assert!(evaluate_rule(&r, &params(vec![("theme", s("dark"))])).passed);
    let res = evaluate_rule(&r, &params(vec![("theme", s("blue"))]));
    assert!(!res.passed);
    assert_eq!(res.message, "theme failed: \"blue\". Valid values: [light, dark]");
    let res = evaluate_rule(&r, &params(vec![]));
    assert_eq!(res.message, "theme failed: . Valid values: [light, dark]");
}

#[test]
fn json_text_is_compact() {
    let v = obj(vec![("a", JsonValue::Array(vec![n(1), JsonValue::Bool(true), JsonValue::Null])), ("b", s("x\"\n"))]);
    assert_eq!(to_json_text(&v), "{\"a\":[1,true,null],\"b\":\"x\\\"\\n\"}");
    assert_eq!(to_json_text(&JsonValue::Number(JsonNumber::NegInt(-7))), "-7");
}

#[test]
fn custom_chart_and_header_rules() {
    let pie = rule("chart_type_for_pie", ValidationRuleType::Custom, "chart_type");
    let table = JsonValue::Array(vec![JsonValue::Array(vec![s("Region"), s("Sales")]), JsonValue::Array(vec![s("N"), n(3)])]);
    assert!(evaluate_custom_rule(&pie, &params(vec![("chart_type", s("pie")), ("data", table)])));
    assert!(evaluate_custom_rule(&pie, &params(vec![("chart_type", s("bar"))])));
    let wide = JsonValue::Array(vec![JsonValue::Array(vec![s("a"), s("b"), s("c")])]);
    assert!(!evaluate_custom_rule(&pie, &params(vec![("chart_type", s("pie")), ("data", wide)])));

    let rows = rule("rows_exist_in_headers", ValidationRuleType::Custom, "rows");
    let data = JsonValue::Array(vec![JsonValue::Array(vec![s("Region"), s("Sales")])]);
    let p = params(vec![("rows", JsonValue::Array(vec![s("Region")])), ("data", data)]);
    assert!(evaluate_custom_rule(&rows, &p));
    let values = rule("values_exist_in_headers", ValidationRuleType::Custom, "rows");
    let data = JsonValue::Array(vec![JsonValue::Array(vec![s("Region")])]);
    assert!(evaluate_custom_rule(&values, &params(vec![("rows", JsonValue::Array(vec![])), ("data", data)])));
}

#[test]
fn custom_document_rules() {
    let slides = rule("slide_types_valid", ValidationRuleType::Custom, "slides");
    let ok = JsonValue::Array(vec![obj(vec![("type", s("title"))]), obj(vec![("type", s("thank_you"))])]);
    assert!(evaluate_custom_rule(&slides, &params(vec![("slides", ok)])));
    let bad = JsonValue::Array(vec![obj(vec![("type", s("video"))])]);
    assert!(!evaluate_custom_rule(&slides, &params(vec![("slides", bad)])));

    let titled = rule("slides_have_title", ValidationRuleType::Custom, "slides");
    assert!(!evaluate_custom_rule(&titled, &params(vec![("slides", JsonValue::Array(vec![]))])));

    let positive = rule("line_items_positive", ValidationRuleType::Custom, "line_items");
    let item = |q: JsonValue| obj(vec![("quantity", q), ("unit_price", n(5))]);
    assert!(evaluate_custom_rule(&positive, &params(vec![("line_items", JsonValue::Array(vec![item(n(2))]))])));
    assert!(!evaluate_custom_rule(&positive, &params(vec![("line_items", JsonValue::Array(vec![item(n(0))]))])));

    let tax = rule("tax_rate_range", ValidationRuleType::Custom, "tax_rate");
    let rate = JsonValue::Number(JsonNumber::Float { text: "0.2".to_string(), positive: true, unit: true, fraction: true, whole: false });
    assert!(evaluate_custom_rule(&tax, &params(vec![("tax_rate", rate)])));
    assert!(!evaluate_custom_rule(&tax, &params(vec![("tax_rate", n(2))])));
    assert!(evaluate_custom_rule(&tax, &params(vec![])));

    let md = rule("markdown_has_content", ValidationRuleType::Custom, "markdown_text");
    assert!(evaluate_custom_rule(&md, &params(vec![("markdown_text", s("# Title"))])));
    assert!(!evaluate_custom_rule(&md, &params(vec![("markdown_text", s("plain"))])));

    let cols = rule("data_consistent_cols", ValidationRuleType::Custom, "data");
    let ragged = JsonValue::Array(vec![JsonValue::Array(vec![n(1), n(2)]), JsonValue::Array(vec![n(1)])]);
    assert!(!evaluate_custom_rule(&cols, &params(vec![("data", ragged)])));
    assert!(evaluate_custom_rule(&cols, &params(vec![("data", JsonValue::Array(vec![]))])));

    let unknown = rule("anything_else", ValidationRuleType::Custom, "x");
    assert!(evaluate_custom_rule(&unknown, &params(vec![])));
}

#[test]
fn skill_inputs_pass_only_when_every_rule_does() {
    let rules = vec![
        rule("title_present", ValidationRuleType::Assert, "title"),
        rule("data_min_rows", ValidationRuleType::Custom, "data"),
    ];
    let p = params(vec![("title", s("T")), ("data", JsonValue::Array(vec![n(1)]))]);
    let res = validate_skill_inputs("excel.chart", &rules, &p);
    assert_eq!(res.skill_name, "excel.chart");
    assert!(!res.passed);
    assert!(res.rule_results[0].passed);
    assert!(!res.rule_results[1].passed);
    assert_eq!(res.rule_results[1].message, "data_min_rows failed");
}
