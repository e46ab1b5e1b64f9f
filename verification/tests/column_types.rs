use docworks::json::{JsonNumber, JsonValue};
use docworks::readers::excel::{can_infer_column_types, infer_column_types};

fn s(v: &str) -> JsonValue {
    JsonValue::Str(v.to_string())
}

fn n(v: u64) -> JsonValue {
    JsonValue::Number(JsonNumber::PosInt(v))
}

#[test]
fn test_infers_each_kind_of_column() {
    let rows = vec![
        vec![s("$1,200"), s("45%"), s("2024-01-15"), s("yes"), s("1,234.5"), s("abc")],
        vec![s("$300"), s("10%"), s("2023-12-31"), s("No"), n(17), s("def")],
        vec![s(" $5 "), s("3%"), s(" 2022-02-02 "), s("TRUE"), n(3), s("ghi")],
        vec![s("$7.50"), s("100%"), s("2021-11-30"), JsonValue::Bool(false), s("-4"), s("jkl")],
        vec![s("$1"), s("0%"), s("2020-01-01"), s("no"), s("5e3"), n(9)],
    ];
    assert_eq!(infer_column_types(&rows), vec!["currency", "pct", "date", "boolean", "number", "string"]);
}

#[test]
fn test_four_in_five_is_enough() {
    let rows = vec![vec![s("$1")], vec![s("$2")], vec![s("$3")], vec![s("$4")], vec![s("x")]];
    assert_eq!(infer_column_types(&rows), vec!["currency"]);
    let rows = vec![vec![s("$1")], vec![s("$2")], vec![s("$3")], vec![s("y")], vec![s("x")]];
    assert_eq!(infer_column_types(&rows), vec!["string"]);
}

#[test]
fn test_width_follows_the_widest_row_and_blanks_are_skipped() {
    let rows = vec![vec![JsonValue::Null], vec![s(""), n(1)], vec![JsonValue::Null, n(2)]];
    assert_eq!(infer_column_types(&rows), vec!["string", "number"]);
    let none: Vec<Vec<JsonValue>> = Vec::new();
    assert!(infer_column_types(&none).is_empty());
}

#[test]
fn test_which_columns_can_be_inferred() {
    assert!(can_infer_column_types(&vec![vec![s("$1"), s("2024-01-15")]]));
    assert!(!can_infer_column_types(&vec![vec![s("\u{20ac}100")]]));
    assert!(!can_infer_column_types(&vec![vec![s("abc\u{e9}-a-cd")]]));
    assert!(can_infer_column_types(&vec![vec![s("ab\u{e9}-ab-cd")]]));
}
