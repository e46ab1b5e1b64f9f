use docworks::json::{JsonNumber, JsonValue};
use docworks::skills::runner::{sheet_layout, theme_palette};

fn s(x: &str) -> JsonValue {
    JsonValue::Str(x.to_string())
}

fn whole_num(n: u64) -> JsonValue {
    JsonValue::Number(JsonNumber::PosInt(n))
}

fn float(text: &str, fraction: bool, whole: bool) -> JsonValue {
    JsonValue::Number(JsonNumber::Float { text: text.to_string(), positive: true, unit: fraction, fraction, whole })
}

#[test]
fn test_theme_palette() {
    assert_eq!(theme_palette("green"), ("#2E7D32", "#C8E6C9", "#C8E6C9", "#1B5E20"));
    assert_eq!(theme_palette("unknown"), ("#4472C4", "#D9E2F3", "#D9E2F3", "#1F3864"));
}

#[test]
fn test_sheet_layout_with_header() {
    let data = vec![
        vec![s("Product"), s("Price")],
        vec![s("A very long product name that goes on and on and on"), float("0.25", true, false)],
        vec![s("Pen"), float("2.5", false, false)],
        vec![s("Ink"), whole_num(3)],
    ];
    let l = sheet_layout(&data, true, &vec![], "blue", 0, 0);
    assert_eq!(l.column_widths, vec![47, 14]);
    assert_eq!(l.freeze_rows, Some(1));
    assert_eq!(l.freeze_cols, None);
    assert!(l.autofilter);
    let h = &l.formats[0][0];
    assert_eq!(h.bg_color.as_deref(), Some("#4472C4"));
    assert_eq!(h.font_color.as_deref(), Some("#FFFFFF"));
    assert_eq!(h.align_h.as_deref(), Some("center"));
    assert_eq!(l.formats[1][1].num_format.as_deref(), Some("0.0%"));
    assert_eq!(l.formats[1][1].bg_color, None);
    assert_eq!(l.formats[2][1].num_format.as_deref(), Some("#,##0.00"));
    assert_eq!(l.formats[2][1].bg_color.as_deref(), Some("#D9E2F3"));
    assert_eq!(l.formats[3][1].num_format.as_deref(), Some("#,##0"));
    assert_eq!(l.formats[3][0].num_format, None);
}

#[test]
fn test_sheet_layout_with_row_types() {
    let data = vec![vec![s("Title")], vec![s("Head")], vec![whole_num(7)], vec![whole_num(9)]];
    let types = vec!["title".to_string(), "header".to_string(), "data".to_string(), "total".to_string()];
    let l = sheet_layout(&data, false, &types, "navy", 0, 2);
    assert_eq!(l.freeze_rows, Some(2));
    assert_eq!(l.freeze_cols, Some(2));
    assert!(!l.autofilter);
    assert_eq!(l.formats[0][0].font_size, Some(16));
    assert_eq!(l.formats[0][0].border, Some(false));
    assert_eq!(l.formats[0][0].font_color.as_deref(), Some("#0D1642"));
    assert_eq!(l.formats[2][0].bg_color.as_deref(), Some("#C5CAE9"));
    assert_eq!(l.formats[3][0].bg_color.as_deref(), Some("#F2F2F2"));
    assert_eq!(l.formats[3][0].num_format.as_deref(), Some("#,##0"));
    assert_eq!(l.column_widths, vec![14]);
}
