use docworks::json::{JsonNumber, JsonValue};
use docworks::pdf_form::{default_font_name, map_font_name, FlatPdfFiller, PdfFormFiller};
use docworks::readers::excel::{CellValue, ExcelReader, ExcelView, NamedRangeInfo, SheetView};
use docworks::readers::powerpoint::{read_ppt_to_chunks, read_ppt_to_md, JsonDocument, ShapeJson, SlideJson};

fn text_shape(t: &str) -> ShapeJson {
    ShapeJson::Text { name: "t".to_string(), text: t.to_string(), alt_text: None, placeholder_type: None }
}

fn deck() -> JsonDocument {
    JsonDocument {
        file: "d.pptx".to_string(),
        format: "pptx".to_string(),
        slide_count: 2,
        slides: vec![
            SlideJson {
                slide_number: 1,
                name: String::new(),
                notes: Some("Say hi".to_string()),
                background_rgb: None,
                shapes: vec![text_shape("Title"), ShapeJson::Connector { name: String::new() }, text_shape("")],
            },
            SlideJson {
                slide_number: 2,
                name: "Closing".to_string(),
                notes: None,
                background_rgb: Some([1, 2, 3]),
                shapes: vec![text_shape("Bye\nnow")],
            },
        ],
    }
}

#[test]
fn test_ppt_markdown() {
    let md = read_ppt_to_md(&deck());
    assert_eq!(
        md,
        "# Presentation\n\n---\n\n## Slide 1\n\nTitle\n\n> **Speaker Notes:** Say hi\n\n---\n\n## Slide 2\n\nBye\nnow\n\n---\n\n"
    );
}

#[test]
fn test_ppt_chunks() {
    let cs = read_ppt_to_chunks(&deck());
    assert_eq!(cs.len(), 2);
    assert_eq!(cs[0].index, 0);
    assert_eq!(cs[0].text, "# Slide 1\n\nTitle\nSpeaker Notes: Say hi");
    assert_eq!(cs[1].text, "# Closing\n\nBye\nnow");
    match &cs[1].metadata {
        JsonValue::Object(f) => {
            assert_eq!(f[0].0, "has_notes");
            assert!(matches!(f[0].1, JsonValue::Bool(false)));
            assert_eq!(f[1].0, "slide_number");
            assert!(matches!(f[1].1, JsonValue::Number(JsonNumber::PosInt(2))));
        },
        _ => panic!("metadata is an object"),
    }
}

#[test]
fn test_excel_markdown() {
    let w = ExcelView {
        format: "xlsx".to_string(),
        file: "s.xlsx".to_string(),
        sheets: vec![SheetView {
            name: "Sales Data".to_string(),
            dimensions: "A1:B3".to_string(),
            row_count: 3,
            column_count: 2,
            header_row: vec!["Product".to_string(), "Qty".to_string()],
            rows: vec![vec!["Pen".to_string(), "3".to_string()], vec!["Ink".to_string(), "".to_string()]],
            column_types: vec!["string".to_string(), "integer".to_string()],
        }],
        named_ranges: vec![NamedRangeInfo { name: "R".to_string(), range: "Sheet1!A1:B2".to_string() }],
    };
    let md = ExcelReader::read_to_md(&w);
    assert_eq!(
        md,
        "---\nformat: xlsx\nfile: s.xlsx\nsheets: 1\ntotal_rows: 2\n---\n\n# Sales Data\n\n> *Dimensions: A1:B3 · 3 rows × 2 columns*  \n> *Column types: `Product`: string, `Qty`: integer*  \n\n| Product | Qty |\n| :- | :- |\n| Pen | 3 |\n| Ink |  |\n\n---\n\n## Named Ranges\n\n- **R**: `Sheet1!A1:B2`\n\n"
    );
    let c = CellValue("x".to_string());
    assert_eq!(c.as_str(), "x");
    assert!(!c.is_empty());
    assert!(CellValue(String::new()).is_empty());
}

#[test]
fn test_pdf_font_names() {
    assert_eq!(map_font_name("Helv"), "Helvetica");
    assert_eq!(map_font_name("TiRo"), "Times-Roman");
    assert_eq!(map_font_name("Cour"), "Courier");
    assert_eq!(map_font_name("ZaDb"), "ZapfDingbats");
    assert_eq!(map_font_name("Symb"), "Symbol");
    assert_eq!(map_font_name("Arial"), "Arial");
    assert_eq!(default_font_name(), "Helvetica");
    let _ = PdfFormFiller::new();
    let _ = FlatPdfFiller::new();
}
