use docworks::patchers::styles::{apply_style_to_xml, style_rpr};
use docworks::patchers::{
    is_sheet, replace_text_in_xml, set_cell_in_sheet, surgical_patch, surgical_replace_text, surgical_set_cell,
    surgical_set_style, validate, PatchOp, StyleChanges,
};
use docworks::xml::{scan_xml, push_events, XmlKind};

fn entry(name: &str, data: &str) -> (String, Vec<u8>) {
    (name.to_string(), data.as_bytes().to_vec())
}

fn text_of(entries: &[(String, Vec<u8>)], name: &str) -> String {
    let e = entries.iter().find(|(n, _)| n == name).expect("entry");
    String::from_utf8(e.1.clone()).unwrap()
}

fn no_changes() -> StyleChanges {
    StyleChanges {
        bold: None,
        italic: None,
        underline: None,
        strikethrough: None,
        font_size_half_pt: None,
        font_name: None,
    }
}

const DOC: &str = "<?xml version=\"1.0\" encoding=\"UTF-8\"?><w:document><w:body><w:p><w:r><w:t>Hello name</w:t></w:r></w:p></w:body></w:document>";

#[test]
fn scan_and_write_round_trip() {
    let (events, err) = scan_xml(DOC.as_bytes());
    assert!(err.is_none());
    assert_eq!(events[0].kind, XmlKind::Decl);
    assert_eq!(events[1].kind, XmlKind::Start);
    assert_eq!(events[1].content, "w:document");
    let mut out = String::new();
    push_events(&mut out, &events);
    assert_eq!(out, DOC);
}

#[test]
fn scan_reports_mismatched_end() {
    let (events, err) = scan_xml(b"<a><b></a>");
    assert!(err.is_some());
    assert_eq!(events.len(), 2);
}

#[test]
fn replace_in_text_elements_only() {
    let find = vec!["name".to_string()];
    let repl = vec!["World & Co".to_string()];
    let out = replace_text_in_xml(DOC.as_bytes(), &find, &repl, "w:t");
    let s = String::from_utf8(out).unwrap();
    assert!(s.contains("<w:t>Hello World &amp; Co</w:t>"));
    let untouched = replace_text_in_xml(b"<a>name</a>", &find, &repl, "w:t");
    assert_eq!(untouched, b"<a>name</a>".to_vec());
}

#[test]
fn replace_applies_pairs_in_order() {
    let find = vec!["a".to_string(), "b".to_string()];
    let repl = vec!["b".to_string(), "c".to_string()];
    let out = replace_text_in_xml(b"<w:t>ab</w:t>", &find, &repl, "w:t");
    assert_eq!(String::from_utf8(out).unwrap(), "<w:t>cc</w:t>");
}

#[test]
fn malformed_part_is_left_alone() {
    let find = vec!["x".to_string()];
    let repl = vec!["y".to_string()];
    let data = b"<w:t>x</w:p>".to_vec();
    assert_eq!(replace_text_in_xml(&data, &find, &repl, "w:t"), data);
}

#[test]
fn surgical_replace_text_rewrites_content_parts() {
    let entries = vec![entry("word/document.xml", DOC), entry("word/styles.xml", "<w:t>Hello name</w:t>")];
    let find = vec!["name".to_string()];
    let repl = vec!["Ann".to_string()];
    let out = surgical_replace_text("/tmp/a.docx", true, entries, &find, &repl).unwrap();
    assert!(text_of(&out, "word/document.xml").contains("Hello Ann"));
    assert_eq!(text_of(&out, "word/styles.xml"), "<w:t>Hello name</w:t>");
}

#[test]
fn surgical_replace_text_errors() {
    let find: Vec<String> = vec![];
    assert_eq!(
        surgical_replace_text("/x/a.docx", false, vec![], &find, &find).unwrap_err(),
        "not found: /x/a.docx"
    );
    assert_eq!(
        surgical_replace_text("/x/a.xlsx", true, vec![], &find, &find).unwrap_err(),
        "unsupported format '.xlsx'"
    );
}

#[test]
fn validate_accepts_listed_extensions_in_any_case() {
    assert!(validate("/x/A.DOCX", true, &["docx"]).is_ok());
    assert_eq!(validate("/x/a", true, &["docx"]).unwrap_err(), "unsupported format '.'");
}

#[test]
fn sheet_names() {
    assert!(is_sheet("xl/worksheets/sheet1.xml", 0));
    assert!(is_sheet("xl/worksheets/sheet01.xml", 0));
    assert!(!is_sheet("xl/worksheets/sheet2.xml", 0));
    assert!(is_sheet("xl/worksheets/sheet2.xml", 1));
}

#[test]
fn set_cell_adds_missing_cell() {
    let sheet = "<sheetData><row r=\"1\"></row></sheetData>";
    let out = set_cell_in_sheet(sheet.as_bytes(), "B2", "42");
    assert_eq!(
        String::from_utf8(out).unwrap(),
        "<sheetData><row r=\"1\"><c r=\"B2\"><v>42</v></c></row>/sheetData>"
    );
}

#[test]
fn set_cell_replaces_existing_cell_text() {
    let sheet = "<row><c r=\"A1\" t=\"s\"><v>3</v></c></row>";
    let out = set_cell_in_sheet(sheet.as_bytes(), "A1", "hello");
    assert_eq!(
        String::from_utf8(out).unwrap(),
        "<row><c r=\"A1\" t=\"s\"><is><t>hello</t></is></c></row>"
    );
}

#[test]
fn surgical_set_cell_reports_missing_sheet() {
    let entries = vec![entry("xl/worksheets/sheet1.xml", "<row></row>x")];
    let err = surgical_set_cell("/t/b.xlsx", true, entries, 4, "A1", "1").unwrap_err();
    assert_eq!(err, "sheet 4 not found in /t/b.xlsx");
}

#[test]
fn style_rpr_replaces_and_adds_attributes() {
    let ch = StyleChanges { bold: Some(true), font_size_half_pt: Some(24), ..no_changes() };
    let out = style_rpr(b"<w:rPr b=\"0\" x=\"1\"></w:rPr>", &ch);
    assert_eq!(String::from_utf8(out).unwrap(), "<w:rPr x=\"1\" b=\"1\" sz=\"24\"></w:rPr>");
}

#[test]
fn apply_style_inserts_run_properties() {
    let ch = StyleChanges { italic: Some(true), font_name: Some("Arial".to_string()), ..no_changes() };
    let doc = "<w:p><w:r><w:t>Total</w:t></w:r><w:r><w:t>other</w:t></w:r></w:p>";
    let out = apply_style_to_xml(doc.as_bytes(), "docx", "Tot", &ch);
    assert_eq!(
        String::from_utf8(out).unwrap(),
        "<w:p><w:r><w:rPr i=\"1\" ascii=\"Arial\" hAnsi=\"Arial\"/><w:t>Total</w:t></w:r><w:r><w:t>other</w:t></w:r></w:p>"
    );
}

#[test]
fn apply_style_with_empty_pattern_touches_every_run_with_text() {
    let ch = StyleChanges { underline: Some(true), ..no_changes() };
    let doc = "<a:p><a:r><a:t>x</a:t></a:r><a:r></a:r></a:p>";
    let out = apply_style_to_xml(doc.as_bytes(), "pptx", "", &ch);
    assert_eq!(
        String::from_utf8(out).unwrap(),
        "<a:p><a:r><a:rPr u=\"sng\"/><a:t>x</a:t></a:r><a:r></a:r></a:p>"
    );
}

#[test]
fn surgical_set_style_on_slides() {
    let ch = StyleChanges { strikethrough: Some(true), ..no_changes() };
    let entries = vec![entry("ppt/slides/slide1.xml", "<a:r><a:t>q</a:t></a:r>")];
    let out = surgical_set_style("/d/s.pptx", true, entries, "q", &ch).unwrap();
    assert_eq!(text_of(&out, "ppt/slides/slide1.xml"), "<a:r><a:rPr strike=\"sng\"/><a:t>q</a:t></a:r>");
}

#[test]
fn surgical_patch_applies_operations_in_order() {
    let entries = vec![entry("word/document.xml", "<w:t>one</w:t>")];
    let ops = vec![
        PatchOp::ReplaceText { find: vec!["one".to_string()], replace: vec!["two".to_string()] },
        PatchOp::ReplaceText { find: vec!["two".to_string()], replace: vec!["three".to_string()] },
    ];
    let out = surgical_patch("/d/x.docx", true, entries, &ops).unwrap();
    assert_eq!(text_of(&out, "word/document.xml"), "<w:t>three</w:t>");
}

#[test]
fn surgical_patch_stops_at_missing_sheet() {
    let entries = vec![entry("word/document.xml", "<w:t>one</w:t>")];
    let ops = vec![PatchOp::SetCell { sheet_index: 0, cell_ref: "A1".to_string(), value: "1".to_string() }];
    assert_eq!(surgical_patch("/d/x.docx", true, entries, &ops).unwrap_err(), "sheet 0 not found in /d/x.docx");
    assert_eq!(surgical_patch("/d/y.docx", false, vec![], &ops).unwrap_err(), "not found: /d/y.docx");
}
