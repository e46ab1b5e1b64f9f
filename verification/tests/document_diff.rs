use docworks::diff::document_diff::{column_letter, is_slide_part, DocKind, DocSource, DocumentDiff, SheetCells};

#[test]
fn test_text_diff_reports_changes() {
    let s = DocumentDiff::text_diff("1\n2\n3\n", "1\n99\n3\n").unwrap();
    let kinds: Vec<&str> = s.changeset.iter().map(|c| c.change_type.as_str()).collect();
    assert_eq!(kinds, vec!["unchanged", "removed", "added", "unchanged"]);
    let contents: Vec<&str> = s.changeset.iter().map(|c| c.content.as_str()).collect();
    assert_eq!(contents, vec!["1", "2", "99", "3"]);
    assert_eq!(s.changeset[0].line_number_a, Some(0));
    assert_eq!(s.changeset[0].line_number_b, Some(0));
    assert_eq!(s.changeset[1].line_number_a, Some(1));
    assert_eq!(s.changeset[1].line_number_b, None);
    assert_eq!(s.changeset[2].line_number_a, None);
    assert_eq!(s.changeset[2].line_number_b, Some(1));
    assert_eq!(s.changeset[3].line_number_a, Some(2));
    assert_eq!(s.changeset[3].line_number_b, Some(2));
    assert_eq!(s.stats.additions, 1);
    assert_eq!(s.stats.deletions, 1);
    assert_eq!(s.stats.unchanged_lines, 2);
}

#[test]
fn test_text_diff_of_equal_texts() {
    let s = DocumentDiff::text_diff("a\nb", "a\nb").unwrap();
    assert_eq!(s.stats.additions, 0);
    assert_eq!(s.stats.deletions, 0);
    assert_eq!(s.stats.unchanged_lines, 2);
    assert_eq!(s.changeset[1].content, "b");
}

#[test]
fn test_get_extension() {
    assert_eq!(DocumentDiff::get_extension("/tmp/A.DOCX").unwrap(), "docx");
    assert_eq!(DocumentDiff::get_extension("report").unwrap_err(), "File has no extension: report");
    assert_eq!(DocumentDiff::get_extension(".hidden").unwrap_err(), "File has no extension: .hidden");
}

#[test]
fn test_validate_extensions() {
    assert!(DocumentDiff::validate_paths("a.docx", "b.DOCX", true, true).is_ok());
    assert_eq!(
        DocumentDiff::validate_paths("a.docx", "b.xlsx", true, true).unwrap_err(),
        "Format mismatch: files have different extensions (docx vs xlsx). Both files must be the same format."
    );
}

#[test]
fn test_source_kind() {
    assert!(DocumentDiff::source_kind("x.doc").unwrap() == DocKind::Word);
    assert!(DocumentDiff::source_kind("x.xls").unwrap() == DocKind::Workbook);
    assert!(DocumentDiff::source_kind("x.pptx").unwrap() == DocKind::Slides);
    assert_eq!(
        DocumentDiff::source_kind("x.odt").err().unwrap(),
        "Unsupported format: odt. Supported: docx, xlsx, pptx"
    );
}

#[test]
fn test_column_letters() {
    assert_eq!(column_letter(0), "A");
    assert_eq!(column_letter(25), "Z");
    assert_eq!(column_letter(26), "AA");
    assert_eq!(column_letter(27), "AB");
    assert_eq!(column_letter(701), "ZZ");
    assert_eq!(column_letter(702), "AAA");
}

const BODY: &str = "<w:document><w:body><w:p><w:r><w:t>  Hello </w:t></w:r><w:r><w:t>a &amp; b</w:t></w:r></w:p><w:p><w:r><w:t> </w:t></w:r></w:p><w:p><w:r><w:t>Second</w:t></w:r></w:p></w:body></w:document>";

#[test]
fn test_extract_docx_text() {
    let t = DocumentDiff::extract_text("a.docx", DocSource::Word(Ok(BODY.to_string()))).unwrap();
    assert_eq!(t, "Hello a & b\nSecond");
    let d = DocumentDiff::extract_text_detailed("a.docx", DocSource::Word(Ok(BODY.to_string()))).unwrap();
    assert_eq!(d, "[P0] Hello a & b\n[P1] Second");
    let e = DocumentDiff::extract_text("a.docx", DocSource::Word(Ok("<w:p></w:q>".to_string()))).unwrap_err();
    assert!(e.starts_with("XML parse error in word/document.xml: "));
    let e = DocumentDiff::extract_text("a.docx", DocSource::Word(Err("Cannot find word/document.xml in archive".to_string())));
    assert_eq!(e.unwrap_err(), "Cannot find word/document.xml in archive");
}

#[test]
fn test_extract_slides_in_name_order() {
    let slides = vec![
        ("ppt/slides/slide2.xml".to_string(), Ok("<p:sld><a:t>Two</a:t></p:sld>".to_string())),
        ("ppt/slides/slide1.xml".to_string(), Ok("<p:sld><a:t> One </a:t><a:t>!</a:t></p:sld>".to_string())),
    ];
    let t = DocumentDiff::extract_text("deck.pptx", DocSource::Slides(Ok(slides))).unwrap();
    assert_eq!(t, "--- Slide 1 ---\nOne !\n--- Slide 2 ---\nTwo");
    let none = DocumentDiff::extract_text("deck.pptx", DocSource::Slides(Ok(vec![])));
    assert_eq!(none.unwrap_err(), "No slides found in presentation");
    assert!(is_slide_part("ppt/slides/slide10.xml"));
    assert!(!is_slide_part("ppt/slides/_rels/slide1.xml.rels"));
}

#[test]
fn test_extract_workbook_text() {
    let sheets = vec![
        SheetCells { name: "S1".to_string(), rows: vec![vec!["a".to_string(), "".to_string(), "c".to_string()]] },
        SheetCells { name: "S2".to_string(), rows: vec![vec!["x".to_string()]] },
    ];
    let t = DocumentDiff::extract_text("w.xlsx", DocSource::Workbook(Ok(sheets))).unwrap();
    assert_eq!(t, "=== Sheet: S1 ===\na\t\tc\n\n=== Sheet: S2 ===\nx\n");
    let sheets = vec![SheetCells { name: "S1".to_string(), rows: vec![vec!["a".to_string(), "".to_string(), "c".to_string()]] }];
    let d = DocumentDiff::extract_text_detailed("w.xlsx", DocSource::Workbook(Ok(sheets))).unwrap();
    assert_eq!(d, "=== Sheet: S1 ===\na\t\tc\n");
    let u = DocumentDiff::extract_text_detailed("w.odt", DocSource::Word(Ok(String::new())));
    assert_eq!(u.unwrap_err(), "Unsupported format: odt");
}

#[test]
fn test_validate_paths_missing_file() {
    assert_eq!(DocumentDiff::validate_paths("a.docx", "b.docx", false, true).unwrap_err(), "File not found: a.docx");
    assert_eq!(DocumentDiff::validate_paths("a.docx", "b.docx", true, false).unwrap_err(), "File not found: b.docx");
}
