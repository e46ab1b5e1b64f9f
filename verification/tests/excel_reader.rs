use std::io::Write;

use docworks::readers::excel::{ExcelReader, ExcelView, SheetView};

fn inline(cell: &str, text: &str) -> String {
    format!("<c r=\"{}\" t=\"inlineStr\"><is><t>{}</t></is></c>", cell, text)
}

fn number(cell: &str, v: &str) -> String {
    format!("<c r=\"{}\"><v>{}</v></c>", cell, v)
}

fn sheet_xml(rows: &[Vec<String>]) -> String {
    let mut body = String::new();
    for (i, cells) in rows.iter().enumerate() {
        body.push_str(&format!("<row r=\"{}\">{}</row>", i + 1, cells.concat()));
    }
    format!(
        "<?xml version=\"1.0\" encoding=\"UTF-8\"?><worksheet xmlns=\"http://schemas.openxmlformats.org/spreadsheetml/2006/main\"><sheetData>{}</sheetData></worksheet>",
        body
    )
}

/// A workbook of three sheets (`Sales Data`, `Inventory`, `Notes`) with a
/// defined name `InventoryRange`.
fn sample_workbook() -> Vec<u8> {
    let sales = sheet_xml(&[
        vec![inline("A1", "Product"), inline("B1", "Region"), inline("C1", "Units")],
        vec![inline("A2", "Widget"), inline("B2", "North"), number("C2", "12")],
        vec![inline("A3", "Gadget"), inline("B3", "South"), number("C3", "7")],
    ]);
    let inventory = sheet_xml(&[
        vec![inline("A1", "Item"), inline("B1", "Location"), inline("C1", "Count")],
        vec![inline("A2", "Bolt"), inline("B2", "Shelf A"), number("C2", "10")],
        vec![inline("A3", "Nut"), inline("B3", "Shelf B"), number("C3", "20")],
    ]);
    let notes = sheet_xml(&[vec![inline("A1", "Checked")]]);
    let workbook = "<?xml version=\"1.0\" encoding=\"UTF-8\"?><workbook xmlns=\"http://schemas.openxmlformats.org/spreadsheetml/2006/main\" xmlns:r=\"http://schemas.openxmlformats.org/officeDocument/2006/relationships\"><sheets><sheet name=\"Sales Data\" sheetId=\"1\" r:id=\"rId1\"/><sheet name=\"Inventory\" sheetId=\"2\" r:id=\"rId2\"/><sheet name=\"Notes\" sheetId=\"3\" r:id=\"rId3\"/></sheets><definedNames><definedName name=\"InventoryRange\">Inventory!$A$1:$C$3</definedName></definedNames></workbook>";
    let ws = "http://schemas.openxmlformats.org/officeDocument/2006/relationships/worksheet";
    let rels = format!(
        "<?xml version=\"1.0\" encoding=\"UTF-8\"?><Relationships xmlns=\"http://schemas.openxmlformats.org/package/2006/relationships\"><Relationship Id=\"rId1\" Type=\"{ws}\" Target=\"worksheets/sheet1.xml\"/><Relationship Id=\"rId2\" Type=\"{ws}\" Target=\"worksheets/sheet2.xml\"/><Relationship Id=\"rId3\" Type=\"{ws}\" Target=\"worksheets/sheet3.xml\"/></Relationships>"
    );
    let root_rels = "<?xml version=\"1.0\" encoding=\"UTF-8\"?><Relationships xmlns=\"http://schemas.openxmlformats.org/package/2006/relationships\"><Relationship Id=\"rId1\" Type=\"http://schemas.openxmlformats.org/officeDocument/2006/relationships/officeDocument\" Target=\"xl/workbook.xml\"/></Relationships>";
    let mut zip = zip::ZipWriter::new(std::io::Cursor::new(Vec::new()));
    let opts = zip::write::SimpleFileOptions::default();
    for (name, text) in [
        ("_rels/.rels", root_rels.to_string()),
        ("xl/workbook.xml", workbook.to_string()),
        ("xl/_rels/workbook.xml.rels", rels),
        ("xl/worksheets/sheet1.xml", sales),
        ("xl/worksheets/sheet2.xml", inventory),
        ("xl/worksheets/sheet3.xml", notes),
    ] {
        zip.start_file(name, opts).unwrap();
        zip.write_all(text.as_bytes()).unwrap();
    }
    zip.finish().unwrap().into_inner()
}

#[test]
fn test_read_excel_to_json_basic() {
    let result = ExcelReader::read_to_json(&sample_workbook(), "sample.xlsx").unwrap().unwrap();
    assert_eq!(result.format, "xlsx");
    assert!(result.sheets.len() >= 3, "Should have 3+ sheets");

    let sheet1 = &result.sheets[0];
    assert_eq!(sheet1.name, "Sales Data");
    assert!(!sheet1.header_row.is_empty(), "Should detect header row");
    assert_eq!(sheet1.header_row[0], "Product");
    assert!(!sheet1.rows.is_empty(), "Should have data rows");
}

#[test]
fn test_read_excel_to_md_basic() {
    let view = ExcelReader::read_to_json(&sample_workbook(), "sample.xlsx").unwrap().unwrap();
    let md = ExcelReader::read_to_md(&view);
    assert!(md.contains('|'), "Markdown should contain tables");
    assert!(md.contains("---"), "Should have YAML frontmatter");
    assert!(md.contains("Sales Data"), "Should have sheet names");
}

#[test]
fn test_column_type_inference() {
    let result = ExcelReader::read_to_json(&sample_workbook(), "sample.xlsx").unwrap().unwrap();
    let inventory = result.sheets.iter().find(|s| s.name == "Inventory").unwrap();
    assert_eq!(inventory.column_types[0], "string");
    assert_eq!(inventory.column_types[1], "string");
}

#[test]
fn test_named_ranges() {
    let result = ExcelReader::read_to_json(&sample_workbook(), "sample.xlsx").unwrap().unwrap();
    assert!(!result.named_ranges.is_empty(), "Should have named ranges");
    assert_eq!(result.named_ranges[0].name, "InventoryRange");
}

#[test]
fn test_file_not_found() {
    let result = ExcelReader::read_to_json(b"not a workbook", "/nonexistent/file.xlsx").unwrap();
    assert!(result.is_err(), "Should error on missing file");
}

#[test]
fn sheet_shape_is_read_exactly() {
    let result = ExcelReader::read_to_json(&sample_workbook(), "sample.xlsx").unwrap().unwrap();
    assert_eq!(result.file, "sample.xlsx");
    let s = &result.sheets[0];
    assert_eq!(s.dimensions, "A1:C3");
    assert_eq!(s.row_count, 3);
    assert_eq!(s.column_count, 3);
    assert_eq!(s.header_row, vec!["Product", "Region", "Units"]);
    assert_eq!(s.rows, vec![vec!["Widget", "North", "12"], vec!["Gadget", "South", "7"]]);
    assert_eq!(s.column_types, vec!["string", "string", "number"]);
    assert_eq!(result.named_ranges[0].range, "Inventory!$A$1:$C$3");
    let notes = &result.sheets[2];
    assert_eq!(notes.header_row, vec!["Checked"]);
    assert!(notes.rows.is_empty());
    assert_eq!(notes.column_types, vec!["string"]);
}

#[test]
fn unreadable_workbook_reports_the_reader_error() {
    match ExcelReader::read_to_json(b"PK not really", "x.xlsx").unwrap() {
        Ok(_) => panic!("not a workbook"),
        Err(err) => assert!(err.starts_with("Failed to open workbook: ")),
    }
}

#[test]
fn test_read_excel_to_chunks_basic() {
    let view = ExcelReader::read_to_json(&sample_workbook(), "sample.xlsx").unwrap().unwrap();
    let chunks = ExcelReader::read_to_chunks(&view);
    assert!(!chunks.is_empty(), "Should have at least one chunk");
    let format = chunks[0].metadata.iter().find(|(k, _)| k == "format").map(|(_, v)| v.clone());
    assert_eq!(format.as_deref(), Some("xlsx"));
    assert!(chunks[0].text.contains("Sheet:"), "Chunk should contain sheet name");
}

fn long_sheet(n: usize) -> ExcelView {
    ExcelView {
        format: "xlsx".to_string(),
        file: "long.xlsx".to_string(),
        sheets: vec![SheetView {
            name: "S".to_string(),
            dimensions: format!("A1:A{}", n + 1),
            row_count: n + 1,
            column_count: 1,
            header_row: vec!["h".to_string()],
            rows: (0..n).map(|i| vec![format!("r{}", i)]).collect(),
            column_types: vec!["string".to_string()],
        }],
        named_ranges: vec![],
    }
}

fn meta(c: &docworks::readers::DocumentChunk, key: &str) -> String {
    c.metadata.iter().find(|(k, _)| k == key).map(|(_, v)| v.clone()).unwrap()
}

#[test]
fn chunks_hold_fifty_rows_each() {
    let chunks = ExcelReader::read_to_chunks(&long_sheet(120));
    assert_eq!(chunks.len(), 3);
    assert_eq!(chunks[0].index, 0);
    assert_eq!(chunks[2].index, 2);
    assert!(chunks[0].text.starts_with(
        "# Sheet: S\n\nDimensions: A1:A121 · 121 rows × 1 cols\n\nColumn types:\n- `h`: string\n\n| h |\n| :- |\n| r0 |\n"
    ));
    assert!(chunks[1].text.starts_with("# Sheet: S (continued)\n\n| h |\n| :- |\n| r50 |\n"));
    assert!(chunks[1].text.ends_with("| r99 |\n"));
    assert_eq!((meta(&chunks[0], "row_start"), meta(&chunks[0], "row_end")), ("0".to_string(), "49".to_string()));
    assert_eq!((meta(&chunks[1], "row_start"), meta(&chunks[1], "row_end")), ("50".to_string(), "99".to_string()));
    assert_eq!((meta(&chunks[2], "row_start"), meta(&chunks[2], "row_end")), ("100".to_string(), "119".to_string()));
    assert_eq!(meta(&chunks[2], "sheet"), "S");
}

#[test]
fn sheet_without_rows_makes_one_chunk() {
    let chunks = ExcelReader::read_to_chunks(&long_sheet(0));
    assert_eq!(chunks.len(), 1);
    assert_eq!(
        chunks[0].text,
        "# Sheet: S\n\nDimensions: A1:A1 · 1 rows × 1 cols\n\nColumn types:\n- `h`: string\n\n"
    );
    assert_eq!((meta(&chunks[0], "row_start"), meta(&chunks[0], "row_end")), ("0".to_string(), "0".to_string()));
}

#[test]
fn workbook_sheets_give_every_cell_as_text() {
    let sheets = docworks::readers::workbook::workbook_sheets(&sample_workbook(), "sample.xlsx").unwrap();
    assert_eq!(sheets.len(), 3);
    assert_eq!(sheets[1].name, "Inventory");
    assert_eq!(sheets[1].rows[0], vec!["Item", "Location", "Count"]);
    assert_eq!(sheets[1].rows[2], vec!["Nut", "Shelf B", "20"]);
}

#[test]
fn workbook_sheets_name_the_file_they_cannot_open() {
    let err = docworks::readers::workbook::workbook_sheets(b"nope", "a.xlsx").err().unwrap();
    assert!(err.starts_with("Cannot open workbook 'a.xlsx': "));
}
