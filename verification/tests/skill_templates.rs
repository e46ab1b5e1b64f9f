use std::io::{Read, Write};

use docworks::json::{JsonNumber, JsonValue};
use docworks::skill::templates::{generate_ooxml_template, TemplateEngine};

fn params() -> Vec<(String, JsonValue)> {
    vec![
        ("name".to_string(), JsonValue::Str("Acme".to_string())),
        ("count".to_string(), JsonValue::Number(JsonNumber::PosInt(3))),
        ("flag".to_string(), JsonValue::Bool(true)),
        (
            "items".to_string(),
            JsonValue::Array(vec![JsonValue::Str("a".to_string()), JsonValue::Number(JsonNumber::PosInt(1))]),
        ),
        ("nothing".to_string(), JsonValue::Null),
    ]
}

#[test]
fn test_replace_placeholders_by_kind() {
    let engine = TemplateEngine::new("templates".to_string());
    let out = engine.replace_placeholders(b"Hi {{NAME}}, {{COUNT}} {{FLAG}} {{ITEMS}} [{{NOTHING}}] {{name}}", &params());
    assert_eq!(String::from_utf8(out).unwrap(), "Hi Acme, 3 true [\n  \"a\",\n  1\n] [] {{name}}");
}

#[test]
fn test_fill_template_replaces_in_every_part() {
    let mut zip = zip::ZipWriter::new(std::io::Cursor::new(Vec::new()));
    let opts = zip::write::SimpleFileOptions::default();
    zip.start_file("word/document.xml", opts).unwrap();
    zip.write_all(b"<w:t>{{NAME}} x{{COUNT}}</w:t>").unwrap();
    zip.start_file("docProps/core.xml", opts).unwrap();
    zip.write_all(b"<title>{{NAME}}</title>").unwrap();
    let bytes = zip.finish().unwrap().into_inner();

    let engine = TemplateEngine::new("templates".to_string());
    let filled = engine.fill_template(&bytes, &params()).unwrap();
    let mut archive = zip::ZipArchive::new(std::io::Cursor::new(filled)).unwrap();
    let mut doc = String::new();
    archive.by_name("word/document.xml").unwrap().read_to_string(&mut doc).unwrap();
    assert_eq!(doc, "<w:t>Acme x3</w:t>");
    let mut core = String::new();
    archive.by_name("docProps/core.xml").unwrap().read_to_string(&mut core).unwrap();
    assert_eq!(core, "<title>Acme</title>");
}

#[test]
fn test_fill_template_of_blank_package() {
    let engine = TemplateEngine::new("templates".to_string());
    let entries = engine
        .fill_entries(&generate_ooxml_template("xlsx"), &vec![("sheet_name".to_string(), JsonValue::Str("Q1".to_string()))])
        .unwrap();
    let wb = entries.iter().find(|e| e.0 == "xl/workbook.xml").unwrap();
    assert!(String::from_utf8(wb.1.clone()).unwrap().contains("<sheet name=\"Q1\""));
}

#[test]
fn test_fill_template_rejects_non_zip() {
    let engine = TemplateEngine::new("templates".to_string());
    let err = engine.fill_template(b"not a zip", &params()).unwrap_err();
    assert!(err.starts_with("Failed to read template ZIP: "));
}

#[test]
fn test_output_file_name() {
    assert_eq!(
        TemplateEngine::create_output_name("office.word.report", 1700000000, "docx"),
        "office_word_report_1700000000.docx"
    );
}
