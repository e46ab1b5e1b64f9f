use docworks::template::TemplateEngine;

/// The parts of a minimal Word package whose body holds `body_text`.
fn template_parts(body_text: &str) -> Vec<(String, Vec<u8>)> {
    let content_types = r#"<?xml version="1.0" encoding="UTF-8" standalone="yes"?>
<Types xmlns="http://schemas.openxmlformats.org/package/2006/content-types">
  <Default Extension="rels" ContentType="application/vnd.openxmlformats-package.relationships+xml"/>
  <Default Extension="xml" ContentType="application/xml"/>
  <Override PartName="/word/document.xml" ContentType="application/vnd.openxmlformats-officedocument.wordprocessingml.document.main+xml"/>
</Types>"#;
    let rels = r#"<?xml version="1.0" encoding="UTF-8" standalone="yes"?>
<Relationships xmlns="http://schemas.openxmlformats.org/package/2006/relationships">
  <Relationship Id="rId1" Type="http://schemas.openxmlformats.org/officeDocument/2006/relationships/officeDocument" Target="word/document.xml"/>
</Relationships>"#;
    let word_rels = r#"<?xml version="1.0" encoding="UTF-8" standalone="yes"?>
<Relationships xmlns="http://schemas.openxmlformats.org/package/2006/relationships">
</Relationships>"#;
    let document_xml = format!(
        r#"<?xml version="1.0" encoding="UTF-8" standalone="yes"?>
<w:document xmlns:w="http://schemas.openxmlformats.org/wordprocessingml/2006/main">
  <w:body>
    <w:p><w:r><w:t>{body_text}</w:t></w:r></w:p>
  </w:body>
</w:document>"#,
    );
    vec![
        ("[Content_Types].xml".to_string(), content_types.as_bytes().to_vec()),
        ("_rels/.rels".to_string(), rels.as_bytes().to_vec()),
        ("word/_rels/document.xml.rels".to_string(), word_rels.as_bytes().to_vec()),
        ("word/document.xml".to_string(), document_xml.into_bytes()),
    ]
}

#[test]
fn test_detect_simple_placeholder() {
    let parts = template_parts("Hello {name}, your order {order_id} is ready.");
    let placeholders = TemplateEngine::detect_placeholders(&parts).unwrap();
    assert!(placeholders.contains(&"name".to_string()));
    assert!(placeholders.contains(&"order_id".to_string()));
    assert_eq!(placeholders.len(), 2);
}

#[test]
fn test_detect_double_curly() {
    let parts = template_parts("Hello {{name}}, your {{order_id}}.");
    let placeholders = TemplateEngine::detect_placeholders(&parts).unwrap();
    assert!(placeholders.contains(&"name".to_string()));
    assert!(placeholders.contains(&"order_id".to_string()));
}

#[test]
fn test_detect_no_placeholders() {
    let parts = template_parts("Just plain text without any placeholders.");
    let placeholders = TemplateEngine::detect_placeholders(&parts).unwrap();
    assert!(placeholders.is_empty());
}

#[test]
fn test_placeholders_sorted_distinct_and_trimmed() {
    let mut parts = template_parts("{ zeta } {alpha} {{zeta}} {   } {beta}");
    parts.push(("word/header1.xml".to_string(), b"<h>{alpha}{gamma}</h>".to_vec()));
    parts.push(("word/media/image1.png".to_string(), b"{skipped}".to_vec()));
    parts.push(("word/bad.xml".to_string(), vec![0xFF, b'{', b'x', b'}']));
    let placeholders = TemplateEngine::detect_placeholders(&parts).unwrap();
    assert_eq!(placeholders, vec!["alpha", "beta", "gamma", "zeta"]);
}

#[test]
fn test_unsupported_format() {
    assert_eq!(TemplateEngine::unsupported_format("/tmp/letter.DOCX"), None);
    assert_eq!(
        TemplateEngine::unsupported_format("/tmp/sheet.xlsx").unwrap(),
        "Unsupported format: 'xlsx'. Only .docx files are supported."
    );
    assert_eq!(
        TemplateEngine::unsupported_format("/tmp/noext").unwrap(),
        "Unsupported format: ''. Only .docx files are supported."
    );
}
