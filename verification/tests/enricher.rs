use docworks::writers::docx_enricher::{
    enrich_entries, iso8601_from_secs, APP_XML, FONT_TABLE_XML, NUMBERING_XML, PACKAGE_RELS_XML,
    SETTINGS_XML, THEME_XML,
};

fn entry(name: &str, data: &str) -> (String, Vec<u8>) {
    (name.to_string(), data.as_bytes().to_vec())
}

fn text_of(entries: &[(String, Vec<u8>)], name: &str) -> String {
    let e = entries.iter().find(|(n, _)| n == name).expect("entry");
    String::from_utf8(e.1.clone()).unwrap()
}

const CT: &str = "<?xml version=\"1.0\" encoding=\"UTF-8\"?>\n<Types xmlns=\"http://schemas.openxmlformats.org/package/2006/content-types\">\n<Override PartName=\"/word/document.xml\" ContentType=\"application/doc\"/>\n</Types>";
const DOC_RELS: &str = "<?xml version=\"1.0\" encoding=\"UTF-8\"?>\n<Relationships xmlns=\"http://schemas.openxmlformats.org/package/2006/relationships\">\n<Relationship Id=\"rId1\" Type=\"t/styles\" Target=\"styles.xml\"/>\n</Relationships>";

fn package() -> Vec<(String, Vec<u8>)> {
    vec![
        entry("[Content_Types].xml", CT),
        entry("word/document.xml", "<w:document/>"),
        entry("word/styles.xml", "<w:styles/>"),
        entry("word/_rels/document.xml.rels", DOC_RELS),
    ]
}

#[test]
fn test_iso8601_known_instants() {
    assert_eq!(iso8601_from_secs(0), "1970-01-01T00:00:00Z");
    assert_eq!(iso8601_from_secs(951782400), "2000-02-29T00:00:00Z");
    assert_eq!(iso8601_from_secs(1709251199), "2024-02-29T23:59:59Z");
    assert_eq!(iso8601_from_secs(4102444800), "2100-01-01T00:00:00Z");
    assert_eq!(iso8601_from_secs(1234567890), "2009-02-13T23:31:30Z");
}

#[test]
fn test_enrich_appends_missing_parts_in_order() {
    let out = enrich_entries(package(), "Report", "Ann", true, true, "C", "M", b"<full/>");
    let names: Vec<&str> = out.iter().map(|(n, _)| n.as_str()).collect();
    assert_eq!(
        names,
        vec![
            "[Content_Types].xml",
            "word/document.xml",
            "word/styles.xml",
            "word/_rels/document.xml.rels",
            "word/theme/theme1.xml",
            "word/numbering.xml",
            "word/fontTable.xml",
            "word/settings.xml",
            "word/footer1.xml",
            "word/header1.xml",
            "docProps/core.xml",
            "docProps/app.xml",
            "_rels/.rels",
        ]
    );
    assert_eq!(text_of(&out, "word/theme/theme1.xml"), THEME_XML);
    assert_eq!(text_of(&out, "word/numbering.xml"), NUMBERING_XML);
    assert_eq!(text_of(&out, "word/fontTable.xml"), FONT_TABLE_XML);
    assert_eq!(text_of(&out, "word/settings.xml"), SETTINGS_XML);
    assert_eq!(text_of(&out, "docProps/app.xml"), APP_XML);
    assert_eq!(text_of(&out, "word/styles.xml"), "<full/>");
    assert_eq!(text_of(&out, "_rels/.rels"), PACKAGE_RELS_XML);
    let header = text_of(&out, "word/header1.xml");
    assert!(header.contains("<w:t>Report</w:t>"));
    let core = text_of(&out, "docProps/core.xml");
    assert!(core.contains("<dc:title>Report</dc:title>"));
    assert!(core.contains("<dc:creator>Ann</dc:creator>"));
    assert!(core.contains(">C</dcterms:created>"));
    assert!(core.contains(">M</dcterms:modified>"));
}

#[test]
fn test_enrich_rebuilds_content_types() {
    let out = enrich_entries(package(), "T", "A", true, false, "C", "M", b"<s/>");
    let ct = text_of(&out, "[Content_Types].xml");
    let expected = "<?xml version=\"1.0\" encoding=\"UTF-8\" standalone=\"yes\"?>\n<Types xmlns=\"http://schemas.openxmlformats.org/package/2006/content-types\">\n<Default Extension=\"xml\" ContentType=\"application/xml\"/>\n<Default Extension=\"rels\" ContentType=\"application/vnd.openxmlformats-package.relationships+xml\"/>\n<Override PartName=\"/word/document.xml\" ContentType=\"application/doc\"/>\n<Override PartName=\"/word/theme/theme1.xml\" ContentType=\"application/vnd.openxmlformats-officedocument.theme+xml\"/>\n<Override PartName=\"/word/numbering.xml\" ContentType=\"application/vnd.openxmlformats-officedocument.wordprocessingml.numbering+xml\"/>\n<Override PartName=\"/word/fontTable.xml\" ContentType=\"application/vnd.openxmlformats-officedocument.wordprocessingml.fontTable+xml\"/>\n<Override PartName=\"/word/settings.xml\" ContentType=\"application/vnd.openxmlformats-officedocument.wordprocessingml.settings+xml\"/>\n<Override PartName=\"/word/footer1.xml\" ContentType=\"application/vnd.openxmlformats-officedocument.wordprocessingml.footer+xml\"/>\n<Override PartName=\"/docProps/core.xml\" ContentType=\"application/vnd.openxmlformats-package.core-properties+xml\"/>\n<Override PartName=\"/docProps/app.xml\" ContentType=\"application/vnd.openxmlformats-officedocument.extended-properties+xml\"/>\n</Types>";
    assert_eq!(ct, expected);
}

#[test]
fn test_enrich_numbers_document_relationships() {
    let out = enrich_entries(package(), "T", "A", true, true, "C", "M", b"<s/>");
    let rels = text_of(&out, "word/_rels/document.xml.rels");
    let expected = "<?xml version=\"1.0\" encoding=\"UTF-8\" standalone=\"yes\"?>\n<Relationships xmlns=\"http://schemas.openxmlformats.org/package/2006/relationships\"><Relationships xmlns=\"http://schemas.openxmlformats.org/package/2006/relationships\">\n<Relationship Id=\"rId1\" Type=\"t/styles\" Target=\"styles.xml\"/>\n<Relationship Id=\"rId4\" Type=\"http://schemas.openxmlformats.org/officeDocument/2006/relationships/theme\" Target=\"theme/theme1.xml\"/><Relationship Id=\"rId5\" Type=\"http://schemas.openxmlformats.org/officeDocument/2006/relationships/numbering\" Target=\"numbering.xml\"/><Relationship Id=\"rId6\" Type=\"http://schemas.openxmlformats.org/officeDocument/2006/relationships/fontTable\" Target=\"fontTable.xml\"/><Relationship Id=\"rId7\" Type=\"http://schemas.openxmlformats.org/officeDocument/2006/relationships/settings\" Target=\"settings.xml\"/><Relationship Id=\"rId2\" Type=\"http://schemas.openxmlformats.org/officeDocument/2006/relationships/footer\" Target=\"footer1.xml\"/><Relationship Id=\"rId1\" Type=\"http://schemas.openxmlformats.org/officeDocument/2006/relationships/header\" Target=\"header1.xml\"/></Relationships>";
    assert_eq!(rels, expected);
}

#[test]
fn test_enrich_complete_package_is_left_alone() {
    let mut pkg = package();
    for (n, d) in [
        ("word/theme/theme1.xml", "t"),
        ("word/numbering.xml", "n"),
        ("word/fontTable.xml", "f"),
        ("word/settings.xml", "s"),
        ("docProps/core.xml", "c"),
        ("docProps/app.xml", "a"),
    ] {
        pkg.push(entry(n, d));
    }
    let out = enrich_entries(pkg.clone(), "T", "A", false, false, "C", "M", b"<s/>");
    assert_eq!(out.len(), pkg.len());
    for (a, b) in out.iter().zip(pkg.iter()) {
        assert_eq!(a.0, b.0);
        if a.0 == "word/styles.xml" {
            assert_eq!(a.1, b"<s/>".to_vec());
        } else {
            assert_eq!(a.1, b.1);
        }
    }
}

#[test]
fn test_enrich_keeps_higher_relationship_numbers() {
    let rels = "<Relationship Id=\"rId9\" Type=\"t/image\" Target=\"media/a.png\"/>";
    let pkg = vec![entry("word/_rels/document.xml.rels", rels)];
    let out = enrich_entries(pkg, "T", "A", false, false, "C", "M", b"");
    let text = text_of(&out, "word/_rels/document.xml.rels");
    assert!(text.contains("<Relationship Id=\"rId10\" Type=\"http://schemas.openxmlformats.org/officeDocument/2006/relationships/theme\" Target=\"theme/theme1.xml\"/>"));
    assert!(text.contains("Id=\"rId13\""));
    assert!(!text.contains("Id=\"rId14\""));
}
