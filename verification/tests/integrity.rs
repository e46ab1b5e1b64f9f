use docworks::integrity::{resolve_rel_target, IntegrityValidator, ZipMember};

fn member(name: &str, content: &str) -> ZipMember {
    ZipMember {
        name: name.to_string(),
        size: content.len() as u64,
        compressed_size: if content.is_empty() { 0 } else { (content.len() as u64) / 2 + 1 },
        content: Ok(content.to_string()),
    }
}

fn dir(name: &str) -> ZipMember {
    ZipMember { name: name.to_string(), size: 0, compressed_size: 0, content: Ok(String::new()) }
}

fn test_xlsx() -> Vec<ZipMember> {
    vec![
        dir("_rels/"),
        dir("docProps/"),
        dir("xl/"),
        dir("xl/_rels/"),
        dir("xl/worksheets/"),
        dir("xl/theme/"),
        member("[Content_Types].xml", r#"<?xml version="1.0" encoding="UTF-8"?>
<Types xmlns="http://schemas.openxmlformats.org/package/2006/content-types">
  <Default Extension="rels" ContentType="application/vnd.openxmlformats-package.relationships+xml"/>
  <Default Extension="xml" ContentType="application/xml"/>
  <Override PartName="/xl/workbook.xml" ContentType="application/vnd.openxmlformats-officedocument.spreadsheetml.sheet.main+xml"/>
  <Override PartName="/xl/worksheets/sheet1.xml" ContentType="application/vnd.openxmlformats-officedocument.spreadsheetml.worksheet+xml"/>
  <Override PartName="/xl/theme/theme1.xml" ContentType="application/vnd.openxmlformats-officedocument.theme+xml"/>
  <Override PartName="/xl/styles.xml" ContentType="application/vnd.openxmlformats-officedocument.spreadsheetml.styles+xml"/>
  <Override PartName="/xl/sharedStrings.xml" ContentType="application/vnd.openxmlformats-officedocument.spreadsheetml.sharedStrings+xml"/>
  <Override PartName="/docProps/core.xml" ContentType="application/vnd.openxmlformats-package.core-properties+xml"/>
  <Override PartName="/docProps/app.xml" ContentType="application/vnd.openxmlformats-officedocument.extended-properties+xml"/>
</Types>"#),
        member("_rels/.rels", r#"<?xml version="1.0" encoding="UTF-8"?>
<Relationships xmlns="http://schemas.openxmlformats.org/package/2006/relationships">
  <Relationship Id="rId1" Type="http://schemas.openxmlformats.org/officeDocument/2006/relationships/officeDocument" Target="xl/workbook.xml"/>
  <Relationship Id="rId2" Type="http://schemas.openxmlformats.org/package/2006/relationships/metadata/core-properties" Target="docProps/core.xml"/>
  <Relationship Id="rId3" Type="http://schemas.openxmlformats.org/officeDocument/2006/relationships/extended-properties" Target="docProps/app.xml"/>
</Relationships>"#),
        member("xl/workbook.xml", r#"<?xml version="1.0" encoding="UTF-8"?>
<workbook xmlns="http://schemas.openxmlformats.org/spreadsheetml/2006/main">
  <sheets><sheet name="Sheet1" sheetId="1" r:id="rId1"/></sheets>
</workbook>"#),
        member("xl/_rels/workbook.xml.rels", r#"<?xml version="1.0" encoding="UTF-8"?>
<Relationships xmlns="http://schemas.openxmlformats.org/package/2006/relationships">
  <Relationship Id="rId1" Type="http://schemas.openxmlformats.org/officeDocument/2006/relationships/worksheet" Target="worksheets/sheet1.xml"/>
  <Relationship Id="rId2" Type="http://schemas.openxmlformats.org/officeDocument/2006/relationships/styles" Target="styles.xml"/>
  <Relationship Id="rId3" Type="http://schemas.openxmlformats.org/officeDocument/2006/relationships/theme" Target="theme/theme1.xml"/>
  <Relationship Id="rId4" Type="http://schemas.openxmlformats.org/officeDocument/2006/relationships/sharedStrings" Target="sharedStrings.xml"/>
</Relationships>"#),
        member("xl/worksheets/sheet1.xml", r#"<?xml version="1.0" encoding="UTF-8"?>
<worksheet xmlns="http://schemas.openxmlformats.org/spreadsheetml/2006/main">
  <sheetData><row r="1"><c r="A1" t="s"><v>0</v></c></row></sheetData>
</worksheet>"#),
        member("xl/styles.xml", "<?xml version=\"1.0\" encoding=\"UTF-8\"?>\n<styleSheet xmlns=\"http://schemas.openxmlformats.org/spreadsheetml/2006/main\"/>\n"),
        member("xl/sharedStrings.xml", r#"<?xml version="1.0" encoding="UTF-8"?>
<sst xmlns="http://schemas.openxmlformats.org/spreadsheetml/2006/main"><si><t>Hello</t></si></sst>"#),
        member("xl/theme/theme1.xml", r#"<?xml version="1.0" encoding="UTF-8"?>
<a:theme xmlns:a="http://schemas.openxmlformats.org/drawingml/2006/main"><a:themeElements/></a:theme>"#),
        member("docProps/core.xml", "<?xml version=\"1.0\" encoding=\"UTF-8\"?>\n<cp:coreProperties xmlns:cp=\"http://schemas.openxmlformats.org/package/2006/metadata/core-properties\"/>\n"),
        member("docProps/app.xml", r#"<?xml version="1.0" encoding="UTF-8"?>
<Properties xmlns="http://schemas.openxmlformats.org/officeDocument/2006/extended-properties">
  <Application>Microsoft Excel</Application>
</Properties>"#),
    ]
}

#[test]
fn test_valid_xlsx_passes_all_checks() {
    let report = IntegrityValidator::verify_members(&test_xlsx()).unwrap();
    assert!(report.passed, "Valid xlsx should pass all checks");
    assert_eq!(report.checks.len(), 4);
    for check in &report.checks {
        assert!(check.passed, "Check '{}' should pass: {}", check.name, check.details);
    }
}

#[test]
fn test_corrupted_file_fails_checks() {
    let members = vec![member("not_a_valid_part.xml", "this is not valid xml<<broken>>")];
    let report = IntegrityValidator::verify_members(&members).unwrap();
    assert!(!report.passed, "Corrupted file should fail integrity");
    let failed_checks: Vec<&str> = report.checks.iter().filter(|c| !c.passed).map(|c| c.name.as_str()).collect();
    assert!(failed_checks.contains(&"content_types"), "Should fail content_types check, got: {:?}", failed_checks);
}

#[test]
fn test_integrity_details_and_errors() {
    let mut members = test_xlsx();
    members.push(ZipMember { name: "../evil.xml".to_string(), size: 10, compressed_size: 0, content: Ok("<a/>".to_string()) });
    members.push(member("xl/_rels/extra.xml.rels", "<Relationship Target=\"missing.xml\"/>\n<Relationship Target=\"https://example.com\"/>"));
    members.push(member("word/empty.xml", "  \n "));
    let report = IntegrityValidator::verify_members(&members).unwrap();
    assert!(!report.passed);
    let zip = &report.checks[0];
    assert_eq!(zip.name, "zip_structure");
    assert_eq!(zip.details, "19 entries, 2 issues");
    assert_eq!(
        zip.errors.clone().unwrap(),
        vec!["'../evil.xml' is empty but declares 10 bytes".to_string(), "'../evil.xml' has unsafe path".to_string()]
    );
    let ct = &report.checks[1];
    assert!(ct.passed);
    assert!(ct.errors.is_none());
    let rels = &report.checks[2];
    assert_eq!(rels.details, "3 relationship files, 1 issues");
    assert_eq!(
        rels.errors.clone().unwrap(),
        vec!["'xl/_rels/extra.xml.rels' references 'missing.xml' — resolved to 'xl/missing.xml' not found in archive".to_string()]
    );
    let xml = &report.checks[3];
    assert!(xml.errors.clone().unwrap().contains(&"'word/empty.xml': empty XML file".to_string()));
}

#[test]
fn test_unreadable_content_types_is_an_error() {
    let members = vec![ZipMember {
        name: "[Content_Types].xml".to_string(),
        size: 3,
        compressed_size: 3,
        content: Err("stream did not contain valid UTF-8".to_string()),
    }];
    let r = IntegrityValidator::verify_members(&members);
    assert_eq!(r.err().unwrap(), "stream did not contain valid UTF-8");
}

#[test]
fn test_unreadable_archive_report() {
    let r = IntegrityValidator::unreadable_archive("invalid Zip archive");
    assert!(!r.passed);
    assert_eq!(r.checks.len(), 1);
    assert_eq!(r.checks[0].details, "Not a valid ZIP archive: invalid Zip archive");
    assert_eq!(r.checks[0].errors.clone().unwrap(), vec!["invalid Zip archive".to_string()]);
}

#[test]
fn test_resolve_rel_target() {
    assert_eq!(resolve_rel_target("_rels/.rels", "xl/workbook.xml"), "xl/workbook.xml");
    assert_eq!(resolve_rel_target("xl/_rels/workbook.xml.rels", "worksheets/sheet1.xml"), "xl/worksheets/sheet1.xml");
    assert_eq!(resolve_rel_target("xl/_rels/workbook.xml.rels", "../docProps/app.xml"), "docProps/app.xml");
    assert_eq!(resolve_rel_target("ppt/slides/_rels/slide1.xml.rels", "../media/./img.png"), "ppt/media/img.png");
    assert_eq!(resolve_rel_target("a/b.rels", "/word/document.xml"), "word/document.xml");
    assert_eq!(resolve_rel_target("top.rels", "x.xml"), "x.xml");
}
