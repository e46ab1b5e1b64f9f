use docworks::formats::DocumentFormat;

#[test]
fn test_from_extension() {
    assert_eq!(DocumentFormat::from_extension("f.docx"), DocumentFormat::Docx);
    assert_eq!(DocumentFormat::from_extension("f.xlsx"), DocumentFormat::Xlsx);
    assert_eq!(DocumentFormat::from_extension("f.pptx"), DocumentFormat::Pptx);
    assert_eq!(DocumentFormat::from_extension("f.doc"), DocumentFormat::Doc);
    assert_eq!(DocumentFormat::from_extension("f.xls"), DocumentFormat::Xls);
    assert_eq!(DocumentFormat::from_extension("f.ppt"), DocumentFormat::Ppt);
    assert_eq!(DocumentFormat::from_extension("f.unknown"), DocumentFormat::Unknown);
}

#[test]
fn test_case_insensitivity() {
    assert_eq!(DocumentFormat::from_extension("f.DOCX"), DocumentFormat::Docx);
    assert_eq!(DocumentFormat::from_extension("f.XLSX"), DocumentFormat::Xlsx);
}

#[test]
fn test_mime_types() {
    assert!(DocumentFormat::Docx.mime_type().contains("word"));
    assert!(DocumentFormat::Xlsx.mime_type().contains("sheet"));
    assert!(DocumentFormat::Pptx.mime_type().contains("presentation"));
}

#[test]
fn test_is_zip_based() {
    assert!(DocumentFormat::Docx.is_zip_based());
    assert!(!DocumentFormat::Doc.is_zip_based());
    assert!(!DocumentFormat::Unknown.is_zip_based());
}

#[test]
fn extension_of_paths_with_directories_and_dots() {
    assert_eq!(DocumentFormat::from_extension("/tmp/dir.v2/report.final.DocX"), DocumentFormat::Docx);
    assert_eq!(DocumentFormat::from_extension("/tmp/dir.xlsx/"), DocumentFormat::Xlsx);
    assert_eq!(DocumentFormat::from_extension(".pptx"), DocumentFormat::Unknown);
    assert_eq!(DocumentFormat::from_extension("noext"), DocumentFormat::Unknown);
    assert_eq!(DocumentFormat::from_extension("a/b.ppt/.."), DocumentFormat::Unknown);
    assert_eq!(DocumentFormat::from_extension("a/b.ppt/."), DocumentFormat::Ppt);
}

#[test]
fn names_and_extensions() {
    assert_eq!(DocumentFormat::Xls.display_name(), "Excel 97-2003 Workbook");
    assert_eq!(DocumentFormat::Ppt.extension(), "ppt");
    assert_eq!(DocumentFormat::Unknown.mime_type(), "application/octet-stream");
    assert!(DocumentFormat::Pptx.is_writable());
    assert!(!DocumentFormat::Xls.is_writable());
}

#[test]
fn detect_by_extension_then_magic() {
    assert_eq!(DocumentFormat::detect("a.xlsx", None), Ok(DocumentFormat::Xlsx));
    assert_eq!(
        DocumentFormat::detect("missing.bin", None),
        Err("File not found: missing.bin".to_string())
    );
    assert_eq!(
        DocumentFormat::detect("short.bin", Some(&[0x50, 0x4B][..])),
        Err("failed to fill whole buffer".to_string())
    );
    let zip = [0x50u8, 0x4B, 0x03, 0x04, 0, 0, 0, 0];
    assert_eq!(DocumentFormat::detect("archive.bin", Some(&zip[..])), Ok(DocumentFormat::Unknown));
    assert_eq!(DocumentFormat::from_magic_bytes("x.docx", &zip), Ok(DocumentFormat::Docx));
    let other = [1u8, 2, 3, 4, 5, 6, 7, 8];
    assert_eq!(DocumentFormat::from_magic_bytes("x.docx", &other), Ok(DocumentFormat::Unknown));
}

#[test]
fn extension_names_its_format_again() {
    let all = [
        DocumentFormat::Docx,
        DocumentFormat::Doc,
        DocumentFormat::Xlsx,
        DocumentFormat::Xls,
        DocumentFormat::Pptx,
        DocumentFormat::Ppt,
        DocumentFormat::Unknown,
    ];
    for f in all {
        let ext = f.extension();
        assert_eq!(ext, ext.to_lowercase());
        assert_eq!(DocumentFormat::from_extension(&format!("f.{}", ext)), f);
    }
    assert_eq!(DocumentFormat::Ppt.extension(), "ppt");
}
