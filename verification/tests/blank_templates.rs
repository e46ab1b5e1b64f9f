use std::io::Read;

use docworks::skill::templates::{generate_ooxml_template, template_package};

#[test]
fn test_blank_package_parts() {
    let (dirs, parts) = template_package("xlsx").unwrap();
    assert_eq!(dirs, vec!["_rels", "xl", "xl/_rels", "xl/worksheets", "xl/theme"]);
    let names: Vec<&str> = parts.iter().map(|p| p.0.as_str()).collect();
    assert_eq!(
        names,
        vec![
            "[Content_Types].xml",
            "_rels/.rels",
            "xl/workbook.xml",
            "xl/_rels/workbook.xml.rels",
            "xl/worksheets/sheet1.xml",
            "xl/styles.xml",
            "xl/sharedStrings.xml",
            "xl/theme/theme1.xml",
        ]
    );
    assert!(parts[2].1.contains("<sheet name=\"{{SHEET_NAME}}\""));
    assert_eq!(template_package("docx").unwrap().1.len(), 8);
    assert_eq!(template_package("pptx").unwrap().0.len(), 8);
    assert!(template_package("csv").is_none());
}

#[test]
fn test_generated_template_is_a_zip_of_the_parts() {
    let bytes = generate_ooxml_template("docx");
    let mut archive = zip::ZipArchive::new(std::io::Cursor::new(bytes)).unwrap();
    let (dirs, parts) = template_package("docx").unwrap();
    assert_eq!(archive.len(), dirs.len() + parts.len());
    for (name, text) in &parts {
        let mut entry = archive.by_name(name).unwrap();
        let mut got = String::new();
        entry.read_to_string(&mut got).unwrap();
        assert_eq!(&got, text);
    }
    assert!(generate_ooxml_template("csv").is_empty());
}
