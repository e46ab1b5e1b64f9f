use std::io::Write;

use docworks::package::{archive_facts, find_part, read_docx_xml, read_package, read_part_text, zip_members};
use docworks::validation::ArchiveRead;

fn package(parts: &[(&str, &[u8])]) -> Vec<u8> {
    let mut zip = zip::ZipWriter::new(std::io::Cursor::new(Vec::new()));
    let opts = zip::write::SimpleFileOptions::default();
    for (name, data) in parts {
        zip.start_file(*name, opts).unwrap();
        zip.write_all(data).unwrap();
    }
    zip.finish().unwrap().into_inner()
}

#[test]
fn package_reads_back_every_entry_in_order() {
    let bytes = package(&[("a.xml", b"<a/>"), ("b/c.xml", b"<c/>")]);
    let entries = read_package(&bytes).unwrap();
    assert_eq!(entries.len(), 2);
    assert_eq!(entries[0].0, "a.xml");
    assert_eq!(entries[0].1, b"<a/>".to_vec());
    assert_eq!(entries[1].0, "b/c.xml");
    assert_eq!(entries[1].1, b"<c/>".to_vec());
}

#[test]
fn package_that_does_not_open_says_so() {
    let err = read_package(b"plain text").unwrap_err();
    assert!(err.0);
    assert!(!err.1.is_empty());
}

#[test]
fn parts_are_found_by_name() {
    let bytes = package(&[("a.xml", b"<a/>"), ("word/comments.xml", b"<w:comments/>"), ("bad.xml", &[0xff, 0xfe])]);
    let entries = read_package(&bytes).unwrap();
    assert_eq!(find_part(&entries, "word/comments.xml"), Some(1));
    assert_eq!(find_part(&entries, "missing.xml"), None);
    assert_eq!(read_part_text(&entries, "word/comments.xml"), Some("<w:comments/>".to_string()));
    assert_eq!(read_part_text(&entries, "bad.xml"), None);
    assert_eq!(read_part_text(&entries, "missing.xml"), None);
}

#[test]
fn docx_main_part_is_read() {
    let bytes = package(&[("word/document.xml", "<w:document>é</w:document>".as_bytes())]);
    assert_eq!(read_docx_xml(&bytes), Ok("<w:document>é</w:document>".to_string()));
}

#[test]
fn docx_without_main_part_is_refused() {
    let bytes = package(&[("xl/workbook.xml", b"<workbook/>")]);
    assert_eq!(read_docx_xml(&bytes), Err("No word/document.xml found in docx".to_string()));
}

#[test]
fn docx_main_part_that_is_not_utf8_is_refused() {
    let bytes = package(&[("word/document.xml", &[0x3c, 0xff])]);
    assert_eq!(
        read_docx_xml(&bytes),
        Err("Failed to read document.xml: stream did not contain valid UTF-8".to_string())
    );
}

#[test]
fn docx_that_is_no_archive_is_refused() {
    let err = read_docx_xml(b"not a zip").unwrap_err();
    assert!(err.starts_with("Failed to open zip: "));
}

#[test]
fn archive_facts_list_every_member_with_its_bytes() {
    let bytes = package(&[("a.xml", b"<a/>"), ("b.bin", &[1, 2, 3])]);
    match archive_facts(&bytes) {
        ArchiveRead::Opened { entries, total } => {
            assert_eq!(total, 2);
            assert_eq!(entries.len(), 2);
            assert_eq!(entries[0].name, "a.xml");
            assert_eq!(entries[0].size, 4);
            assert_eq!(entries[0].data, Some(b"<a/>".to_vec()));
            assert_eq!(entries[1].data, Some(vec![1, 2, 3]));
        }
        _ => panic!("the archive opens"),
    }
}

#[test]
fn archive_facts_report_what_is_no_archive() {
    assert!(matches!(archive_facts(b"just text"), ArchiveRead::ZipError(_)));
}

#[test]
fn zip_members_give_text_or_why_not() {
    let bytes = package(&[("a.xml", b"<a/>"), ("b.bin", &[0xff])]);
    let members = zip_members(&bytes).ok().unwrap();
    assert_eq!(members.len(), 2);
    assert_eq!(members[0].name, "a.xml");
    assert_eq!(members[0].size, 4);
    assert_eq!(members[0].content, Ok("<a/>".to_string()));
    assert_eq!(members[1].content, Err("stream did not contain valid UTF-8".to_string()));
    let err = zip_members(b"nothing").err().unwrap();
    assert!(err.0);
}
