use docworks::writers::word::{fix_docx_rels, fix_rels_text};

#[test]
fn test_doubled_relationships_tag_is_removed() {
    let doubled = "<?xml?><Relationships a=\"1\"><Relationships a=\"1\"><R/></Relationships>";
    assert_eq!(fix_rels_text(doubled), "<?xml?><Relationships a=\"1\"><R/></Relationships>");
}

#[test]
fn test_single_leading_tag_is_kept() {
    let single = "<Relationships a=\"1\"><R/></Relationships>";
    assert_eq!(fix_rels_text(single), single);
}

#[test]
fn test_only_the_document_relationships_part_changes() {
    let doubled = b"<Relationships><Relationships x=\"y\"><R/></Relationships>".to_vec();
    let entries = vec![
        ("word/document.xml".to_string(), doubled.clone()),
        ("word/_rels/document.xml.rels".to_string(), doubled),
    ];
    let fixed = fix_docx_rels(entries);
    assert_eq!(fixed[0].1, b"<Relationships><Relationships x=\"y\"><R/></Relationships>".to_vec());
    assert_eq!(fixed[1].0, "word/_rels/document.xml.rels");
    assert_eq!(String::from_utf8(fixed[1].1.clone()).unwrap(), "<Relationships><R/></Relationships>");
}
