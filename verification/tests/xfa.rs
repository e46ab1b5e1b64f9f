use docworks::pdf_form::{decode_pdf_string, FieldInfo, PdfFormFiller};

fn fields(pairs: &[(&str, &str)]) -> Vec<(String, String)> {
    pairs.iter().map(|(k, v)| (k.to_string(), v.to_string())).collect()
}

fn summary(found: &[FieldInfo]) -> Vec<(String, String, Option<String>)> {
    found.iter().map(|f| (f.name.clone(), f.field_type.clone(), f.current_value.clone())).collect()
}

const XDP: &str = "<xdp:xdp><xfa:datasets><xfa:data><form1><Name>Alice</Name><Amount>12</Amount><Page1><Note/></Page1></form1></xfa:data></xfa:datasets></xdp:xdp>";

#[test]
fn test_decode_utf16_big_endian() {
    assert_eq!(decode_pdf_string(&[0xFE, 0xFF, 0x00, 0x41, 0x00, 0x42]), "AB");
    assert_eq!(decode_pdf_string(&[0xFE, 0xFF, 0xD8, 0x3D, 0xDE, 0x00]), "\u{1F600}");
}

#[test]
fn test_decode_utf16_little_endian_and_odd_byte() {
    assert_eq!(decode_pdf_string(&[0xFF, 0xFE, 0x41, 0x00]), "A");
    assert_eq!(decode_pdf_string(&[0xFE, 0xFF, 0x00, 0x41, 0x00]), "A");
}

#[test]
fn test_decode_falls_back_to_lossy_utf8() {
    assert_eq!(decode_pdf_string(b"Hello"), "Hello");
    assert_eq!(decode_pdf_string(&[0xFE, 0xFF, 0x00]), "\u{FFFD}\u{FFFD}\u{0}");
    assert_eq!(decode_pdf_string(&[0xFE, 0xFF, 0xD8, 0x00]), "\u{FFFD}\u{FFFD}\u{FFFD}\u{0}");
}

#[test]
fn test_collect_xfa_fields_from_xml() {
    let filler = PdfFormFiller::new();
    let (found, ok) = filler.collect_xfa_fields_xml(XDP);
    assert!(ok);
    assert_eq!(
        summary(&found),
        vec![
            ("Name".to_string(), "XFA".to_string(), Some("Alice".to_string())),
            ("Amount".to_string(), "XFA".to_string(), Some("12".to_string())),
        ]
    );
    assert_eq!(summary(&filler.collect_xfa_fields(XDP)), summary(&found));
}

#[test]
fn test_collect_xfa_fields_joins_entities() {
    let filler = PdfFormFiller::new();
    let xml = "<xfa:datasets><xfa:data><f><Co>Bob &amp; Co</Co></f></xfa:data></xfa:datasets>";
    let (found, ok) = filler.collect_xfa_fields_xml(xml);
    assert!(ok);
    assert_eq!(found.len(), 1);
    assert_eq!(found[0].name, "Co");
    assert_eq!(found[0].current_value.as_deref(), Some("Bob & Co"));
}

#[test]
fn test_collect_xfa_fields_trims_indented_text() {
    let filler = PdfFormFiller::new();
    let xml = "<xfa:datasets>\n <xfa:data>\n  <f>\n   <Name>  Ann  </Name>\n  </f>\n </xfa:data>\n</xfa:datasets>";
    let (found, ok) = filler.collect_xfa_fields_xml(xml);
    assert!(ok);
    assert_eq!(summary(&found), vec![("Name".to_string(), "XFA".to_string(), Some("Ann".to_string()))]);
}

#[test]
fn test_collect_xfa_fields_by_text() {
    let filler = PdfFormFiller::new();
    let xml = "<Name>Bob &amp; Co</Name><Empty></Empty><topSubform>x</topSubform><a:b>y</a:b><xfa:City>Paris</xfa:City><Self/>";
    assert_eq!(
        summary(&filler.collect_xfa_fields_text(xml)),
        vec![
            ("Name".to_string(), "XFA".to_string(), Some("Bob & Co".to_string())),
            ("Empty".to_string(), "XFA".to_string(), None),
            ("City".to_string(), "XFA".to_string(), Some("Paris".to_string())),
        ]
    );
}

#[test]
fn test_collect_xfa_fields_falls_back_on_bad_xml() {
    let filler = PdfFormFiller::new();
    let xml = "<Name>Ann</Name></Oops>";
    let (partial, ok) = filler.collect_xfa_fields_xml(xml);
    assert!(!ok);
    assert!(partial.is_empty());
    assert_eq!(
        summary(&filler.collect_xfa_fields(xml)),
        vec![("Name".to_string(), "XFA".to_string(), Some("Ann".to_string()))]
    );
}

#[test]
fn test_replace_xfa_values_by_text() {
    let filler = PdfFormFiller::new();
    let xml = "<form><Name>old</Name><Qty attr=\"1\">3</Qty><Self/></form>";
    let (out, n) = filler.replace_xfa_values(xml, &fields(&[("Name", "A&B"), ("Qty", "7"), ("Missing", "x")]));
    assert_eq!(out, "<form><Name>A&amp;B</Name><Qty attr=\"1\">7</Qty><Self/></form>");
    assert_eq!(n, 2);
}

#[test]
fn test_replace_xfa_values_by_xml() {
    let filler = PdfFormFiller::new();
    let xml = "<xdp:xdp><xfa:datasets><xfa:data><form1><Name>old</Name><Other>keep</Other></form1></xfa:data></xfa:datasets></xdp:xdp>";
    let (out, n) = filler.replace_xfa_values_xml(xml, &fields(&[("Name", "Ann")]));
    assert_eq!(
        out.unwrap(),
        "<xdp:xdp><xfa:datasets><xfa:data><form1><Name>Ann</Name><Other>keep</Other></form1></xfa:data></xfa:datasets></xdp:xdp>"
    );
    assert_eq!(n, 1);
}

#[test]
fn test_replace_xfa_values_xml_reports_parse_error() {
    let filler = PdfFormFiller::new();
    let (out, n) = filler.replace_xfa_values_xml("<a><b>x</a>", &fields(&[("b", "y")]));
    assert!(out.unwrap_err().starts_with("XML parse error: "));
    assert_eq!(n, 0);
}

#[test]
fn test_fill_xfa_xml() {
    let filler = PdfFormFiller::new();
    let xml = "<xdp:xdp><xfa:datasets><xfa:data><form1><Name>old</Name></form1></xfa:data></xfa:datasets></xdp:xdp>";
    let (out, n) = filler.fill_xfa_xml(xml, &fields(&[("Name", "Ann")])).unwrap();
    assert_eq!(n, 1);
    assert!(out.contains("<Name>Ann</Name>"));
    assert_eq!(
        filler.fill_xfa_xml(xml, &fields(&[("Zip", "1")])).unwrap_err(),
        "No matching XFA fields found"
    );
    let broken = "<xfa:data><Name>x</Name></Oops>";
    let (out, n) = filler.fill_xfa_xml(broken, &fields(&[("Name", "NEW")])).unwrap();
    assert_eq!(out, "<xfa:data><Name>NEW</Name></Oops>");
    assert_eq!(n, 1);
}
