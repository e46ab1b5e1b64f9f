use docworks::pdf_form::acroform::{FormEdit, FormObject};
use docworks::pdf_form::PdfFormFiller;

fn obj(id: (u32, u16), name: Option<&[u8]>, ft: Option<&str>) -> FormObject {
    FormObject {
        id,
        name: name.map(|n| n.to_vec()),
        field_type: ft.map(|t| t.as_bytes().to_vec()),
        flags: 0,
        has_kids: false,
        kids: vec![],
        parent: None,
        states: vec![],
        appearance: None,
        rect_len: 0,
    }
}

fn values(pairs: &[(&str, &str)]) -> Vec<(String, String)> {
    pairs.iter().map(|(k, v)| (k.to_string(), v.to_string())).collect()
}

fn name(id: (u32, u16), key: &str, value: &str) -> FormEdit {
    FormEdit::Name { id, key: key.to_string(), value: value.as_bytes().to_vec() }
}

fn text(id: (u32, u16), key: &str, value: &str) -> FormEdit {
    FormEdit::Text { id, key: key.to_string(), value: value.as_bytes().to_vec() }
}

#[test]
fn test_text_field_gets_value_and_appearance() {
    let mut f = obj((1, 0), Some(b"Name"), Some("Tx"));
    f.appearance = Some(b"/Helv 0 Tf 0 g".to_vec());
    f.rect_len = 4;
    let (edits, n) = PdfFormFiller::new().plan_acroform_fill(&vec![f], &vec![(1, 0)], &values(&[("Name", "Ann")]));
    assert_eq!(n, 1);
    assert_eq!(
        edits,
        vec![
            text((1, 0), "V", "Ann"),
            text((1, 0), "DV", "Ann"),
            FormEdit::Appearance { id: (1, 0), value: "Ann".to_string(), da: "/Helv 0 Tf 0 g".to_string() },
        ]
    );
}

#[test]
fn test_checkbox_takes_its_on_state() {
    let mut f = obj((2, 0), Some(b"Agree"), Some("Btn"));
    f.states = vec![b"Off".to_vec(), b"Yes_6".to_vec()];
    let (edits, n) = PdfFormFiller::new().plan_acroform_fill(&vec![f], &vec![(2, 0)], &values(&[("Agree", "yes")]));
    assert_eq!(n, 1);
    assert_eq!(edits, vec![name((2, 0), "AS", "Yes_6"), name((2, 0), "V", "Yes_6"), name((2, 0), "DV", "Yes_6")]);
}

#[test]
fn test_radio_group_selects_the_matching_kid() {
    let mut group = obj((3, 0), Some(b"Choice"), Some("Btn"));
    group.flags = 0x8000;
    group.has_kids = true;
    group.kids = vec![(4, 0), (5, 0)];
    let mut a = obj((4, 0), None, None);
    a.states = vec![b"A".to_vec(), b"Off".to_vec()];
    let mut b = obj((5, 0), None, None);
    b.states = vec![b"B".to_vec(), b"Off".to_vec()];
    let (edits, n) = PdfFormFiller::new().plan_acroform_fill(&vec![group, a, b], &vec![(3, 0), (4, 0), (5, 0)], &values(&[("Choice", "B")]));
    assert_eq!(n, 1);
    assert_eq!(edits, vec![name((3, 0), "V", "B"), name((3, 0), "DV", "B"), name((4, 0), "AS", "Off"), name((5, 0), "AS", "B")]);
}

#[test]
fn test_radio_button_sets_its_group() {
    let mut group = obj((6, 0), None, Some("Btn"));
    group.kids = vec![(7, 0), (8, 0)];
    let mut one = obj((7, 0), Some(b"opt1"), Some("Btn"));
    one.parent = Some((6, 0));
    one.states = vec![b"Off".to_vec(), b"1".to_vec()];
    let mut two = obj((8, 0), None, None);
    two.states = vec![b"2".to_vec(), b"Off".to_vec()];
    let (edits, n) = PdfFormFiller::new().plan_acroform_fill(&vec![group, one, two], &vec![(7, 0)], &values(&[("opt1", "1")]));
    assert_eq!(n, 1);
    assert_eq!(edits, vec![name((6, 0), "V", "1"), name((6, 0), "DV", "1"), name((7, 0), "AS", "Off"), name((8, 0), "AS", "Off")]);
}

#[test]
fn test_fuzzy_names_choices_signatures_and_utf16_names() {
    let choice = obj((9, 0), Some(b"Customer Name"), Some("Ch"));
    let sig = obj((10, 0), Some(b"Signature"), Some("Sig"));
    let utf16 = obj((11, 0), Some(&[0xFE, 0xFF, 0x00, b'N', 0x00, b'o']), None);
    let unnamed = obj((12, 0), None, Some("Tx"));
    let (edits, n) = PdfFormFiller::new().plan_acroform_fill(
        &vec![choice, sig, utf16, unnamed],
        &vec![(9, 0), (10, 0), (11, 0), (12, 0), (13, 0)],
        &values(&[("No", "x"), ("Name", "Bob"), ("Signature", "me")]),
    );
    assert_eq!(n, 2);
    assert_eq!(edits, vec![text((9, 0), "V", "Bob"), text((9, 0), "DV", "Bob"), text((11, 0), "V", "x"), text((11, 0), "DV", "x")]);
}
