use docworks::pdf_form::fields::{field_trees_end, FieldNode};
use docworks::pdf_form::PdfFormFiller;

fn node(id: u32, name: Option<&str>, ft: Option<&str>, value: Option<&str>, kids: &[u32]) -> FieldNode {
    FieldNode {
        id: (id, 0),
        name: name.map(|s| s.as_bytes().to_vec()),
        field_type: ft.map(|s| s.as_bytes().to_vec()),
        value: value.map(|s| s.as_bytes().to_vec()),
        kids: kids.iter().map(|k| (*k, 0)).collect(),
    }
}

#[test]
fn nested_fields_get_dotted_names() {
    let nodes = vec![
        node(1, Some("person"), None, None, &[2, 3]),
        node(2, Some("name"), Some("Tx"), Some("Ann"), &[]),
        node(3, None, None, None, &[4]),
        node(4, Some("age"), Some("Tx"), None, &[]),
        node(5, Some("agree"), Some("Btn"), Some("Yes"), &[]),
    ];
    let roots = vec![(1, 0), (5, 0), (9, 0)];
    assert!(field_trees_end(&nodes, &roots));
    let fields = PdfFormFiller::new().list_fields(&nodes, &roots);
    let seen: Vec<(String, String, Option<String>)> =
        fields.into_iter().map(|f| (f.name, f.field_type, f.current_value)).collect();
    assert_eq!(
        seen,
        vec![
            ("person".to_string(), "Unknown".to_string(), None),
            ("person.name".to_string(), "Tx".to_string(), Some("Ann".to_string())),
            ("person.age".to_string(), "Tx".to_string(), None),
            ("agree".to_string(), "Btn".to_string(), Some("Yes".to_string())),
        ]
    );
}

#[test]
fn utf16_field_names_are_decoded() {
    let mut n = node(1, None, Some("Tx"), None, &[]);
    n.name = Some(vec![0xFE, 0xFF, 0x00, 0x41, 0x00, 0x42]);
    let fields = PdfFormFiller::new().list_fields(&vec![n], &vec![(1, 0)]);
    assert_eq!(fields[0].name, "AB");
}

#[test]
fn cyclic_field_tree_is_refused() {
    let nodes = vec![node(1, Some("a"), None, None, &[2]), node(2, Some("b"), None, None, &[1])];
    assert!(!field_trees_end(&nodes, &vec![(1, 0)]));
}
