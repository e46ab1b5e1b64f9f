use docworks::pdf_form::page_texts;

fn some(s: &str) -> Option<String> {
    Some(s.to_string())
}

#[test]
fn test_pages_split_at_line_breaks() {
    let chunks = vec![some("Hello "), some("world"), some("\nPage two "), None, some("end"), some("\n")];
    assert_eq!(
        page_texts(&chunks),
        vec![(1, "Hello world".to_string()), (2, "Page two end".to_string()), (3, String::new())]
    );
}

#[test]
fn test_no_text_gives_no_pages() {
    assert!(page_texts(&vec![None, some("")]).is_empty());
    assert_eq!(page_texts(&vec![some("\n one \n")]), vec![(1, "one".to_string())]);
}
