use docworks::export::PdfExport;

#[test]
fn test_word_wrap_short() {
    let result = PdfExport::word_wrap("hello world", 80);
    assert_eq!(result.len(), 1);
    assert_eq!(result[0], "hello world");
}

#[test]
fn test_word_wrap_long() {
    let text = "a".repeat(100);
    let result = PdfExport::word_wrap(&text, 50);
    assert_eq!(result.len(), 2);
    assert_eq!(result[0].len(), 50);
    assert_eq!(result[1].len(), 50);
}

#[test]
fn test_word_wrap_empty() {
    let result = PdfExport::word_wrap("", 80);
    assert_eq!(result.len(), 1);
    assert!(result[0].is_empty());
}

#[test]
fn test_word_wrap_breaks_at_spaces() {
    let result = PdfExport::word_wrap("the quick brown fox jumps\nover", 10);
    assert_eq!(result, vec!["the quick", "brown fox", "jumps", "over"]);
}

#[test]
fn test_word_wrap_counts_bytes() {
    // "é" takes two bytes: six of them fill twelve bytes.
    let result = PdfExport::word_wrap("éééééé", 4);
    assert_eq!(result, vec!["éé", "éé", "éé"]);
}
