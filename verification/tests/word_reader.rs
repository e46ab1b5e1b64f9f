use docworks::readers::word::{
    content_blocks_to_markdown, detect_list_item, extract_attr, extract_comments, extract_content_blocks,
    changes_readable, comments_readable, extract_tracked_changes, is_list_style, read_word_to_chunks, read_word_to_md, split_markdown_into_chunks,
    CommentEntry, ContentBlock, RunInfo, TableRow, TrackedChange, WordMetadata,
};

const BODY: &str = "<w:document><w:body>\
<w:p><w:pPr><w:pStyle w:val=\"Heading2\"/></w:pPr><w:r><w:t>Intro</w:t></w:r></w:p>\
<w:p><w:r><w:rPr><w:b/></w:rPr><w:t>Bold</w:t></w:r><w:r><w:t>plain &amp; simple</w:t></w:r></w:p>\
<w:p><w:pPr><w:pStyle w:val=\"ListNumber2\"/><w:numPr/></w:pPr><w:r><w:t>first</w:t></w:r></w:p>\
<w:tbl><w:tr><w:tc><w:p><w:r><w:t>A</w:t></w:r></w:p></w:tc><w:tc><w:p><w:r><w:t>B</w:t></w:r></w:p></w:tc></w:tr></w:tbl>\
</w:body></w:document>";

fn run(text: &str) -> RunInfo {
    RunInfo { text: text.to_string(), bold: None, italic: None, underline: None, strike: None, color: None, font: None }
}

#[test]
fn blocks_of_a_body() {
    let blocks = extract_content_blocks(BODY.as_bytes()).unwrap();
    assert_eq!(blocks.len(), 4);
    match &blocks[0] {
        ContentBlock::Heading { text, level } => {
            assert_eq!(text, "Intro");
            assert_eq!(*level, 2);
        }
        _ => panic!("heading expected"),
    }
    match &blocks[1] {
        ContentBlock::Paragraph { text, style, runs } => {
            assert_eq!(text, "Bold plain&simple");
            assert!(style.is_none());
            assert_eq!(runs.len(), 2);
            assert_eq!(runs[0].bold, Some(true));
            assert_eq!(runs[1].bold, None);
        }
        _ => panic!("paragraph expected"),
    }
    match &blocks[2] {
        ContentBlock::ListItem { text, level, ordered } => {
            assert_eq!(text, "first");
            assert_eq!(*level, 2);
            assert!(*ordered);
        }
        _ => panic!("list item expected"),
    }
    match &blocks[3] {
        ContentBlock::Table { rows } => {
            assert_eq!(rows.len(), 1);
            assert_eq!(rows[0].cells, vec!["A".to_string(), "B".to_string()]);
        }
        _ => panic!("table expected"),
    }
}

#[test]
fn parse_error_is_reported() {
    let err = extract_content_blocks(b"<w:body><w:p></w:body>").unwrap_err();
    assert!(err.starts_with("XML parse error: "));
}

#[test]
fn markdown_of_blocks() {
    let mut bold = run("Bold");
    bold.bold = Some(true);
    let blocks = vec![
        ContentBlock::Heading { text: "Title".to_string(), level: 1 },
        ContentBlock::Paragraph { text: String::new(), style: None, runs: vec![bold, run("text")] },
        ContentBlock::ListItem { text: "item".to_string(), level: 1, ordered: false },
        ContentBlock::Table {
            rows: vec![
                TableRow { cells: vec!["a".to_string(), "b\nc".to_string()] },
                TableRow { cells: vec!["d".to_string()] },
            ],
        },
        ContentBlock::Image { alt_text: None, width_emu: 0, height_emu: 0 },
    ];
    assert_eq!(
        content_blocks_to_markdown(&blocks),
        "# Title\n\n**Bold** text\n\n  - item\n| a | b c |\n|---|---|\n| d | |\n\n![image](image.png)"
    );
}

#[test]
fn markdown_of_a_document() {
    let meta = WordMetadata {
        title: "Plan".to_string(),
        author: String::new(),
        subject: String::new(),
        keywords: "a, b".to_string(),
        word_count: 3,
    };
    let blocks = vec![ContentBlock::Heading { text: "H".to_string(), level: 2 }];
    let comments = vec![CommentEntry { id: "0".to_string(), author: "Ann".to_string(), text: "ok".to_string(), target_text: None }];
    let changes = vec![TrackedChange { text: "new".to_string(), is_insertion: true, author: None, date: None }];
    assert_eq!(
        read_word_to_md(&meta, &blocks, &comments, &changes),
        "---\ntitle: \"Plan\"\nkeywords: [a, b]\nword_count: 3\n---\n\n## H\n\n---\n\n## Comments\n\n> **Ann:** ok\n>\n\n\n---\n\n## Tracked Changes\n\n- <ins>new</ins>\n"
    );
}

#[test]
fn chunks_follow_headings() {
    let chunks = split_markdown_into_chunks("intro\n# One\nbody\n## Two\nmore\n", "doc.docx");
    assert_eq!(chunks.len(), 3);
    assert_eq!(chunks[0].heading, None);
    assert_eq!(chunks[0].text, "intro");
    assert_eq!(chunks[1].heading.as_deref(), Some("One"));
    assert_eq!(chunks[1].heading_level, Some(1));
    assert_eq!(chunks[2].heading_level, Some(2));
    assert_eq!(chunks[2].metadata.chunk_type, "section");
    assert_eq!(chunks[2].metadata.source, "doc.docx");
    let only_headings = split_markdown_into_chunks("# A\n# B", "d");
    assert_eq!(only_headings.len(), 1);
    assert_eq!(only_headings[0].metadata.chunk_type, "full");
    assert_eq!(only_headings[0].text, "# A\n# B");
}

#[test]
fn chunks_skip_front_matter() {
    let chunks = read_word_to_chunks("---\ntitle: \"x\"\n---\n\n# Head\ntext", "f.docx");
    assert_eq!(chunks.len(), 1);
    assert_eq!(chunks[0].text, "text");
}

#[test]
fn comments_and_changes() {
    let xml = "<w:comments><w:comment w:id=\"1\" w:author=\"Bo\"><w:p><w:r><w:t>Fix</w:t></w:r><w:r><w:t>this</w:t></w:r></w:p></w:comment></w:comments>";
    let cs = extract_comments(xml);
    assert_eq!(cs.len(), 1);
    assert_eq!(cs[0].id, "1");
    assert_eq!(cs[0].author, "Bo");
    assert_eq!(cs[0].text, "Fix this");
    let doc = "<w:p><w:del w:author=\"Al\"><w:r><w:delText>old</w:delText></w:r></w:del><w:ins w:author=\"Al\" w:date=\"2024\"><w:r><w:t>new</w:t></w:r></w:ins></w:p>";
    let ch = extract_tracked_changes(doc);
    assert_eq!(ch.len(), 2);
    assert!(ch[0].is_insertion);
    assert_eq!(ch[0].text, "new");
    assert_eq!(ch[0].date.as_deref(), Some("2024"));
    assert!(!ch[1].is_insertion);
    assert_eq!(ch[1].text, "old");
    assert_eq!(ch[1].date.as_deref(), Some("2024"));
}

#[test]
fn attributes_and_list_detection() {
    assert_eq!(extract_attr("<x a=\"1\" b=\"2\">", "b=\"", "\""), "2");
    assert_eq!(extract_attr("<x>", "b=\"", "\""), "");
    assert_eq!(is_list_style(Some("ListBullet3")), Some((3, false)));
    assert_eq!(is_list_style(Some("listnumber")), Some((0, true)));
    assert_eq!(is_list_style(Some("Normal")), None);
    assert_eq!(detect_list_item("  - item"), Some((0, false)));
    assert_eq!(detect_list_item("\u{25E6} sub"), Some((1, false)));
    assert_eq!(detect_list_item("3) third"), Some((0, true)));
    assert_eq!(detect_list_item("(4) fourth"), Some((0, true)));
    assert_eq!(detect_list_item("plain"), None);
}

#[test]
fn comments_in_order_are_readable() {
    let xml = "<w:comments><w:comment w:id=\"1\" w:author=\"Ann\"><w:p><w:r><w:t>Hi</w:t></w:r></w:p></w:comment></w:comments>";
    assert!(comments_readable(xml));
    assert!(comments_readable(""));
}

#[test]
fn comment_closed_before_its_tag_ends_is_unreadable() {
    let xml = "<w:comment </w:comment> >";
    assert!(!comments_readable(xml));
}

#[test]
fn changes_in_order_are_readable() {
    let doc = "<w:ins w:author=\"A\"><w:r><w:t>new</w:t></w:r></w:ins><w:del w:author=\"B\"><w:r><w:delText>old</w:delText></w:r></w:del>";
    assert!(changes_readable(doc));
}

#[test]
fn change_closed_before_its_tag_ends_is_unreadable() {
    assert!(!changes_readable("<w:del </w:del> >"));
    assert!(!changes_readable("<w:ins </w:ins> >"));
}
