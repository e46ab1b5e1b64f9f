use docworks::json::{JsonNumber, JsonValue};
use docworks::validation::engine::{SkillValidationConfig, SkillValidationRule, ValidationEngine};
use docworks::validation::rules::{
    facts_countable,
    brand_colors_match, cross_references_valid, max_pages, no_empty_placeholders, ooxml_valid, styles_exist,
    OOXMLValid,
};
use docworks::validation::{ArchiveEntry, ArchiveRead, FileFacts};

fn missing() -> FileFacts {
    FileFacts { exists: false, magic: None, archive: ArchiveRead::FileError("gone".to_string()), text: None }
}

fn part(name: &str, text: &str) -> ArchiveEntry {
    ArchiveEntry { name: name.to_string(), size: text.len() as u64, data: Some(text.as_bytes().to_vec()) }
}

fn archive(entries: Vec<ArchiveEntry>) -> FileFacts {
    let total = entries.len();
    FileFacts {
        exists: true,
        magic: Some(vec![0x50, 0x4B, 0x03, 0x04]),
        archive: ArchiveRead::Opened { entries, total },
        text: None,
    }
}

fn docx_parts() -> Vec<ArchiveEntry> {
    vec![
        part("[Content_Types].xml", "<?xml version=\"1.0\"?><Types/>"),
        part("word/document.xml", "<w:document><w:sectPr/><w:br w:type=\"page\"/><w:instrText>SEQ x</w:instrText></w:document>"),
        part("word/styles.xml", "<w:styles><w:style w:styleId=\"Heading1\"/></w:styles>"),
        part("theme/theme1.xml", "<a:theme><a:srgbClr val=\"1A1A2E\"/></a:theme>"),
    ]
}

#[test]
fn test_engine_runs_all_rules() {
    let engine = ValidationEngine::new();
    let report = engine.validate("/nonexistent/file.docx", &missing(), None, None);
    assert!(!report.passed);
    assert!(!report.checks.is_empty());
    assert!(report.duration_ms < 1000);
}

#[test]
fn test_engine_runs_selected_checks() {
    let engine = ValidationEngine::new();
    let check_names = vec!["ooxml_valid".to_string()];
    let report = engine.validate("/nonexistent/file.docx", &missing(), Some(&check_names), None);
    assert_eq!(report.checks.len(), 1);
    assert_eq!(report.checks[0].rule, "ooxml_valid");
}

#[test]
fn report_summary_counts_passed_checks() {
    let engine = ValidationEngine::new();
    let names = vec!["ooxml_valid".to_string(), "max_pages".to_string(), "no_such_rule".to_string()];
    let report = engine.validate("/d/report.docx", &archive(docx_parts()), Some(&names), None);
    assert_eq!(report.checks.len(), 2);
    assert_eq!(report.summary, "2/2 checks passed");
    assert!(report.passed);
}

#[test]
fn ooxml_valid_outcomes() {
    let c = ooxml_valid("/d/a.docx", &missing());
    assert!(!c.passed);
    assert_eq!(c.details.as_deref(), Some("File not found: /d/a.docx"));
    let c = ooxml_valid("/d/a.txt", &archive(vec![]));
    assert!(c.passed);
    assert_eq!(c.details.as_deref(), Some("OOXML check skipped for non-OOXML format: .txt"));
    let mut bad = archive(vec![]);
    bad.magic = Some(vec![1, 2, 3, 4]);
    assert_eq!(ooxml_valid("/d/a.docx", &bad).details.as_deref(), Some("Not a valid ZIP archive (bad magic bytes)"));
    let c = ooxml_valid("/d/a.docx", &archive(docx_parts()));
    assert!(c.passed);
    assert_eq!(c.details.as_deref(), Some("Valid OOXML archive with 4 entries"));
    let c = ooxml_valid(
        "/d/a.xlsx",
        &archive(vec![
            part("x.xml", "not xml"),
            ArchiveEntry { name: "y.xml".to_string(), size: 0, data: Some(vec![]) },
        ]),
    );
    assert!(!c.passed);
    assert_eq!(
        c.details.as_deref(),
        Some("Missing parts: [Content_Types].xml, xl/workbook.xml; Malformed XML: x.xml; Empty entries: y.xml")
    );
    assert_eq!(OOXMLValid.name(), "ooxml_valid");
}

#[test]
fn styles_exist_outcomes() {
    let c = styles_exist("/d/a.docx", &archive(docx_parts()), None);
    assert!(c.passed);
    assert_eq!(c.details.as_deref(), Some("Required styles files found"));
    let wanted = JsonValue::Array(vec![JsonValue::Str("Heading1".to_string()), JsonValue::Str("Quote".to_string())]);
    let c = styles_exist("/d/a.docx", &archive(docx_parts()), Some(&wanted));
    assert!(!c.passed);
    assert_eq!(c.details.as_deref(), Some("Required styles not found: Quote"));
    let c = styles_exist("/d/a.pptx", &archive(vec![part("ppt/styles.xml", "")]), None);
    assert!(c.passed);
    assert_eq!(c.details.as_deref(), Some("Some optional styles present, missing: ppt/theme/theme1.xml"));
    let c = styles_exist("/d/a.xlsx", &archive(vec![]), None);
    assert!(!c.passed);
    assert_eq!(c.details.as_deref(), Some("Required styles not found: xl/styles.xml"));
    let c = styles_exist("/d/a.md", &archive(vec![]), None);
    assert_eq!(c.details.as_deref(), Some("Styles check not applicable for .md format"));
}

#[test]
fn brand_colors_outcomes() {
    let cfg = JsonValue::Object(vec![
        ("accent".to_string(), JsonValue::Str("#6c5ce7".to_string())),
        ("primary".to_string(), JsonValue::Str("#1A1A2E".to_string())),
    ]);
    let c = brand_colors_match("/d/a.docx", &archive(docx_parts()), Some(&cfg));
    assert!(!c.passed);
    assert_eq!(c.details.as_deref(), Some("accent color #6c5ce7 not found in theme"));
    let c = brand_colors_match("/d/a.docx", &archive(docx_parts()), None);
    assert!(c.passed);
    assert_eq!(c.details.as_deref(), Some("Theme file found with valid theme elements"));
    let c = brand_colors_match("/d/a.docx", &archive(vec![]), None);
    assert_eq!(c.details.as_deref(), Some("No theme file found in OOXML archive"));
    let c = brand_colors_match("/d/a.pdf", &archive(vec![]), None);
    assert!(c.passed);
}

#[test]
fn cross_references_counts() {
    let c = cross_references_valid("/d/a.docx", &archive(docx_parts()));
    assert!(c.passed);
    assert_eq!(c.details.as_deref(), Some("Found 2 references, 0 captions, 1 sequence fields"));
    let mut facts = archive(vec![]);
    facts.archive = ArchiveRead::ZipError("bad".to_string());
    let c = cross_references_valid("/d/a.pptx", &facts);
    assert!(!c.passed);
    assert_eq!(c.details.as_deref(), Some("Invalid OOXML archive: bad"));
}

#[test]
fn placeholders_found_and_fix_suggested() {
    let facts = archive(vec![part("word/document.xml", "<w:t>Dear {name}, {name} and {date}</w:t>")]);
    let c = no_empty_placeholders("/d/a.docx", &facts).unwrap();
    assert!(!c.passed);
    assert_eq!(c.details.as_deref(), Some("Found 2 placeholder(s): {name}, {date}"));
    assert_eq!(c.fix_tool.as_deref(), Some("office_replace_text"));
    match c.fix_args {
        Some(JsonValue::Object(fs)) => {
            assert_eq!(fs[0].0, "file_path");
            assert_eq!(fs[1].0, "placeholders");
        }
        _ => panic!("expected fix arguments"),
    }
    let mut plain = missing();
    plain.exists = true;
    plain.text = Some("no braces".to_string());
    let c = no_empty_placeholders("/d/a.md", &plain).unwrap();
    assert!(c.passed);
    assert!(c.details.is_none());
}

#[test]
fn max_pages_limits() {
    let c = max_pages("/d/a.docx", &archive(docx_parts()), None);
    assert!(c.passed);
    assert_eq!(c.details.as_deref(), Some("2 page(s) within limit of 10"));
    let limit = JsonValue::Number(JsonNumber::PosInt(1));
    let c = max_pages("/d/a.docx", &archive(docx_parts()), Some(&limit));
    assert!(!c.passed);
    assert_eq!(c.details.as_deref(), Some("2 page(s) exceeds max allowed (1)"));
    let c = max_pages("/d/a.pptx", &archive(vec![]), None);
    assert_eq!(c.details.as_deref(), Some("1 page(s) within limit of 15"));
}

#[test]
fn skill_config_limits_rules_and_supplies_parameters() {
    let config = SkillValidationConfig {
        rules: vec![
            SkillValidationRule::Simple("ooxml_valid".to_string()),
            SkillValidationRule::WithConfig { name: "max_pages".to_string(), params: JsonValue::Number(JsonNumber::PosInt(1)) },
        ],
    };
    let engine = ValidationEngine::from_skill_config(config);
    let report = engine.validate("/d/a.docx", &archive(docx_parts()), None, None);
    assert_eq!(report.checks.len(), 2);
    assert_eq!(report.checks[1].rule, "max_pages");
    assert!(!report.checks[1].passed);
    assert_eq!(report.summary, "1/2 checks passed");
    let runtime = JsonValue::Object(vec![("max_pages".to_string(), JsonValue::Number(JsonNumber::PosInt(5)))]);
    let report = engine.validate("/d/a.docx", &archive(docx_parts()), None, Some(&runtime));
    assert!(report.passed);
}

#[test]
fn ordinary_archives_are_countable() {
    let facts = FileFacts {
        exists: true,
        magic: None,
        archive: ArchiveRead::Opened {
            entries: vec![part("word/document.xml", "<w:sectPr/><w:instrText>REF</w:instrText>")],
            total: 1,
        },
        text: None,
    };
    assert!(facts_countable(&facts));
    let missing = FileFacts { exists: false, magic: None, archive: ArchiveRead::FileError("gone".to_string()), text: None };
    assert!(facts_countable(&missing));
}
