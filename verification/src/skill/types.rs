use vstd::prelude::*;

verus! {

#[derive(Debug, Clone, Copy, PartialEq, Eq, Structural)]
pub enum SkillCategory {
    Excel,
    Word,
    Ppt,
}

impl SkillCategory {
    pub fn as_str(&self) -> (r: &'static str)
        ensures
            r@ == (match *self {
                SkillCategory::Excel => "excel"@,
                SkillCategory::Word => "word"@,
                SkillCategory::Ppt => "ppt"@,
            }),
    {
        match self {
            SkillCategory::Excel => "excel",
            SkillCategory::Word => "word",
            SkillCategory::Ppt => "ppt",
        }
    }

    /// The file extension a skill of this category produces.
    pub fn format(&self) -> (r: &'static str)
        ensures
            r@ == (match *self {
                SkillCategory::Excel => "xlsx"@,
                SkillCategory::Word => "docx"@,
                SkillCategory::Ppt => "pptx"@,
            }),
    {
        match self {
            SkillCategory::Excel => "xlsx",
            SkillCategory::Word => "docx",
            SkillCategory::Ppt => "pptx",
        }
    }

    pub fn icon(&self) -> (r: &'static str)
        ensures
            r@ == (match *self {
                SkillCategory::Excel => "\u{1F4CA}"@,
                SkillCategory::Word => "\u{1F4DD}"@,
                SkillCategory::Ppt => "\u{1F4FD}\u{FE0F}"@,
            }),
    {
        match self {
            SkillCategory::Excel => "\u{1F4CA}",
            SkillCategory::Word => "\u{1F4DD}",
            SkillCategory::Ppt => "\u{1F4FD}\u{FE0F}",
        }
    }
}

#[derive(Debug, Clone, Copy, PartialEq, Eq, Structural)]
pub enum SkillInputType {
    String,
    Number,
    Integer,
    Boolean,
    Array,
    Object,
}

impl SkillInputType {
    pub fn as_str(&self) -> (r: &'static str)
        ensures
            r@ == (match *self {
                SkillInputType::String => "string"@,
                SkillInputType::Number => "number"@,
                SkillInputType::Integer => "integer"@,
                SkillInputType::Boolean => "boolean"@,
                SkillInputType::Array => "array"@,
                SkillInputType::Object => "object"@,
            }),
    {
        match self {
            SkillInputType::String => "string",
            SkillInputType::Number => "number",
            SkillInputType::Integer => "integer",
            SkillInputType::Boolean => "boolean",
            SkillInputType::Array => "array",
            SkillInputType::Object => "object",
        }
    }
}

#[derive(Debug, Clone)]
pub struct SkillOutput {
    pub name: String,
    pub output_type: SkillOutputType,
    pub description: String,
}

#[derive(Debug, Clone, Copy, PartialEq, Eq, Structural)]
pub enum SkillOutputType {
    String,
    Integer,
    Number,
    Array,
    Object,
}

impl SkillOutputType {
    pub fn as_str(&self) -> (r: &'static str)
        ensures
            r@ == (match *self {
                SkillOutputType::String => "string"@,
                SkillOutputType::Integer => "integer"@,
                SkillOutputType::Number => "number"@,
                SkillOutputType::Array => "array"@,
                SkillOutputType::Object => "object"@,
            }),
    {
        match self {
            SkillOutputType::String => "string",
            SkillOutputType::Integer => "integer",
            SkillOutputType::Number => "number",
            SkillOutputType::Array => "array",
            SkillOutputType::Object => "object",
        }
    }
}

#[derive(Debug, Clone)]
pub struct SkillTemplates {
    pub primary: String,
    pub description: String,
}

#[derive(Debug, Clone)]
pub struct SkillPlaceholder {
    pub name: String,
    pub placeholder_type: SkillPlaceholderType,
    pub description: String,
}

#[derive(Debug, Clone, Copy, PartialEq, Eq, Structural)]
pub enum SkillPlaceholderType {
    String,
    Number,
    Integer,
    Table,
    Array,
    Text,
    Markup,
    Style,
}

#[derive(Debug, Clone)]
pub struct FontSettings {
    pub family: String,
    pub size: u32,
}

/// Font family used when a skill's font settings name none.
pub fn default_font_family() -> (r: String)
    ensures
        r@ == "Calibri"@,
{
    "Calibri".to_owned()
}

/// Font size used when a skill's font settings give none.
pub fn default_font_size() -> (r: u32)
    ensures
        r == 11,
{
    11
}

#[derive(Debug, Clone)]
pub struct HeaderSettings {
    pub bold: bool,
    pub fill: String,
    pub font_color: String,
    pub height: Option<u32>,
}

#[derive(Debug, Clone)]
pub struct MarginSettings {
    pub top: u32,
    pub bottom: u32,
    pub left: u32,
    pub right: u32,
}

#[derive(Debug, Clone)]
pub struct BorderSettings {
    pub style: String,
    pub color: String,
}

#[derive(Debug, Clone)]
pub struct HeadingSettings {
    pub font_size: u32,
    pub bold: bool,
    pub color: String,
    pub space_before: u32,
    pub space_after: u32,
}

#[derive(Debug, Clone)]
pub struct CoverSettings {
    pub title_font_size: u32,
    pub title_color: String,
    pub subtitle_font_size: u32,
    pub subtitle_color: String,
}

#[derive(Debug, Clone)]
pub struct SlideThemeSettings {
    pub title_font_size: u32,
    pub title_color: String,
    pub background: String,
    pub subtitle_font_size: Option<u32>,
    pub subtitle_color: Option<String>,
    pub body_font_size: Option<u32>,
    pub body_color: Option<String>,
}

#[derive(Debug, Clone)]
pub struct ThemeColors {
    pub background: String,
    pub title_color: String,
    pub body_color: String,
    pub accent_color: String,
}

#[derive(Debug, Clone)]
pub struct CodeSettings {
    pub font_family: String,
    pub font_size: u32,
    pub fill: String,
}

#[derive(Debug, Clone)]
pub struct BlockquoteSettings {
    pub italic: bool,
    pub color: String,
    pub left_indent: u32,
}

#[derive(Debug, Clone)]
pub struct ListSettings {
    pub left_indent: u32,
    pub hanging_indent: u32,
}

#[derive(Debug, Clone)]
pub struct LineItemsSettings {
    pub header_fill: String,
    pub header_bold: bool,
    pub even_fill: String,
    pub odd_fill: String,
    pub borders: bool,
}

#[derive(Debug, Clone)]
pub struct TotalsSettings {
    pub font_size: u32,
    pub bold: bool,
}

#[derive(Debug, Clone)]
pub struct TotalDueSettings {
    pub font_size: u32,
    pub bold: bool,
    pub color: String,
}

#[derive(Debug, Clone)]
pub struct RowSettings {
    pub fill: String,
}

#[derive(Debug, Clone)]
pub struct PivotHeaderSettings {
    pub bold: bool,
    pub fill: String,
}

#[derive(Debug, Clone)]
pub struct ChartSettings {
    pub width: u32,
    pub height: u32,
    pub style: u32,
    pub colors: Vec<String>,
}

#[derive(Debug, Clone)]
pub struct BulletSettings {
    pub font_size: u32,
    pub indent_levels: Vec<IndentLevel>,
}

#[derive(Debug, Clone)]
pub struct IndentLevel {
    pub left_margin: u32,
}

#[derive(Debug, Clone)]
pub struct CompanyInfoSettings {
    pub font_size: u32,
    pub color: String,
}

#[derive(Debug, Clone, Copy, PartialEq, Eq, Structural)]
pub enum ValidationRuleType {
    Assert,
    Regex,
    Enum,
    Custom,
}

#[derive(Debug, Clone)]
pub struct ValidationResult {
    pub skill_name: String,
    pub passed: bool,
    pub rule_results: Vec<RuleResult>,
}

#[derive(Debug, Clone)]
pub struct RuleResult {
    pub rule_name: String,
    pub passed: bool,
    pub message: String,
}

/// A rule a skill checks its inputs with.
pub struct ValidationRule {
    pub name: String,
    pub rule_type: ValidationRuleType,
    pub field: String,
    pub message: String,
    pub pattern: Option<String>,
    pub values: Option<Vec<String>>,
    pub depends_on: Option<String>,
}

} // verus!
