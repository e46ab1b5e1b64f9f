//! Skills as the registry stores them: category, outputs, placeholders,
//! validation results, and the checks on names and versions.
pub mod registry;
pub mod runner;

use vstd::prelude::*;

verus! {

#[derive(Debug, Clone, Copy, PartialEq, Eq, Structural)]
pub enum SkillCategory {
    Excel,
    Word,
    Ppt,
    Multi,
}

impl Default for SkillCategory {
    fn default() -> (r: SkillCategory)
        ensures
            r == SkillCategory::Excel,
    {
        SkillCategory::Excel
    }
}

impl SkillCategory {
    pub fn as_str(&self) -> (r: &'static str)
        ensures
            r@ == (match *self {
                SkillCategory::Excel => "excel"@,
                SkillCategory::Word => "word"@,
                SkillCategory::Ppt => "ppt"@,
                SkillCategory::Multi => "multi"@,
            }),
    {
        match self {
            SkillCategory::Excel => "excel",
            SkillCategory::Word => "word",
            SkillCategory::Ppt => "ppt",
            SkillCategory::Multi => "multi",
        }
    }

    /// The output format of a skill of this category.
    pub fn format(&self) -> (r: &'static str)
        ensures
            r@ == (match *self {
                SkillCategory::Excel => "xlsx"@,
                SkillCategory::Word => "docx"@,
                SkillCategory::Ppt => "pptx"@,
                SkillCategory::Multi => "json"@,
            }),
    {
        match self {
            SkillCategory::Excel => "xlsx",
            SkillCategory::Word => "docx",
            SkillCategory::Ppt => "pptx",
            SkillCategory::Multi => "json",
        }
    }
}

#[derive(Debug, Clone)]
pub struct SkillOutput {
    pub name: String,
    pub output_type: String,
    pub description: Option<String>,
}

#[derive(Debug, Clone)]
pub struct SkillPlaceholder {
    pub name: String,
    pub placeholder_type: String,
    pub description: Option<String>,
}

#[derive(Debug, Clone)]
pub struct SkillTemplates {
    pub primary: String,
    pub description: String,
}

#[derive(Debug, Clone, Copy, PartialEq, Eq, Structural)]
pub enum ValidationRuleType {
    Assert,
    Regex,
    Enum,
    Custom,
}

#[derive(Debug, Clone)]
pub struct ValidationResult {
    pub skill_name: String,
    pub passed: bool,
    pub rule_results: Vec<RuleResult>,
}

#[derive(Debug, Clone)]
pub struct RuleResult {
    pub rule_name: String,
    pub passed: bool,
    pub message: String,
}

} // verus!
