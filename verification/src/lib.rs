//! Verified core of an office-document toolkit: entity coherence tracking,
//! format detection, validation rules, surgical patching of OOXML parts,
//! reading Word documents, workbooks and presentations into Markdown and
//! chunks, package integrity checks, document diffs, DOCX enrichment, skill
//! input validation and sheet layout, XFA form data, template placeholders,
//! and the small text, XML and JSON utilities they share.
pub mod text;
pub mod hashing;
pub mod coherence;
pub mod paths;
pub mod formats;
pub mod skill;
pub mod skills;
pub mod numeric;
pub mod patchers;
pub mod xml;
pub mod json;
pub mod patterns;
pub mod validation;
pub mod readers;
pub mod writers;
pub mod integrity;
pub mod diff;
pub mod pdf_form;
pub mod export;
pub mod template;
pub mod package;
