//! Comparing the text of two office documents.
pub mod document_diff;
