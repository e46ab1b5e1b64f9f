//! Writers of office documents.  What stands here is the part of writing
//! that computes: the parts a Word package is completed with.
pub mod docx_enricher;
pub mod excel;
pub mod word;
