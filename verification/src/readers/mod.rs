//! Reading documents into structured content.
pub mod word;
pub mod excel;
pub mod powerpoint;
pub mod workbook;

use vstd::prelude::*;

verus! {

/// A piece of a document for retrieval, with its metadata as (key, value)
/// pairs, no key twice.
pub struct DocumentChunk {
    pub index: usize,
    pub text: String,
    pub metadata: Vec<(String, String)>,
}

} // verus!
