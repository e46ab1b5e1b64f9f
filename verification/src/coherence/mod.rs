//! Entity coherence: a dependency graph of document entities, edit
//! propagation along it, and the manifest that records entity hashes.
pub mod graph;
pub mod adapter;
pub mod manifest;
pub mod engine;
