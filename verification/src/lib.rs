//! A document-level codec for a sectioned, tag-value CAD interchange format.
//!
//! The stream of a drawing file is a flat sequence of tagged values (code
//! pairs).  This crate turns such a stream into a structured [`drawing::Drawing`]
//! and back: it drives the section state machine, skips unknown sections,
//! reads repeated table and block items, decodes and encodes the embedded
//! thumbnail image, and emits sections in their canonical order with
//! version-gated inclusion rules.  The byte-level tokenizer that produces
//! code pairs from raw text or binary input, and the per-record field
//! decoders, are collaborators outside this crate's scope: records are
//! carried as their raw code pairs.

pub mod code_pair;
pub mod cursor;
pub mod drawing;
pub mod error;
pub mod header;
pub mod hex;
pub mod laws;
pub mod reader;
pub mod record;
pub mod writer;
