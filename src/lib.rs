//! Decoding of the binary columnar storage format used to exchange CRDT
//! documents and changes: chunk framing, column specifications, column
//! metadata, the column layout classifier and the row decoding engine.
pub mod change;
pub mod col_decoders;
pub mod chunk;
pub mod column;
pub mod column_layout;
pub mod column_metadata;
pub mod column_spec;
pub mod contents;
pub mod decoding;
pub mod document;
pub mod leb128;
pub mod parse;
pub mod query;
pub mod rowblock;
pub mod types;
pub mod value;
