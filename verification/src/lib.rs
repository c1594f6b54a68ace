//! Decoder for a message-tree telemetry log: a framed-block file holding
//! Snappy-compressed streams of length-prefixed binary tree records.
//!
//! The grammar of the format lives in `parse` as specification functions;
//! `decoder` implements it over byte buffers and is proved to return exactly
//! what the grammar says, record by record. `framing` reads the shared
//! length-prefix framing, `snappy` layers the chunked decompression stream
//! and decodes whole blocks, and `dumper` decodes whole files. `laws` and
//! `encode` prove the format's global properties: catalogue membership and
//! order, the name rewrite, and the decode of an encoded record.

pub mod chars;
pub mod decoder;
pub mod dumper;
pub mod encode;
pub mod errors;
pub mod framing;
pub mod laws;
pub mod messages;
pub mod model;
pub mod parse;
pub mod pipeline;
pub mod snappy;
pub mod textenc;

pub use errors::DecodeError;
pub use messages::{Message, MessageTree};
