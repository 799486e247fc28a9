//! Deferred formatting codec: the byte encoding written by loggers and the
//! incremental decoder that turns the byte stream back into values and frames.

pub mod buffer;
pub mod decoder_utils;
pub mod decoders;
pub mod encoding;
pub mod header;
pub mod identifiers;
pub mod logger;
pub mod parse;
pub mod parse_lemmas;
pub mod pointer_width;
pub mod statements;
pub mod step_lemmas;
pub mod taken;
pub mod text;
pub mod tuple_permutations;
pub mod type_hint;
pub mod errors;
pub mod frame;
pub mod values;
pub mod write_primitive;
