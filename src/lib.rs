//! Message schema parsing and content hashing for a robotics middleware.
//!
//! A message schema is a text with one field per line. This crate turns such a
//! text into typed field descriptions, collects the other messages that it
//! depends on, and computes its canonical MD5 content hash.

pub mod text;
pub mod error;
pub mod table;
pub mod datatype;
pub mod field;
pub mod msg;
pub mod spacing;

pub use datatype::{parse_datatype, DataType};
pub use error::SchemaError;
pub use field::{
    match_array_field, match_const_numeric, match_const_string, match_field, match_line,
    match_lines, match_vector_field, strip_useless, FieldCase, FieldInfo, FieldLine,
};
pub use msg::Msg;
pub use table::MsgHashes;

