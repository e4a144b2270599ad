//! Parsing of tmpfiles.d configuration lines: the type, path, mode, owner,
//! group, age and argument fields of each line, with the span every field
//! was read from.

pub mod bytes;
pub mod cleanup;
pub mod config_file;
pub mod duration;
pub mod field;
pub mod laws;
pub mod parser;
pub mod span;
