//! A MySQL-compatible JSON core: path-based extraction of sub-values from a
//! JSON document, and lenient decoding of backslash escapes in JSON strings.

pub mod extract;
pub mod path_expr;
pub mod render;
pub mod unquote;
pub mod value;
