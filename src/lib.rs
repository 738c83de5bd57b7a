//! Printable renderings of arbitrary byte strings, using the ASCII default
//! escaping convention (`\t`, `\r`, `\n`, `\\`, `\'`, `\"` and `\xHH`).
pub mod laws;
pub mod render;
pub mod sink;
pub mod table;

pub use render::{format_escape_default, to_escaped_string, EscapeDefaultFmt};
pub use sink::{BoundedSink, CharSink, StringSink, WriteError};
