//! A streaming CSV tokenizer.
//!
//! The reader turns a byte stream, arriving in chunks of whatever size the
//! source happens to hand out, into complete rows split at a configurable
//! delimiter, with quoted fields that may hold delimiters, line breaks and
//! doubled (escaped) quotes. The rows it produces do not depend on how the
//! input was chunked.

pub mod error;
pub mod reader;
pub mod row;
pub mod scan;
pub mod source;

pub use error::Error;
pub use reader::Csv;
pub use row::Row;
pub use scan::read_line;
pub use source::BufSource;
