use vstd::prelude::*;

verus! {

/// The failures the reader reports. After any of the first three the reader
/// is terminal: it produces no further rows.
#[derive(Clone, Copy, Debug, PartialEq, Eq, Structural)]
pub enum Error {
    /// A quote closed inside a quoted field and the next byte was neither a
    /// delimiter, a line terminator nor a second quote.
    UnescapedQuote,
    /// A quote opened somewhere other than the start of a field.
    UnexpectedQuote,
    /// A row's column count differs from the first row's: `(expected, actual)`.
    ColumnMismatch(usize, usize),
    /// A row's bytes are not valid UTF-8, reported on text access alone.
    InvalidEncoding,
}

} // verus!
