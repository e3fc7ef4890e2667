use vstd::prelude::*;

use crate::error::Error;
use crate::row::{text_col, text_ok, Row};
use crate::scan::{
    delimiter_ok, read_line, scan_end_offset, spec_cols, spec_raw, spec_scan, spec_used, strip_cr,
    ScanEnd, ScanState, CR,
};
use crate::source::BufSource;

verus! {

/// How many bytes a reader made from a whole in-memory value hands itself
/// at a time. Any bound would do: the rows never depend on it.
pub const DEFAULT_CHUNK: usize = 8192;

/// The assembled line of the record at the head of `s`: its raw bytes with a
/// trailing carriage return dropped.
pub open spec fn spec_row_line(s: Seq<u8>, d: u8) -> Seq<u8> {
    strip_cr(spec_raw(s, d))
}

/// The assembled column-end offsets of the record at the head of `s`: one
/// per delimiter, closed by one at the line's length.
pub open spec fn spec_row_cols(s: Seq<u8>, d: u8) -> Seq<usize> {
    spec_cols(s, d).push(spec_row_line(s, d).len() as usize)
}

/// The column count of the record at the head of `s`.
pub open spec fn spec_row_count(s: Seq<u8>, d: u8) -> int {
    spec_cols(s, d).len() as int + 1
}

/// The text columns `hs` reads off the assembled record `(line, cols)`: all
/// of them when every column decodes, none otherwise.
pub open spec fn header_texts(line: Seq<u8>, cols: Seq<usize>, hs: Seq<String>) -> bool {
    if text_ok(line, cols) {
        hs.len() == cols.len() && forall|i: int|
            0 <= i < cols.len() ==> #[trigger] hs[i]@ == text_col(line, cols, i)
    } else {
        hs.len() == 0
    }
}

/// A CSV reader over an in-memory source. Rows come out one at a time; after
/// a malformed quote or a column-count mismatch the reader is terminal and
/// produces nothing further.
pub struct Csv {
    source: BufSource,
    delimiter: u8,
    has_headers: bool,
    headers: Option<Vec<String>>,
    flexible: bool,
    len: Option<usize>,
    exit: bool,
}

impl Csv {
    /// The source the reader pulls from.
    pub closed spec fn spec_source(&self) -> BufSource {
        self.source
    }

    /// The configured delimiter byte.
    pub closed spec fn spec_delimiter(&self) -> u8 {
        self.delimiter
    }

    /// Whether differing column counts are tolerated.
    pub closed spec fn spec_flexible(&self) -> bool {
        self.flexible
    }

    /// Whether the first row is a header.
    pub closed spec fn spec_has_headers(&self) -> bool {
        self.has_headers
    }

    /// The header row's columns, once fetched.
    pub closed spec fn spec_headers(&self) -> Option<Vec<String>> {
        self.headers
    }

    /// The expected column count, learned from the first row.
    pub closed spec fn spec_len(&self) -> Option<usize> {
        self.len
    }

    /// Whether the reader is terminal.
    pub closed spec fn spec_exit(&self) -> bool {
        self.exit
    }

    /// The bytes the reader was created over.
    pub open spec fn spec_data(&self) -> Seq<u8> {
        self.spec_source().spec_data()
    }

    /// How many bytes have been consumed.
    pub open spec fn spec_pos(&self) -> int {
        self.spec_source().spec_pos()
    }

    /// The source's chunk bound.
    pub open spec fn spec_chunk(&self) -> int {
        self.spec_source().spec_chunk()
    }

    /// The bytes not yet consumed.
    pub open spec fn remaining(&self) -> Seq<u8> {
        self.spec_source().remaining()
    }

    /// The source is sound and the delimiter is not a reserved byte.
    pub open spec fn wf(&self) -> bool {
        self.spec_source().wf() && delimiter_ok(self.spec_delimiter())
    }

    /// What the next call to `next` returns: the assembled line and offsets
    /// of the row, or the error. A function of the unconsumed bytes, the
    /// delimiter, the learned count, the flexible flag and the terminal flag
    /// alone — never of the chunk bound.
    pub open spec fn spec_next(&self) -> Option<Result<(Seq<u8>, Seq<usize>), Error>> {
        let s = self.remaining();
        let d = self.spec_delimiter();
        if self.spec_exit() || s.len() == 0 {
            None
        } else {
            match spec_scan(s, d) {
                ScanEnd::Fail { at, e } => Some(Err(e)),
                _ => if self.spec_len() is Some && self.spec_len().unwrap() != spec_row_count(s, d)
                    && !self.spec_flexible() {
                    Some(
                        Err(
                            Error::ColumnMismatch(
                                self.spec_len().unwrap(),
                                spec_row_count(s, d) as usize,
                            ),
                        ),
                    )
                } else {
                    Some(Ok((spec_row_line(s, d), spec_row_cols(s, d))))
                },
            }
        }
    }

    /// Where the reader stands after `next`: the row's bytes are consumed,
    /// the terminator included; after a malformed quote the bad byte stays
    /// unconsumed.
    pub open spec fn spec_next_pos(&self) -> int {
        let s = self.remaining();
        let d = self.spec_delimiter();
        if self.spec_exit() || s.len() == 0 {
            self.spec_pos()
        } else {
            match spec_scan(s, d) {
                ScanEnd::Fail { at, e } => self.spec_pos() + at,
                _ => self.spec_pos() + spec_used(s, d),
            }
        }
    }

    /// The expected column count after `next`: the first assembled row sets
    /// it, and nothing ever rewrites it.
    pub open spec fn spec_next_len(&self) -> Option<usize> {
        let s = self.remaining();
        let d = self.spec_delimiter();
        if self.spec_exit() || s.len() == 0 {
            self.spec_len()
        } else {
            match spec_scan(s, d) {
                ScanEnd::Fail { at, e } => self.spec_len(),
                _ => if self.spec_len() is Some {
                    self.spec_len()
                } else {
                    Some(spec_row_count(s, d) as usize)
                },
            }
        }
    }

    /// Whether the reader is terminal after `next`: every error ends it.
    pub open spec fn spec_next_exit(&self) -> bool {
        self.spec_exit() || (self.spec_next() matches Some(Err(_)))
    }

    /// A reader over a source, with the delimiter `,`, no header row, and
    /// strict column counts.
    pub fn from_reader(reader: BufSource) -> (r: Csv)
        requires
            reader.wf(),
        ensures
            r.wf(),
            r.spec_source() == reader,
            r.spec_delimiter() == 44u8,
            r.spec_has_headers() == false,
            r.spec_headers() is None,
            r.spec_flexible() == false,
            r.spec_len() is None,
            r.spec_exit() == false,
    {
        Csv {
            source: reader,
            delimiter: 44,
            has_headers: false,
            headers: None,
            flexible: false,
            len: None,
            exit: false,
        }
    }

    /// A reader over the bytes of an in-memory string.
    pub fn from_string(s: &str) -> (r: Csv)
        ensures
            r.wf(),
            r.spec_data() == vstd::utf8::encode_utf8(s@),
            r.spec_pos() == 0,
            r.spec_delimiter() == 44u8,
            r.spec_has_headers() == false,
            r.spec_headers() is None,
            r.spec_flexible() == false,
            r.spec_len() is None,
            r.spec_exit() == false,
    {
        Csv::from_reader(BufSource::new(vstd::slice::slice_to_vec(s.as_bytes()), DEFAULT_CHUNK))
    }

    /// The same reader with a new delimiter, which may be any byte whose
    /// reading the scanner does not reserve.
    pub fn delimiter(self, delimiter: u8) -> (r: Csv)
        requires
            delimiter_ok(delimiter),
        ensures
            r.spec_delimiter() == delimiter,
            r.spec_source() == self.spec_source(),
            r.spec_has_headers() == self.spec_has_headers(),
            r.spec_headers() == self.spec_headers(),
            r.spec_flexible() == self.spec_flexible(),
            r.spec_len() == self.spec_len(),
            r.spec_exit() == self.spec_exit(),
            self.spec_source().wf() ==> r.wf(),
    {
        let mut c = self;
        c.delimiter = delimiter;
        c
    }

    /// The same reader, tolerating rows whose column counts differ.
    pub fn flexible(self, flexible: bool) -> (r: Csv)
        ensures
            r.spec_flexible() == flexible,
            r.spec_source() == self.spec_source(),
            r.spec_delimiter() == self.spec_delimiter(),
            r.spec_has_headers() == self.spec_has_headers(),
            r.spec_headers() == self.spec_headers(),
            r.spec_len() == self.spec_len(),
            r.spec_exit() == self.spec_exit(),
            self.wf() ==> r.wf(),
    {
        let mut c = self;
        c.flexible = flexible;
        c
    }

    /// The learned column count, `None` before the first row.
    pub fn len(&self) -> (r: Option<usize>)
        ensures
            r == self.spec_len(),
    {
        self.len
    }

    /// Produces the next row, or the error that ends the stream; `None` at
    /// end of input and ever after an error.
    pub fn next(&mut self) -> (r: Option<Result<Row, Error>>)
        requires
            old(self).wf(),
        ensures
            final(self).wf(),
            final(self).spec_data() == old(self).spec_data(),
            final(self).spec_chunk() == old(self).spec_chunk(),
            final(self).spec_delimiter() == old(self).spec_delimiter(),
            final(self).spec_flexible() == old(self).spec_flexible(),
            final(self).spec_has_headers() == old(self).spec_has_headers(),
            final(self).spec_headers() == old(self).spec_headers(),
            final(self).spec_pos() == old(self).spec_next_pos(),
            final(self).spec_len() == old(self).spec_next_len(),
            final(self).spec_exit() == old(self).spec_next_exit(),
            match old(self).spec_next() {
                None => r is None,
                Some(Err(e)) => r == Some(Err::<Row, Error>(e)),
                Some(Ok(rc)) => r matches Some(Ok(row)) && row.wf() && row.spec_line() == rc.0
                    && row.spec_cols() == rc.1,
            },
    {
        if self.exit {
            return None;
        }
        let ghost s = self.remaining();
        let ghost d = self.spec_delimiter();
        let mut buf: Vec<u8> = Vec::new();
        let mut cols: Vec<usize> = Vec::new();
        match read_line(&mut self.source, &mut buf, self.delimiter, &mut cols) {
            Ok(n) => {
                proof {
                    assert(s == old(self).spec_data().skip(old(self).spec_pos()));
                    assert(s.len() == old(self).spec_data().len() - old(self).spec_pos());
                    crate::scan::lemma_cols_from(s, 0, ScanState::FieldStart, d, 0);
                    assert(buf@ =~= spec_raw(s, d));
                    assert(cols@ =~= spec_cols(s, d));
                    if s.len() == 0 {
                        assert(spec_used(s, d) == 0);
                    } else {
                        assert(spec_used(s, d) > 0);
                    }
                }
                if n == 0 {
                    return None;
                }
                if buf.len() > 0 && buf[buf.len() - 1] == CR {
                    let _ = buf.pop();
                    proof {
                        assert(buf@ =~= spec_row_line(s, d));
                    }
                }
                proof {
                    assert(buf@ == spec_row_line(s, d));
                    let end = scan_end_offset(spec_scan(s, d), s);
                    assert(spec_raw(s, d).len() == end);
                    assert(forall|k: int|
                        0 <= k < cols@.len() ==> #[trigger] cols@[k] < buf@.len()) by {
                        assert(forall|k: int|
                            0 <= k < cols@.len() ==> s[#[trigger] cols@[k] + 0] == d);
                    }
                }
                cols.push(buf.len());
                proof {
                    assert(cols@ =~= spec_row_cols(s, d));
                    assert(cols@.last() == buf@.len());
                    assert(cols@.len() == spec_row_count(s, d));
                }
                let c = cols.len();
                if let Some(expected) = self.len {
                    if expected != c && !self.flexible {
                        // Fail fast: the reader is terminal after a mismatch.
                        self.exit = true;
                        return Some(Err(Error::ColumnMismatch(expected, c)));
                    }
                } else {
                    self.len = Some(c);
                }
                Some(Ok(Row::assemble(buf, cols)))
            },
            Err(e) => {
                self.exit = true;
                Some(Err(e))
            },
        }
    }

    /// The header row's columns as text, fetched once and then kept: an
    /// empty list when there is no header row to give, or when its text
    /// does not decode.
    pub fn headers(&mut self) -> (r: Vec<String>)
        requires
            old(self).wf(),
        ensures
            final(self).wf(),
            final(self).spec_data() == old(self).spec_data(),
            final(self).spec_chunk() == old(self).spec_chunk(),
            final(self).spec_delimiter() == old(self).spec_delimiter(),
            final(self).spec_flexible() == old(self).spec_flexible(),
            final(self).spec_has_headers() == old(self).spec_has_headers(),
            ({
                let pre = *old(self);
                if pre.spec_headers() is Some {
                    &&& *final(self) == pre
                    &&& r@ == pre.spec_headers().unwrap()@
                } else if !pre.spec_has_headers() {
                    &&& *final(self) == pre
                    &&& r@.len() == 0
                } else {
                    &&& final(self).spec_pos() == pre.spec_next_pos()
                    &&& final(self).spec_len() == pre.spec_next_len()
                    &&& final(self).spec_exit() == pre.spec_next_exit()
                    &&& match pre.spec_next() {
                        Some(Ok(rc)) => {
                            &&& header_texts(rc.0, rc.1, r@)
                            &&& final(self).spec_headers() matches Some(h) && h@ == r@
                        },
                        _ => {
                            &&& r@.len() == 0
                            &&& final(self).spec_headers() is None
                        },
                    }
                }
            }),
    {
        if let Some(h) = &self.headers {
            return clone_strings(h);
        }
        if self.has_headers {
            match self.next() {
                Some(Ok(row)) => {
                    let h = match row.columns() {
                        Ok(c) => c,
                        Err(_) => Vec::new(),
                    };
                    self.headers = Some(clone_strings(&h));
                    return h;
                },
                _ => {},
            }
        }
        Vec::new()
    }

    /// Declares whether the first row is a header; when it is, that row is
    /// fetched at once and withheld from ordinary iteration.
    pub fn has_header(self, has_headers: bool) -> (r: Csv)
        requires
            self.wf(),
        ensures
            r.wf(),
            r.spec_has_headers() == has_headers,
            r.spec_data() == self.spec_data(),
            r.spec_chunk() == self.spec_chunk(),
            r.spec_delimiter() == self.spec_delimiter(),
            r.spec_flexible() == self.spec_flexible(),
            ({
                if self.spec_headers() is Some || !has_headers {
                    &&& r.spec_pos() == self.spec_pos()
                    &&& r.spec_len() == self.spec_len()
                    &&& r.spec_exit() == self.spec_exit()
                    &&& r.spec_headers() == self.spec_headers()
                } else {
                    &&& r.spec_pos() == self.spec_next_pos()
                    &&& r.spec_len() == self.spec_next_len()
                    &&& r.spec_exit() == self.spec_next_exit()
                    &&& match self.spec_next() {
                        Some(Ok(rc)) => r.spec_headers() matches Some(h) && header_texts(
                            rc.0,
                            rc.1,
                            h@,
                        ),
                        _ => r.spec_headers() is None,
                    }
                }
            }),
    {
        let mut c = self;
        c.has_headers = has_headers;
        let _ = c.headers();
        c
    }
}

/// Every row a reader with learned count `expected` would produce from `s`:
/// the whole stream of results that repeated calls to `next` yield, ending
/// with the first error or at the input's end. A function of the bytes and
/// the configuration alone.
pub open spec fn spec_stream(s: Seq<u8>, d: u8, flexible: bool, expected: Option<usize>) -> Seq<
    Result<(Seq<u8>, Seq<usize>), Error>,
>
    decreases s.len(),
{
    if s.len() == 0 {
        Seq::empty()
    } else {
        match spec_scan(s, d) {
            ScanEnd::Fail { at, e } => seq![Err(e)],
            _ => if expected is Some && expected.unwrap() != spec_row_count(s, d) && !flexible {
                seq![
                    Err(Error::ColumnMismatch(expected.unwrap(), spec_row_count(s, d) as usize)),
                ]
            } else {
                let u0 = spec_used(s, d);
                let u = if u0 < 1 {
                    1
                } else if u0 > s.len() {
                    s.len() as int
                } else {
                    u0
                };
                seq![Ok((spec_row_line(s, d), spec_row_cols(s, d)))] + spec_stream(
                    s.skip(u),
                    d,
                    flexible,
                    if expected is Some {
                        expected
                    } else {
                        Some(spec_row_count(s, d) as usize)
                    },
                )
            },
        }
    }
}

/// One call to `next` peels exactly the head off the stream of rows: what it
/// returns is the stream's first entry, and the reader it leaves behind —
/// its unconsumed bytes and its learned count — stands at the stream's tail.
/// An error entry is last, and the reader is then terminal.
pub proof fn lemma_next_peels_stream(c: Csv)
    requires
        c.wf(),
        !c.spec_exit(),
    ensures
        ({
            let s = c.remaining();
            let d = c.spec_delimiter();
            let stream = spec_stream(s, d, c.spec_flexible(), c.spec_len());
            match c.spec_next() {
                None => stream == Seq::<Result<(Seq<u8>, Seq<usize>), Error>>::empty(),
                Some(Err(e)) => stream == seq![Err::<(Seq<u8>, Seq<usize>), Error>(e)]
                    && c.spec_next_exit(),
                Some(Ok(rc)) => {
                    &&& stream.len() >= 1
                    &&& stream[0] == Ok::<(Seq<u8>, Seq<usize>), Error>(rc)
                    &&& stream.skip(1) == spec_stream(
                        c.spec_data().skip(c.spec_next_pos()),
                        d,
                        c.spec_flexible(),
                        c.spec_next_len(),
                    )
                },
            }
        }),
{
    let s = c.remaining();
    let d = c.spec_delimiter();
    let stream = spec_stream(s, d, c.spec_flexible(), c.spec_len());
    if s.len() > 0 {
        crate::scan::lemma_scan_end_bounds(s, 0, ScanState::FieldStart, d);
        match spec_scan(s, d) {
            ScanEnd::Fail { at, e } => {},
            _ => {
                let u = spec_used(s, d);
                assert(1 <= u <= s.len());
                if !(c.spec_len() is Some && c.spec_len().unwrap() != spec_row_count(s, d)
                    && !c.spec_flexible()) {
                    let tail = spec_stream(
                        s.skip(u),
                        d,
                        c.spec_flexible(),
                        c.spec_next_len(),
                    );
                    assert(stream == seq![
                        Ok::<(Seq<u8>, Seq<usize>), Error>(
                            (spec_row_line(s, d), spec_row_cols(s, d)),
                        ),
                    ] + tail);
                    assert(stream.skip(1) =~= tail);
                    assert(c.spec_data().skip(c.spec_next_pos()) =~= s.skip(u));
                }
            },
        }
    }
}

/// Chunk-boundary invariance: two readers over the same unconsumed bytes and
/// the same configuration produce the same next outcome — the same row or
/// error, the same learned count, the same terminal flag, and the same
/// number of consumed bytes — and the same whole stream of rows, whatever
/// chunk bounds their sources hand out.
pub proof fn lemma_chunk_invariance(a: Csv, b: Csv)
    requires
        a.remaining() == b.remaining(),
        a.spec_delimiter() == b.spec_delimiter(),
        a.spec_flexible() == b.spec_flexible(),
        a.spec_len() == b.spec_len(),
        a.spec_exit() == b.spec_exit(),
    ensures
        a.spec_next() == b.spec_next(),
        a.spec_next_len() == b.spec_next_len(),
        a.spec_next_exit() == b.spec_next_exit(),
        a.spec_next_pos() - a.spec_pos() == b.spec_next_pos() - b.spec_pos(),
        spec_stream(a.remaining(), a.spec_delimiter(), a.spec_flexible(), a.spec_len())
            == spec_stream(b.remaining(), b.spec_delimiter(), b.spec_flexible(), b.spec_len()),
{
}

/// The first assembled row fixes the expected column count, and nothing ever
/// rewrites it.
pub proof fn lemma_first_row_sets_len(c: Csv)
    requires
        !c.spec_exit(),
        c.remaining().len() > 0,
        !(spec_scan(c.remaining(), c.spec_delimiter()) is Fail),
        c.spec_len() is None,
    ensures
        c.spec_next_len() == Some(
            spec_row_count(c.remaining(), c.spec_delimiter()) as usize,
        ),
        c.spec_next() == Some(
            Ok::<(Seq<u8>, Seq<usize>), Error>(
                (
                    spec_row_line(c.remaining(), c.spec_delimiter()),
                    spec_row_cols(c.remaining(), c.spec_delimiter()),
                ),
            ),
        ),
{
}

/// Under a strict schema, a row whose column count differs from the learned
/// one fails with `ColumnMismatch` and ends the stream.
pub proof fn lemma_column_mismatch(c: Csv, expected: usize)
    requires
        !c.spec_exit(),
        c.remaining().len() > 0,
        !(spec_scan(c.remaining(), c.spec_delimiter()) is Fail),
        c.spec_len() == Some(expected),
        spec_row_count(c.remaining(), c.spec_delimiter()) != expected,
        !c.spec_flexible(),
    ensures
        c.spec_next() == Some(
            Err::<(Seq<u8>, Seq<usize>), Error>(
                Error::ColumnMismatch(
                    expected,
                    spec_row_count(c.remaining(), c.spec_delimiter()) as usize,
                ),
            ),
        ),
        c.spec_next_exit(),
        c.spec_next_len() == Some(expected),
{
}

/// A flexible reader never reports a column mismatch: every scanned row
/// comes out, and the learned count stays advisory.
pub proof fn lemma_flexible_accepts(c: Csv)
    requires
        c.spec_flexible(),
    ensures
        forall|n: usize, m: usize| c.spec_next() != Some(
            Err::<(Seq<u8>, Seq<usize>), Error>(Error::ColumnMismatch(n, m)),
        ),
        c.spec_next_len() == if c.spec_len() is Some || c.spec_exit()
            || c.remaining().len() == 0 {
            c.spec_len()
        } else {
            match spec_scan(c.remaining(), c.spec_delimiter()) {
                ScanEnd::Fail { .. } => c.spec_len(),
                _ => Some(spec_row_count(c.remaining(), c.spec_delimiter()) as usize),
            }
        },
{
    crate::scan::lemma_scan_fail_kind(c.remaining(), 0, ScanState::FieldStart, c.spec_delimiter());
}

/// A record closed by CRLF assembles to the same line as one closed by a
/// bare LF: the one trailing carriage return falls away, and a line never
/// keeps one.
pub proof fn lemma_crlf_normalization(x: Seq<u8>)
    requires
        x.len() == 0 || x.last() != CR,
    ensures
        strip_cr(x.push(CR)) == x,
        strip_cr(x) == x,
{
    assert(x.push(CR).last() == CR);
    assert(x.push(CR).drop_last() =~= x);
}

/// End of stream without a terminator is no error: the bytes scanned so far
/// still come out as the final record.
pub proof fn lemma_no_trailing_terminator(c: Csv)
    requires
        !c.spec_exit(),
        c.remaining().len() > 0,
        spec_scan(c.remaining(), c.spec_delimiter()) is Eof,
        c.spec_len() is None || c.spec_len().unwrap() == spec_row_count(
            c.remaining(),
            c.spec_delimiter(),
        ) || c.spec_flexible(),
    ensures
        c.spec_next() matches Some(rr) && rr matches Ok(rc) && rc.0 == strip_cr(c.remaining()),
        c.spec_next_pos() == c.spec_pos() + c.remaining().len(),
{
}

/// A fresh copy of a list of strings.
fn clone_strings(v: &Vec<String>) -> (r: Vec<String>)
    ensures
        r@ == v@,
{
    let mut out: Vec<String> = Vec::new();
    let mut i: usize = 0;
    while i < v.len()
        invariant
            i <= v@.len(),
            out@ == v@.take(i as int),
        decreases v@.len() - i,
    {
        out.push(v[i].clone());
        proof {
            assert(v@.take(i + 1) =~= v@.take(i as int).push(v@[i as int]));
        }
        i = i + 1;
    }
    proof {
        assert(v@.take(v@.len() as int) =~= v@);
    }
    out
}

} // verus!
