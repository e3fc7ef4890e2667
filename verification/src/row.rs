use vstd::prelude::*;
use vstd::utf8::{decode_utf8, encode_utf8, valid_utf8};

use crate::error::Error;
use crate::scan::QUOTE;

verus! {

/// One assembled record: its bytes as scanned — quotes kept, terminator and
/// trailing carriage return dropped — and the column-end offsets into them.
/// A row is immutable once assembled, and owned by whoever asked for it.
pub struct Row {
    line: Vec<u8>,
    cols: Vec<usize>,
}

/// Where column `i` starts in a record's bytes: at the front, or right after
/// the delimiter that closed the column before it.
pub open spec fn col_start(cols: Seq<usize>, i: int) -> int {
    if i == 0 {
        0
    } else {
        cols[i - 1] + 1
    }
}

/// The raw bytes of column `i`: from its start up to its end offset.
pub open spec fn raw_col(line: Seq<u8>, cols: Seq<usize>, i: int) -> Seq<u8> {
    line.subrange(col_start(cols, i), cols[i] as int)
}

/// Doubled quotes collapsed to single ones.
pub open spec fn unescape(s: Seq<u8>) -> Seq<u8>
    decreases s.len(),
{
    if s.len() == 0 {
        Seq::empty()
    } else if s.len() >= 2 && s[0] == QUOTE && s[1] == QUOTE {
        seq![QUOTE] + unescape(s.skip(2))
    } else {
        seq![s[0]] + unescape(s.skip(1))
    }
}

/// A column's data: when the bytes form a quoted span the quotes fall away
/// and doubled quotes collapse; otherwise they stand as they are.
pub open spec fn unquote(s: Seq<u8>) -> Seq<u8> {
    if s.len() >= 2 && s[0] == QUOTE && s.last() == QUOTE {
        unescape(s.subrange(1, s.len() - 1))
    } else {
        s
    }
}

/// Whether every column of the record decodes as UTF-8.
pub open spec fn text_ok(line: Seq<u8>, cols: Seq<usize>) -> bool {
    forall|i: int| 0 <= i < cols.len() ==> valid_utf8(#[trigger] unquote(raw_col(line, cols, i)))
}

/// The text of column `i`, when it decodes.
pub open spec fn text_col(line: Seq<u8>, cols: Seq<usize>, i: int) -> Seq<char> {
    decode_utf8(unquote(raw_col(line, cols, i)))
}

/// Relies on `String::from_utf8`: it succeeds exactly on input that is valid
/// UTF-8, and then returns the string those bytes encode.
#[verifier::external_body]
fn bytes_to_string(b: Vec<u8>) -> (r: Option<String>)
    ensures
        (r is Some) <==> valid_utf8(b@),
        r is Some ==> encode_utf8(r.unwrap()@) == b@,
{
    match String::from_utf8(b) {
        Ok(s) => Some(s),
        Err(_) => None,
    }
}

/// Extracts the data bytes of the span `[start, end)` of a record buffer.
fn unquote_range(line: &Vec<u8>, start: usize, end: usize) -> (r: Vec<u8>)
    requires
        start <= end <= line@.len(),
    ensures
        r@ == unquote(line@.subrange(start as int, end as int)),
{
    let ghost s = line@.subrange(start as int, end as int);
    if end - start >= 2 && line[start] == QUOTE && line[end - 1] == QUOTE {
        proof {
            assert(s[0] == line@[start as int]);
            assert(s.last() == line@[end - 1]);
        }
        let ghost t = line@.subrange(start + 1, end - 1);
        proof {
            assert(t =~= s.subrange(1, s.len() - 1));
        }
        let mut out: Vec<u8> = Vec::new();
        let mut j: usize = start + 1;
        while j < end - 1
            invariant
                start + 1 <= j <= end - 1 <= line@.len(),
                end - start >= 2,
                t == line@.subrange(start + 1, end - 1),
                unescape(t) == out@ + unescape(line@.subrange(j as int, end - 1)),
            decreases end - 1 - j,
        {
            let ghost u = line@.subrange(j as int, end - 1);
            proof {
                assert(u[0] == line@[j as int]);
                assert(u.len() >= 2 ==> u[1] == line@[j + 1]);
            }
            let b = line[j];
            if b == QUOTE && j + 1 < end - 1 && line[j + 1] == QUOTE {
                out.push(QUOTE);
                proof {
                    assert(u.skip(2) =~= line@.subrange(j + 2, end - 1));
                    assert(unescape(u) == seq![QUOTE] + unescape(u.skip(2)));
                    assert(out@ + unescape(line@.subrange(j + 2, end - 1)) =~= out@.drop_last()
                        + unescape(u));
                }
                j = j + 2;
            } else {
                out.push(b);
                proof {
                    assert(u.skip(1) =~= line@.subrange(j + 1, end - 1));
                    assert(unescape(u) == seq![u[0]] + unescape(u.skip(1)));
                    assert(out@ + unescape(line@.subrange(j + 1, end - 1)) =~= out@.drop_last()
                        + unescape(u));
                }
                j = j + 1;
            }
        }
        proof {
            assert(line@.subrange(end - 1, end - 1) =~= Seq::<u8>::empty());
            assert(out@ + Seq::<u8>::empty() =~= out@);
        }
        out
    } else {
        let mut out: Vec<u8> = Vec::new();
        let mut j: usize = start;
        while j < end
            invariant
                start <= j <= end <= line@.len(),
                out@ == line@.subrange(start as int, j as int),
            decreases end - j,
        {
            out.push(line[j]);
            proof {
                assert(line@.subrange(start as int, j + 1) =~= line@.subrange(
                    start as int,
                    j as int,
                ).push(line@[j as int]));
            }
            j = j + 1;
        }
        proof {
            assert(unquote(s) == s);
        }
        out
    }
}

impl Row {
    /// The record's bytes.
    pub closed spec fn spec_line(&self) -> Seq<u8> {
        self.line@
    }

    /// The record's column-end offsets.
    pub closed spec fn spec_cols(&self) -> Seq<usize> {
        self.cols@
    }

    /// The offsets are non-empty, strictly increasing, and the last stands at
    /// the buffer's length.
    pub open spec fn wf(&self) -> bool {
        &&& self.spec_cols().len() > 0
        &&& forall|k1: int, k2: int|
            0 <= k1 < k2 < self.spec_cols().len() ==> #[trigger] self.spec_cols()[k1]
                < #[trigger] self.spec_cols()[k2]
        &&& self.spec_cols().last() == self.spec_line().len()
    }

    /// Assembles a row. The reader alone builds one, from a completed scan.
    pub(crate) fn assemble(line: Vec<u8>, cols: Vec<usize>) -> (r: Row)
        requires
            cols@.len() > 0,
            forall|k1: int, k2: int|
                0 <= k1 < k2 < cols@.len() ==> #[trigger] cols@[k1] < #[trigger] cols@[k2],
            cols@.last() == line@.len(),
        ensures
            r.wf(),
            r.spec_line() == line@,
            r.spec_cols() == cols@,
    {
        Row { line, cols }
    }

    /// The column count.
    pub fn len(&self) -> (n: usize)
        ensures
            n == self.spec_cols().len(),
    {
        self.cols.len()
    }

    /// The bounds of column `i`, read off the offset list.
    fn col_bounds(&self, i: usize) -> (r: (usize, usize))
        requires
            self.wf(),
            i < self.spec_cols().len(),
        ensures
            r.0 == col_start(self.spec_cols(), i as int),
            r.1 == self.spec_cols()[i as int],
            r.0 <= r.1 <= self.spec_line().len(),
    {
        proof {
            assert(self.cols@.len() <= usize::MAX) by {
                assert(self.cols@.len() == self.cols.len());
            }
            if i + 1 < self.cols@.len() {
                assert(self.cols@[i as int] < self.cols@[self.cols@.len() - 1]);
            }
            if i > 0 {
                assert(self.cols@[i - 1] < self.cols@[i as int]);
            }
        }
        let end: usize = self.cols[i];
        let start: usize = if i == 0 {
            0
        } else {
            self.cols[i - 1] + 1
        };
        (start, end)
    }

    /// The record's columns as raw data bytes. Byte access never fails.
    pub fn bytes_columns(&self) -> (r: Vec<Vec<u8>>)
        requires
            self.wf(),
        ensures
            r@.len() == self.spec_cols().len(),
            forall|i: int|
                0 <= i < r@.len() ==> #[trigger] r@[i]@ == unquote(
                    raw_col(self.spec_line(), self.spec_cols(), i),
                ),
    {
        let mut out: Vec<Vec<u8>> = Vec::new();
        let mut i: usize = 0;
        while i < self.cols.len()
            invariant
                self.wf(),
                i <= self.spec_cols().len(),
                out@.len() == i,
                forall|k: int|
                    0 <= k < i ==> #[trigger] out@[k]@ == unquote(
                        raw_col(self.spec_line(), self.spec_cols(), k),
                    ),
            decreases self.spec_cols().len() - i,
        {
            let (start, end) = self.col_bounds(i);
            out.push(unquote_range(&self.line, start, end));
            i = i + 1;
        }
        out
    }

    /// The record's columns as text. Fails with `InvalidEncoding` exactly
    /// when some column's data bytes are not valid UTF-8; the check is made
    /// once, when this view is built.
    pub fn columns(&self) -> (r: Result<Vec<String>, Error>)
        requires
            self.wf(),
        ensures
            (r is Ok) <==> text_ok(self.spec_line(), self.spec_cols()),
            r is Ok ==> r.unwrap()@.len() == self.spec_cols().len(),
            r is Ok ==> forall|i: int|
                0 <= i < self.spec_cols().len() ==> #[trigger] r.unwrap()@[i]@ == text_col(
                    self.spec_line(),
                    self.spec_cols(),
                    i,
                ),
            r is Err ==> r == Err::<Vec<String>, Error>(Error::InvalidEncoding),
    {
        let mut out: Vec<String> = Vec::new();
        let mut i: usize = 0;
        while i < self.cols.len()
            invariant
                self.wf(),
                i <= self.spec_cols().len(),
                out@.len() == i,
                forall|k: int|
                    0 <= k < i ==> valid_utf8(
                        #[trigger] unquote(raw_col(self.spec_line(), self.spec_cols(), k)),
                    ),
                forall|k: int|
                    0 <= k < i ==> #[trigger] out@[k]@ == text_col(
                        self.spec_line(),
                        self.spec_cols(),
                        k,
                    ),
            decreases self.spec_cols().len() - i,
        {
            let (start, end) = self.col_bounds(i);
            let bytes = unquote_range(&self.line, start, end);
            match bytes_to_string(bytes) {
                Some(text) => {
                    proof {
                        vstd::utf8::encode_utf8_decode_utf8(text@);
                    }
                    out.push(text);
                },
                None => {
                    proof {
                        // column `i` is the witness that not every column decodes
                        assert(!valid_utf8(
                            unquote(raw_col(self.spec_line(), self.spec_cols(), i as int)),
                        ));
                    }
                    return Err(Error::InvalidEncoding);
                },
            }
            i = i + 1;
        }
        Ok(out)
    }
}

} // verus!
