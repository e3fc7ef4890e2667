use vstd::prelude::*;

use crate::error::Error;
use crate::source::BufSource;

verus! {

/// The quote byte `"`.
pub const QUOTE: u8 = 34;

/// The line terminator `\n`.
pub const LF: u8 = 10;

/// The carriage return `\r`.
pub const CR: u8 = 13;

/// A delimiter may be any byte whose reading the scanner does not reserve:
/// anything but the quote, the line terminator and the carriage return.
pub open spec fn delimiter_ok(d: u8) -> bool {
    d != QUOTE && d != LF && d != CR
}

/// Where the scanner stands between two bytes of a record. This is the whole
/// state carried across chunk boundaries, which is why the rows never depend
/// on where those boundaries fall.
#[derive(Clone, Copy, Debug, PartialEq, Eq, Structural)]
pub enum ScanState {
    /// Normal mode, at the start of a field: the record's start, or right
    /// after a delimiter. A quote here opens a quoted span.
    FieldStart,
    /// Normal mode, inside an unquoted field. A quote here is malformed.
    FieldMid,
    /// Inside an open quoted span: delimiters and terminators are data.
    Quoted,
    /// Inside a quoted span, right after a bare quote, whose reading the next
    /// byte settles: a second quote is an escape, a delimiter or terminator
    /// closes the span, anything else is malformed.
    QuoteSeen,
}

/// What one byte does to the scanner.
#[derive(Clone, Copy, Debug, PartialEq, Eq, Structural)]
pub enum ScanStep {
    /// The byte is consumed and appended to the row buffer; `push_col` tells
    /// whether it is a delimiter that closes a column.
    Go { next: ScanState, push_col: bool },
    /// The byte terminates the record: consumed, not appended.
    End,
    /// The byte is malformed.
    Bad { e: Error },
}

/// The quote-state machine: what byte `b` does in state `st`, with
/// delimiter `d`.
pub open spec fn step(st: ScanState, b: u8, d: u8) -> ScanStep {
    match st {
        ScanState::FieldStart => if b == QUOTE {
            ScanStep::Go { next: ScanState::Quoted, push_col: false }
        } else if b == LF {
            ScanStep::End
        } else if b == d {
            ScanStep::Go { next: ScanState::FieldStart, push_col: true }
        } else {
            ScanStep::Go { next: ScanState::FieldMid, push_col: false }
        },
        ScanState::FieldMid => if b == QUOTE {
            ScanStep::Bad { e: Error::UnexpectedQuote }
        } else if b == LF {
            ScanStep::End
        } else if b == d {
            ScanStep::Go { next: ScanState::FieldStart, push_col: true }
        } else {
            ScanStep::Go { next: ScanState::FieldMid, push_col: false }
        },
        ScanState::Quoted => if b == QUOTE {
            ScanStep::Go { next: ScanState::QuoteSeen, push_col: false }
        } else {
            ScanStep::Go { next: ScanState::Quoted, push_col: false }
        },
        ScanState::QuoteSeen => if b == QUOTE {
            ScanStep::Go { next: ScanState::Quoted, push_col: false }
        } else if b == d {
            ScanStep::Go { next: ScanState::FieldStart, push_col: true }
        } else if b == LF {
            ScanStep::End
        } else if b == CR {
            ScanStep::Go { next: ScanState::FieldMid, push_col: false }
        } else {
            ScanStep::Bad { e: Error::UnescapedQuote }
        },
    }
}

/// The executable mirror of [`step`].
pub fn step_byte(st: ScanState, b: u8, d: u8) -> (r: ScanStep)
    ensures
        r == step(st, b, d),
{
    match st {
        ScanState::FieldStart => if b == QUOTE {
            ScanStep::Go { next: ScanState::Quoted, push_col: false }
        } else if b == LF {
            ScanStep::End
        } else if b == d {
            ScanStep::Go { next: ScanState::FieldStart, push_col: true }
        } else {
            ScanStep::Go { next: ScanState::FieldMid, push_col: false }
        },
        ScanState::FieldMid => if b == QUOTE {
            ScanStep::Bad { e: Error::UnexpectedQuote }
        } else if b == LF {
            ScanStep::End
        } else if b == d {
            ScanStep::Go { next: ScanState::FieldStart, push_col: true }
        } else {
            ScanStep::Go { next: ScanState::FieldMid, push_col: false }
        },
        ScanState::Quoted => if b == QUOTE {
            ScanStep::Go { next: ScanState::QuoteSeen, push_col: false }
        } else {
            ScanStep::Go { next: ScanState::Quoted, push_col: false }
        },
        ScanState::QuoteSeen => if b == QUOTE {
            ScanStep::Go { next: ScanState::Quoted, push_col: false }
        } else if b == d {
            ScanStep::Go { next: ScanState::FieldStart, push_col: true }
        } else if b == LF {
            ScanStep::End
        } else if b == CR {
            ScanStep::Go { next: ScanState::FieldMid, push_col: false }
        } else {
            ScanStep::Bad { e: Error::UnescapedQuote }
        },
    }
}

/// How scanning the rest of the input ends. Ghost alone: the offsets are
/// mathematical integers.
pub enum ScanEnd {
    /// A terminator stands at offset `end`: the record's bytes are those
    /// before it.
    Term { end: int },
    /// The input ran out mid-record. The bytes seen form the final record.
    Eof,
    /// A malformed quote at offset `at`.
    Fail { at: int, e: Error },
}

/// Where a record that stands at offset `i` of `s` in state `st` ends.
pub open spec fn scan_from(s: Seq<u8>, i: int, st: ScanState, d: u8) -> ScanEnd
    decreases s.len() - i,
    when 0 <= i <= s.len()
{
    if i >= s.len() {
        ScanEnd::Eof
    } else {
        match step(st, s[i], d) {
            ScanStep::Go { next, .. } => scan_from(s, i + 1, next, d),
            ScanStep::End => ScanEnd::Term { end: i },
            ScanStep::Bad { e } => ScanEnd::Fail { at: i, e },
        }
    }
}

/// The column-end offsets (the delimiters' positions, relative to the
/// record's start at `base`) that scanning on from offset `i` in state `st`
/// still records.
pub open spec fn cols_from(s: Seq<u8>, i: int, st: ScanState, d: u8, base: int) -> Seq<usize>
    decreases s.len() - i,
    when 0 <= base <= i <= s.len() && s.len() <= usize::MAX
{
    if i >= s.len() {
        Seq::empty()
    } else {
        match step(st, s[i], d) {
            ScanStep::Go { next, push_col } => if push_col {
                seq![(i - base) as usize] + cols_from(s, i + 1, next, d, base)
            } else {
                cols_from(s, i + 1, next, d, base)
            },
            ScanStep::End => Seq::empty(),
            ScanStep::Bad { .. } => Seq::empty(),
        }
    }
}

/// Outcome of scanning one record from the head of `s`.
pub open spec fn spec_scan(s: Seq<u8>, d: u8) -> ScanEnd {
    scan_from(s, 0, ScanState::FieldStart, d)
}

/// The raw bytes of the record at the head of `s`, the terminator excluded.
pub open spec fn spec_raw(s: Seq<u8>, d: u8) -> Seq<u8> {
    match spec_scan(s, d) {
        ScanEnd::Term { end } => s.take(end),
        _ => s,
    }
}

/// How many bytes of `s` the record consumes, the terminator included.
pub open spec fn spec_used(s: Seq<u8>, d: u8) -> int {
    match spec_scan(s, d) {
        ScanEnd::Term { end } => end + 1,
        _ => s.len() as int,
    }
}

/// The record's column-end offsets at its delimiters. The final offset, at
/// the assembled buffer's length, is the assembler's to add.
pub open spec fn spec_cols(s: Seq<u8>, d: u8) -> Seq<usize> {
    cols_from(s, 0, ScanState::FieldStart, d, 0)
}

/// A record buffer with a trailing carriage return dropped, which reads CRLF
/// and bare-LF line endings alike.
pub open spec fn strip_cr(r: Seq<u8>) -> Seq<u8> {
    if r.len() > 0 && r.last() == CR {
        r.drop_last()
    } else {
        r
    }
}

/// The offset at which scanning stopped.
pub open spec fn scan_end_offset(r: ScanEnd, s: Seq<u8>) -> int {
    match r {
        ScanEnd::Term { end } => end,
        ScanEnd::Eof => s.len() as int,
        ScanEnd::Fail { at, .. } => at,
    }
}

/// The offsets a scan records lie between its start and its end, read the
/// delimiter byte, and grow strictly.
pub proof fn lemma_cols_from(s: Seq<u8>, i: int, st: ScanState, d: u8, base: int)
    requires
        0 <= base <= i <= s.len(),
        s.len() <= usize::MAX,
    ensures
        ({
            let cs = cols_from(s, i, st, d, base);
            let end = scan_end_offset(scan_from(s, i, st, d), s);
            &&& i <= end <= s.len()
            &&& forall|k: int|
                0 <= k < cs.len() ==> i - base <= #[trigger] cs[k] && cs[k] + base < end
            &&& forall|k: int| 0 <= k < cs.len() ==> s[#[trigger] cs[k] + base] == d
            &&& forall|k1: int, k2: int|
                0 <= k1 < k2 < cs.len() ==> #[trigger] cs[k1] < #[trigger] cs[k2]
        }),
    decreases s.len() - i,
{
    if i >= s.len() {
    } else {
        match step(st, s[i], d) {
            ScanStep::Go { next, push_col } => {
                lemma_cols_from(s, i + 1, next, d, base);
                let cs = cols_from(s, i, st, d, base);
                let tail = cols_from(s, i + 1, next, d, base);
                if push_col {
                    assert(cs == seq![(i - base) as usize] + tail);
                    assert(cs[0] == (i - base) as usize);
                    assert(forall|k: int| 1 <= k < cs.len() ==> #[trigger] cs[k] == tail[k - 1]);
                    assert(s[i] == d);
                } else {
                    assert(cs == tail);
                }
            },
            ScanStep::End => {},
            ScanStep::Bad { .. } => {},
        }
    }
}

/// Scanning stops at a byte of the input or at its end; a terminator is
/// itself a byte of the input.
pub proof fn lemma_scan_end_bounds(s: Seq<u8>, i: int, st: ScanState, d: u8)
    requires
        0 <= i <= s.len(),
    ensures
        i <= scan_end_offset(scan_from(s, i, st, d), s) <= s.len(),
        scan_from(s, i, st, d) matches ScanEnd::Term { end } ==> i <= end < s.len(),
    decreases s.len() - i,
{
    if i < s.len() {
        match step(st, s[i], d) {
            ScanStep::Go { next, .. } => {
                lemma_scan_end_bounds(s, i + 1, next, d);
            },
            _ => {},
        }
    }
}

/// A scan fails only on a malformed quote, at a byte of the input.
pub proof fn lemma_scan_fail_kind(s: Seq<u8>, i: int, st: ScanState, d: u8)
    requires
        0 <= i <= s.len(),
    ensures
        scan_from(s, i, st, d) matches ScanEnd::Fail { at, e } ==> (e == Error::UnescapedQuote
            || e == Error::UnexpectedQuote) && i <= at < s.len(),
    decreases s.len() - i,
{
    if i < s.len() {
        match step(st, s[i], d) {
            ScanStep::Go { next, .. } => {
                lemma_scan_fail_kind(s, i + 1, next, d);
            },
            _ => {},
        }
    }
}

/// Reads one record from the source into `buf`, pushing the column-end
/// offsets of its delimiters onto `cols`. Returns how many bytes it
/// consumed, the terminator included — zero exactly at end of stream — or
/// the malformed-quote error, on which nothing is appended and the bad byte
/// stays unconsumed. What comes back is a function of the unconsumed bytes
/// and the delimiter alone, never of the source's chunk bound.
pub fn read_line(src: &mut BufSource, buf: &mut Vec<u8>, delimiter: u8, cols: &mut Vec<usize>) -> (r:
    Result<usize, Error>)
    requires
        old(src).wf(),
        delimiter_ok(delimiter),
    ensures
        final(src).wf(),
        final(src).spec_data() == old(src).spec_data(),
        final(src).spec_chunk() == old(src).spec_chunk(),
        ({
            let s = old(src).remaining();
            match spec_scan(s, delimiter) {
                ScanEnd::Fail { at, e } => {
                    &&& r == Err::<usize, Error>(e)
                    &&& final(src).spec_pos() == old(src).spec_pos() + at
                    &&& final(buf)@ == old(buf)@
                    &&& final(cols)@ == old(cols)@
                },
                _ => {
                    &&& r == Ok::<usize, Error>(spec_used(s, delimiter) as usize)
                    &&& final(src).spec_pos() == old(src).spec_pos() + spec_used(s, delimiter)
                    &&& final(buf)@ == old(buf)@ + spec_raw(s, delimiter)
                    &&& final(cols)@ == old(cols)@ + spec_cols(s, delimiter)
                },
            }
        }),
{
    let ghost s = old(src).remaining();
    let start0: usize = src.position();
    let len0_buf: usize = buf.len();
    let len0_cols: usize = cols.len();
    let mut st = ScanState::FieldStart;
    proof {
        assert(s.len() == old(src).spec_data().len() - start0);
    }
    loop
        invariant
            src.wf(),
            delimiter_ok(delimiter),
            src.spec_data() == old(src).spec_data(),
            src.spec_chunk() == old(src).spec_chunk(),
            start0 == old(src).spec_pos(),
            s == old(src).remaining(),
            start0 <= src.spec_pos() <= src.spec_data().len(),
            s.len() == src.spec_data().len() - start0,
            buf@ == old(buf)@ + s.take(src.spec_pos() - start0),
            buf@.len() == len0_buf + (src.spec_pos() - start0),
            cols@.take(len0_cols as int) == old(cols)@,
            cols@.len() >= len0_cols,
            spec_cols(s, delimiter) == cols@.skip(len0_cols as int) + cols_from(
                s,
                src.spec_pos() - start0,
                st,
                delimiter,
                0,
            ),
            spec_scan(s, delimiter) == scan_from(s, src.spec_pos() - start0, st, delimiter),
        decreases src.spec_data().len() - src.spec_pos(),
    {
        let (lo, hi) = src.fill();
        if lo == hi {
            // End of stream: whatever was scanned forms the final record.
            proof {
                assert(s.take(lo - start0) =~= s);
                assert(cols_from(s, lo - start0, st, delimiter, 0) =~= Seq::<usize>::empty());
                assert(cols@.skip(len0_cols as int) + Seq::<usize>::empty() =~= cols@.skip(
                    len0_cols as int,
                ));
                assert(cols@ =~= cols@.take(len0_cols as int) + cols@.skip(len0_cols as int));
            }
            return Ok(lo - start0);
        }
        let mut j: usize = lo;
        while j < hi
            invariant
                src.wf(),
                delimiter_ok(delimiter),
                src.spec_data() == old(src).spec_data(),
                src.spec_chunk() == old(src).spec_chunk(),
                start0 == old(src).spec_pos(),
                s == old(src).remaining(),
                s.len() == src.spec_data().len() - start0,
                src.spec_pos() == lo,
                start0 <= lo <= j <= hi <= src.spec_data().len(),
                buf@ == old(buf)@ + s.take(j - start0),
                buf@.len() == len0_buf + (j - start0),
                cols@.take(len0_cols as int) == old(cols)@,
                cols@.len() >= len0_cols,
                spec_cols(s, delimiter) == cols@.skip(len0_cols as int) + cols_from(
                    s,
                    j - start0,
                    st,
                    delimiter,
                    0,
                ),
                spec_scan(s, delimiter) == scan_from(s, j - start0, st, delimiter),
            decreases hi - j,
        {
            let b = src.get(j);
            proof {
                assert(s[j - start0] == src.spec_data()[j as int]);
            }
            match step_byte(st, b, delimiter) {
                ScanStep::Go { next, push_col } => {
                    proof {
                        assert(scan_from(s, j - start0, st, delimiter) == scan_from(
                            s,
                            j + 1 - start0,
                            next,
                            delimiter,
                        ));
                    }
                    let ghost oldc = cols@;
                    buf.push(b);
                    if push_col {
                        cols.push(j - start0);
                        proof {
                            assert(cols_from(s, j - start0, st, delimiter, 0) == seq![(j
                                - start0) as usize] + cols_from(s, j + 1 - start0, next, delimiter, 0));
                            assert(cols@.take(len0_cols as int) =~= oldc.take(len0_cols as int));
                            assert(cols@.skip(len0_cols as int) + cols_from(
                                s,
                                j + 1 - start0,
                                next,
                                delimiter,
                                0,
                            ) =~= oldc.skip(len0_cols as int) + cols_from(
                                s,
                                j - start0,
                                st,
                                delimiter,
                                0,
                            ));
                        }
                    } else {
                        proof {
                            assert(cols_from(s, j - start0, st, delimiter, 0) == cols_from(
                                s,
                                j + 1 - start0,
                                next,
                                delimiter,
                                0,
                            ));
                        }
                    }
                    proof {
                        assert(s.take(j + 1 - start0) =~= s.take(j - start0).push(s[j - start0]));
                    }
                    st = next;
                    j = j + 1;
                },
                ScanStep::End => {
                    // The terminator is consumed but never appended.
                    src.consume(j + 1 - lo);
                    proof {
                        assert(spec_scan(s, delimiter) == ScanEnd::Term { end: j - start0 });
                        assert(spec_raw(s, delimiter) == s.take(j - start0));
                        assert(cols_from(s, j - start0, st, delimiter, 0)
                            =~= Seq::<usize>::empty());
                        assert(cols@.skip(len0_cols as int) + Seq::<usize>::empty() =~= cols@.skip(
                            len0_cols as int,
                        ));
                        assert(cols@ =~= cols@.take(len0_cols as int) + cols@.skip(
                            len0_cols as int,
                        ));
                    }
                    return Ok(j + 1 - start0);
                },
                ScanStep::Bad { e } => {
                    // The bad byte stays unconsumed; the caller is terminal
                    // after this, so partial work is unwound.
                    src.consume(j - lo);
                    buf.truncate(len0_buf);
                    cols.truncate(len0_cols);
                    proof {
                        assert(spec_scan(s, delimiter) == ScanEnd::Fail { at: j - start0, e });
                        assert(buf@ =~= old(buf)@);
                        assert(cols@ =~= old(cols)@);
                    }
                    return Err(e);
                },
            }
        }
        src.consume(hi - lo);
    }
}

} // verus!
