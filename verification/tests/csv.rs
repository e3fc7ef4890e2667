use quick_csv::{BufSource, Csv, Error};

fn all_rows(csv: &mut Csv) -> Vec<Result<Vec<String>, Error>> {
    let mut out = Vec::new();
    while let Some(r) = csv.next() {
        match r {
            Ok(row) => out.push(row.columns()),
            Err(e) => out.push(Err(e)),
        }
    }
    out
}

fn strings(v: &[&str]) -> Vec<String> {
    v.iter().map(|s| s.to_string()).collect()
}

#[test]
fn roundtrip_simple_row() {
    let mut csv = Csv::from_string("a,b,c\n");
    let rows = all_rows(&mut csv);
    assert_eq!(rows.len(), 1);
    assert_eq!(rows[0].as_ref().unwrap(), &strings(&["a", "b", "c"]));
}

#[test]
fn quoted_delimiter_stays_data() {
    let mut csv = Csv::from_string("a,\"b,c\",d\n");
    let rows = all_rows(&mut csv);
    assert_eq!(rows.len(), 1);
    assert_eq!(rows[0].as_ref().unwrap(), &strings(&["a", "b,c", "d"]));
}

#[test]
fn escaped_quote_collapses() {
    let mut csv = Csv::from_string("a,\"b\"\"c\",d\n");
    let rows = all_rows(&mut csv);
    assert_eq!(rows.len(), 1);
    assert_eq!(rows[0].as_ref().unwrap(), &strings(&["a", "b\"c", "d"]));
}

#[test]
fn unescaped_quote_fails() {
    let mut csv = Csv::from_string("a,\"b\"c,d\n");
    let rows = all_rows(&mut csv);
    assert_eq!(rows.len(), 1);
    assert_eq!(rows[0], Err(Error::UnescapedQuote));
}

#[test]
fn unexpected_quote_fails() {
    let mut csv = Csv::from_string("ab\"c,d\n");
    let rows = all_rows(&mut csv);
    assert_eq!(rows.len(), 1);
    assert_eq!(rows[0], Err(Error::UnexpectedQuote));
}

#[test]
fn reader_is_terminal_after_error() {
    let mut csv = Csv::from_string("ab\"c,d\nx,y\n");
    assert_eq!(
        csv.next().map(|r| r.map(|_| ())),
        Some(Err(Error::UnexpectedQuote))
    );
    assert!(csv.next().is_none());
    assert!(csv.next().is_none());
}

#[test]
fn first_row_sets_expected_columns() {
    let mut csv = Csv::from_string("a,b\nc,d\n");
    assert_eq!(csv.len(), None);
    let first = csv.next().unwrap().unwrap();
    assert_eq!(first.len(), 2);
    assert_eq!(csv.len(), Some(2));
    let second = csv.next().unwrap().unwrap();
    assert_eq!(second.len(), 2);
    assert!(csv.next().is_none());
}

#[test]
fn column_mismatch_is_fatal_when_strict() {
    let mut csv = Csv::from_string("a,b\nc\nd,e\n");
    assert!(csv.next().unwrap().is_ok());
    assert_eq!(
        csv.next().map(|r| r.map(|_| ())),
        Some(Err(Error::ColumnMismatch(2, 1)))
    );
    assert!(csv.next().is_none());
}

#[test]
fn flexible_mode_tolerates_mismatch() {
    let mut csv = Csv::from_string("a,b\nc\nd,e,f\n").flexible(true);
    let rows = all_rows(&mut csv);
    assert_eq!(rows.len(), 3);
    assert_eq!(rows[0].as_ref().unwrap(), &strings(&["a", "b"]));
    assert_eq!(rows[1].as_ref().unwrap(), &strings(&["c"]));
    assert_eq!(rows[2].as_ref().unwrap(), &strings(&["d", "e", "f"]));
    // the learned count still reflects the first row, advisory only
    assert_eq!(csv.len(), Some(2));
}

#[test]
fn chunk_size_never_changes_the_rows() {
    let input = "aa,\"b\"\"b,\nb\",cc\r\nx,\"y\",zz\n\"q\",r,\"\"\ns,t,u";
    let whole: Vec<Result<Vec<String>, Error>> = {
        let mut csv = Csv::from_string(input);
        all_rows(&mut csv)
    };
    assert_eq!(whole.len(), 4);
    for chunk in 1..=input.len() {
        let source = BufSource::new(input.as_bytes().to_vec(), chunk);
        let mut csv = Csv::from_reader(source);
        let rows = all_rows(&mut csv);
        assert_eq!(rows, whole, "chunk size {} changed the rows", chunk);
    }
}

#[test]
fn chunk_size_never_changes_an_error() {
    let input = "a,\"b\"x\n";
    let whole: Vec<Result<Vec<String>, Error>> = {
        let mut csv = Csv::from_string(input);
        all_rows(&mut csv)
    };
    assert_eq!(whole, vec![Err(Error::UnescapedQuote)]);
    for chunk in [1usize, 2, 3, 7] {
        let source = BufSource::new(input.as_bytes().to_vec(), chunk);
        let mut csv = Csv::from_reader(source);
        assert_eq!(all_rows(&mut csv), whole);
    }
}

#[test]
fn crlf_and_lf_read_alike() {
    let mut crlf = Csv::from_string("a,b\r\n");
    let mut lf = Csv::from_string("a,b\n");
    assert_eq!(all_rows(&mut crlf), all_rows(&mut lf));
}

#[test]
fn missing_trailing_terminator_still_yields_the_row() {
    let mut csv = Csv::from_string("a,b");
    let rows = all_rows(&mut csv);
    assert_eq!(rows.len(), 1);
    assert_eq!(rows[0].as_ref().unwrap(), &strings(&["a", "b"]));
}

#[test]
fn quoted_field_may_hold_a_newline() {
    let mut csv = Csv::from_string("a,\"b\nc\",d\n");
    let rows = all_rows(&mut csv);
    assert_eq!(rows.len(), 1);
    assert_eq!(rows[0].as_ref().unwrap(), &strings(&["a", "b\nc", "d"]));
}

#[test]
fn bytes_columns_unquote_too() {
    let mut csv = Csv::from_string("a,\"b,c\",\"d\"\"e\"\n");
    let row = csv.next().unwrap().unwrap();
    let cols = row.bytes_columns();
    assert_eq!(cols.len(), 3);
    assert_eq!(cols[0], b"a".to_vec());
    assert_eq!(cols[1], b"b,c".to_vec());
    assert_eq!(cols[2], b"d\"e".to_vec());
}

#[test]
fn invalid_utf8_fails_text_access_alone() {
    let source = BufSource::new(vec![0xff, b'a', b',', b'b', b'\n'], 4);
    let mut csv = Csv::from_reader(source);
    let row = csv.next().unwrap().unwrap();
    assert_eq!(row.columns(), Err(Error::InvalidEncoding));
    let cols = row.bytes_columns();
    assert_eq!(cols.len(), 2);
    assert_eq!(cols[0], vec![0xff, b'a']);
    assert_eq!(cols[1], b"b".to_vec());
}

#[test]
fn non_ascii_text_decodes() {
    let mut csv = Csv::from_string("héllo,wörld\n");
    let rows = all_rows(&mut csv);
    assert_eq!(rows[0].as_ref().unwrap(), &strings(&["héllo", "wörld"]));
}

#[test]
fn headers_come_from_the_first_row() {
    let mut csv = Csv::from_string("h1,h2\nv1,v2\n").has_header(true);
    assert_eq!(csv.headers(), strings(&["h1", "h2"]));
    // asking again answers from the kept copy
    assert_eq!(csv.headers(), strings(&["h1", "h2"]));
    let rows = all_rows(&mut csv);
    assert_eq!(rows.len(), 1);
    assert_eq!(rows[0].as_ref().unwrap(), &strings(&["v1", "v2"]));
}

#[test]
fn headers_empty_without_header_row() {
    let mut csv = Csv::from_string("v1,v2\n");
    assert_eq!(csv.headers(), Vec::<String>::new());
    let rows = all_rows(&mut csv);
    assert_eq!(rows.len(), 1);
}

#[test]
fn custom_delimiter() {
    let mut csv = Csv::from_string("a;b;c\n1;2;3\n").delimiter(b';');
    let rows = all_rows(&mut csv);
    assert_eq!(rows.len(), 2);
    assert_eq!(rows[0].as_ref().unwrap(), &strings(&["a", "b", "c"]));
    assert_eq!(rows[1].as_ref().unwrap(), &strings(&["1", "2", "3"]));
}

#[test]
fn empty_input_gives_no_row() {
    let mut csv = Csv::from_string("");
    assert!(csv.next().is_none());
}

#[test]
fn lone_terminator_gives_one_empty_column() {
    let mut csv = Csv::from_string("\n");
    let rows = all_rows(&mut csv);
    assert_eq!(rows.len(), 1);
    assert_eq!(rows[0].as_ref().unwrap(), &strings(&[""]));
}

#[test]
fn empty_columns_survive() {
    let mut csv = Csv::from_string("a,,b\n,x,\n");
    let rows = all_rows(&mut csv);
    assert_eq!(rows.len(), 2);
    assert_eq!(rows[0].as_ref().unwrap(), &strings(&["a", "", "b"]));
    assert_eq!(rows[1].as_ref().unwrap(), &strings(&["", "x", ""]));
}

#[test]
fn quoted_empty_field() {
    let mut csv = Csv::from_string("a,\"\"\n");
    let rows = all_rows(&mut csv);
    assert_eq!(rows[0].as_ref().unwrap(), &strings(&["a", ""]));
}

#[test]
fn unterminated_quote_at_end_of_stream() {
    let mut csv = Csv::from_string("a,\"bc");
    let rows = all_rows(&mut csv);
    assert_eq!(rows.len(), 1);
    // the span never closed, so the bytes stand as scanned
    assert_eq!(rows[0].as_ref().unwrap(), &strings(&["a", "\"bc"]));
}

#[test]
fn row_len_counts_columns() {
    let mut csv = Csv::from_string("a,b,c,d\n");
    let row = csv.next().unwrap().unwrap();
    assert_eq!(row.len(), 4);
    assert_eq!(csv.len(), Some(4));
}
