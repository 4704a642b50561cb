//! A small CSV/TSV reader for pseudo-op scripts: quoted fields may hold
//! delimiters, line breaks and `""` for one literal quote; the delimiter is
//! one character; blank lines are skipped; fields stay plain strings, neither
//! converted nor trimmed.
//!
//! As for the XML reader, the grammar is a family of spec functions over the
//! character sequence and a position, and the reader is proved to return
//! exactly what they describe.

use std::sync::Arc;
use vstd::prelude::*;
use crate::script::share;
use crate::text::{
    chars_of, col_at, debug_str, decimal, line_at, line_col, push_all, push_decimal, push_signed,
    push_str, signed_decimal, str_debug, str_eq, string_of, sub_chars,
};

verus! {

/// Character views of a sequence of strings.
pub open spec fn strs(v: Seq<String>) -> Seq<Seq<char>> {
    v.map_values(|x: String| x@)
}

/// A parsed table. Cloning it shares its data.
#[derive(Clone, Debug)]
pub struct CsvTable(pub Arc<CsvTableData>);

/// The header row and the data rows of a table.
#[derive(Debug)]
pub struct CsvTableData {
    pub headers: Arc<Vec<String>>,
    pub rows: Vec<CsvRow>,
}

/// One data row, indexable by column name or position. Cloning it shares its
/// data; the header row is shared by all rows of a table.
#[derive(Clone, Debug)]
pub struct CsvRow(pub Arc<CsvRowData>);

/// The header row a data row belongs to, and its fields.
#[derive(Debug)]
pub struct CsvRowData {
    pub headers: Arc<Vec<String>>,
    pub fields: Vec<String>,
}

impl View for CsvRow {
    /// The header row and the fields.
    type V = (Seq<Seq<char>>, Seq<Seq<char>>);

    open spec fn view(&self) -> (Seq<Seq<char>>, Seq<Seq<char>>) {
        (strs(self.0.headers@), strs(self.0.fields@))
    }
}

/// The fields of each row.
pub open spec fn row_fields(rows: Seq<CsvRow>) -> Seq<Seq<Seq<char>>> {
    rows.map_values(|r: CsvRow| r@.1)
}

impl View for CsvTable {
    /// The header row and the fields of each data row.
    type V = (Seq<Seq<char>>, Seq<Seq<Seq<char>>>);

    open spec fn view(&self) -> (Seq<Seq<char>>, Seq<Seq<Seq<char>>>) {
        (strs(self.0.headers@), row_fields(self.0.rows@))
    }
}

impl CsvTable {
    /// The header row.
    pub fn headers(&self) -> (r: &[String])
        ensures
            strs(r@) == self@.0,
    {
        self.0.headers.as_slice()
    }

    /// The data rows.
    pub fn rows(&self) -> (r: &[CsvRow])
        ensures
            r@ == self.0.rows@,
            row_fields(r@) == self@.1,
    {
        self.0.rows.as_slice()
    }

    /// Handles on every data row, in order.
    pub fn into_rows(self) -> (r: Vec<CsvRow>)
        ensures
            r@ == self.0.rows@,
    {
        let rows = &self.0.rows;
        let mut out: Vec<CsvRow> = Vec::new();
        let mut i: usize = 0;
        while i < rows.len()
            invariant
                i <= rows.len(),
                out@ == rows@.take(i as int),
            decreases rows.len() - i,
        {
            out.push(rows[i].share());
            assert(out@ =~= rows@.take(i + 1));
            i += 1;
        }
        assert(rows@.take(rows.len() as int) =~= rows@);
        out
    }
}

/// The position of the first of `hs` equal to `name`, from index `i`.
pub open spec fn header_from(hs: Seq<Seq<char>>, name: Seq<char>, i: int) -> Option<int>
    decreases hs.len() - i,
{
    if i < 0 || i >= hs.len() {
        None
    } else if hs[i] == name {
        Some(i)
    } else {
        header_from(hs, name, i + 1)
    }
}

impl CsvRow {
    /// A second handle on this row.
    pub fn share(&self) -> (r: CsvRow)
        ensures
            r == *self,
    {
        CsvRow(share(&self.0))
    }

    /// The field under the first header named `name`, or an error naming the
    /// unknown column.
    pub fn field_by_name(&self, name: &str) -> (r: Result<&str, String>)
        requires
            self.0.fields.len() == self.0.headers.len(),
        ensures
            match header_from(self@.0, name@, 0) {
                Some(i) => r matches Ok(f) && f@ == self@.1[i],
                None => r matches Err(m) && m@ == "unknown column "@ + str_debug(name@),
            },
    {
        let hs = &self.0.headers;
        let mut i: usize = 0;
        while i < hs.len()
            invariant
                i <= hs.len(),
                hs == &self.0.headers,
                self.0.fields.len() == hs.len(),
                header_from(self@.0, name@, 0) == header_from(self@.0, name@, i as int),
            decreases hs.len() - i,
        {
            if str_eq(hs[i].as_str(), name) {
                return Ok(self.0.fields[i].as_str());
            }
            i += 1;
        }
        let mut m = chars_of("unknown column ");
        let d = debug_str(name);
        push_str(&mut m, d.as_str());
        Err(string_of(&m))
    }

    /// The field at position `index`, or an error naming the index and the
    /// row's width.
    pub fn field_by_index(&self, index: i64) -> (r: Result<&str, String>)
        ensures
            0 <= index < self@.1.len() ==> (r matches Ok(f) && f@ == self@.1[index as int]),
            !(0 <= index < self@.1.len()) ==> (r matches Err(m) && m@ == "row index "@
                + signed_decimal(index as int) + " out of range (0.."@ + decimal(
                self@.1.len(),
            ) + ")"@),
    {
        let n = self.0.fields.len();
        if 0 <= index && (index as u64) < (n as u64) {
            return Ok(self.0.fields[index as usize].as_str());
        }
        let mut m = chars_of("row index ");
        push_signed(&mut m, index);
        push_str(&mut m, " out of range (0..");
        push_decimal(&mut m, n as u64);
        push_str(&mut m, ")");
        Err(string_of(&m))
    }
}

/// A parse failure: the line and column reached, and what went wrong.
#[derive(Debug, Clone, PartialEq, Eq)]
pub struct CsvError {
    pub line: u32,
    pub col: u32,
    pub message: String,
}

impl CsvError {
    /// `line:col: message`.
    pub fn describe(&self) -> (r: String)
        ensures
            r@ == decimal(self.line as nat) + ":"@ + decimal(self.col as nat) + ": "@
                + self.message@,
    {
        let mut v: Vec<char> = Vec::new();
        push_decimal(&mut v, self.line as u64);
        push_str(&mut v, ":");
        push_decimal(&mut v, self.col as u64);
        push_str(&mut v, ": ");
        push_str(&mut v, self.message.as_str());
        string_of(&v)
    }
}

// ---------------------------------------------------------------------------
// The grammar
// ---------------------------------------------------------------------------

/// A failure: line, column and message.
pub type Fault = (int, int, Seq<char>);

/// An unquoted field from `i`: up to a line break, the delimiter, or the end.
pub open spec fn plain_end(s: Seq<char>, i: int, d: char) -> int
    decreases s.len() - i,
{
    if 0 <= i < s.len() && s[i] != '\r' && s[i] != '\n' && s[i] != d {
        plain_end(s, i + 1, d)
    } else {
        i
    }
}

/// The rest of a quoted field opened at `start`, read from `i` and appended
/// to `acc`: `""` is one quote, a lone `"` closes it.
pub open spec fn quoted_from(s: Seq<char>, start: int, i: int, acc: Seq<char>) -> Result<
    (Seq<char>, int),
    Fault,
>
    decreases s.len() - i,
{
    if i < 0 || i >= s.len() {
        Err((line_at(s, start), col_at(s, start), "unterminated quoted field"@))
    } else if s[i] == '"' {
        if i + 1 < s.len() && s[i + 1] == '"' {
            quoted_from(s, start, i + 2, acc.push('"'))
        } else {
            Ok((acc, i + 1))
        }
    } else {
        quoted_from(s, start, i + 1, acc.push(s[i]))
    }
}

/// A field at `i`, quoted or not.
pub open spec fn field_at(s: Seq<char>, i: int, d: char) -> Result<(Seq<char>, int), Fault> {
    if 0 <= i < s.len() && s[i] == '"' {
        quoted_from(s, i, i + 1, Seq::empty())
    } else {
        let e = plain_end(s, i, d);
        Ok((s.subrange(i, e), e))
    }
}

/// The fields of a row from `i`, appended to `acc`, and the position after
/// the last one.
pub open spec fn fields_from(s: Seq<char>, i: int, d: char, acc: Seq<Seq<char>>) -> Result<
    (Seq<Seq<char>>, int),
    Fault,
>
    decreases s.len() - i,
{
    match field_at(s, i, d) {
        Err(f) => Err(f),
        Ok((v, e)) => if 0 <= i <= e < s.len() && s[e] == d {
            fields_from(s, e + 1, d, acc.push(v))
        } else {
            Ok((acc.push(v), e))
        },
    }
}

/// The position after one line ending (`\r\n`, `\r` or `\n`) at `i`, or `i`.
pub open spec fn line_end(s: Seq<char>, i: int) -> int {
    if 0 <= i < s.len() && s[i] == '\r' {
        if i + 1 < s.len() && s[i + 1] == '\n' {
            i + 2
        } else {
            i + 1
        }
    } else if 0 <= i < s.len() && s[i] == '\n' {
        i + 1
    } else {
        i
    }
}

/// The first position from `i` past any blank lines.
pub open spec fn blank_end(s: Seq<char>, i: int) -> int
    decreases s.len() - i,
{
    if 0 <= i < s.len() && (s[i] == '\r' || s[i] == '\n') {
        blank_end(s, line_end(s, i))
    } else {
        i
    }
}

/// The next row from `i`: `None` at the end of input, else its fields, the
/// position it starts at, and the position after its line ending.
pub open spec fn row_at(s: Seq<char>, i: int, d: char) -> Result<
    Option<(Seq<Seq<char>>, int, int)>,
    Fault,
> {
    let k = blank_end(s, i);
    if k < 0 || k >= s.len() {
        Ok(None)
    } else {
        match fields_from(s, k, d, Seq::empty()) {
            Err(f) => Err(f),
            Ok((fs, e)) => Ok(Some((fs, k, line_end(s, e)))),
        }
    }
}

/// The message for a data row of `n` fields under `headers`: the first
/// header it lacks, or the first of its fields that has no header.
pub open spec fn width_message(n: nat, headers: Seq<Seq<char>>) -> Seq<char> {
    let bad = if n < headers.len() {
        "missing "@ + str_debug(headers[n as int])
    } else {
        "no header for field "@ + decimal(headers.len() + 1)
    };
    "row has "@ + decimal(n) + " field"@ + (if n == 1 {
        ""@
    } else {
        "s"@
    }) + ", expected "@ + decimal(headers.len()) + " ("@ + bad + ")"@
}

/// The data rows from `i`, appended to `acc`; a row whose width differs from
/// the header row's is an error at the start of its line.
pub open spec fn rows_from(
    s: Seq<char>,
    i: int,
    d: char,
    headers: Seq<Seq<char>>,
    acc: Seq<Seq<Seq<char>>>,
) -> Result<Seq<Seq<Seq<char>>>, Fault>
    decreases s.len() - i,
{
    match row_at(s, i, d) {
        Err(f) => Err(f),
        Ok(None) => Ok(acc),
        Ok(Some((fs, k, e))) => if fs.len() != headers.len() {
            Err((line_at(s, k), 1, width_message(fs.len(), headers)))
        } else if 0 <= i < e <= s.len() {
            rows_from(s, e, d, headers, acc.push(fs))
        } else {
            Ok(acc.push(fs))
        },
    }
}

/// A whole document: its header row (none for an empty document) and its
/// data rows.
pub open spec fn table(s: Seq<char>, d: char) -> Result<
    (Seq<Seq<char>>, Seq<Seq<Seq<char>>>),
    Fault,
> {
    match row_at(s, 0, d) {
        Err(f) => Err(f),
        Ok(None) => Ok((Seq::empty(), Seq::empty())),
        Ok(Some((hs, _, e))) => match rows_from(s, e, d, hs, Seq::empty()) {
            Err(f) => Err(f),
            Ok(rows) => Ok((hs, rows)),
        },
    }
}

// ---------------------------------------------------------------------------
// The reader
// ---------------------------------------------------------------------------

/// A failure while reading.
struct Failure {
    line: u32,
    col: u32,
    message: Vec<char>,
}

/// The spec value of a failure.
spec fn fault(f: Failure) -> Fault {
    (f.line as int, f.col as int, f.message@)
}

/// An unquoted field from `i`.
fn read_plain(s: &Vec<char>, i: usize, d: char) -> (e: usize)
    requires
        i <= s.len(),
    ensures
        e == plain_end(s@, i as int, d),
        i <= e <= s.len(),
        i < s.len() && s@[i as int] != '\r' && s@[i as int] != '\n' && s@[i as int] != d ==> i < e,
{
    let mut e = i;
    while e < s.len() && s[e] != '\r' && s[e] != '\n' && s[e] != d
        invariant
            i <= e <= s.len(),
            plain_end(s@, i as int, d) == plain_end(s@, e as int, d),
        decreases s.len() - e,
    {
        e += 1;
    }
    e
}

/// A quoted field whose quote is at `start`.
fn read_quoted(s: &Vec<char>, start: usize) -> (r: Result<(Vec<char>, usize), Failure>)
    requires
        start < s.len() < u32::MAX,
    ensures
        match r {
            Ok((v, e)) => quoted_from(s@, start as int, start + 1, Seq::empty()) == Ok::<
                (Seq<char>, int),
                Fault,
            >((v@, e as int)) && start < e <= s.len(),
            Err(f) => quoted_from(s@, start as int, start + 1, Seq::empty()) == Err::<
                (Seq<char>, int),
                Fault,
            >(fault(f)),
        },
{
    let mut out: Vec<char> = Vec::new();
    let mut i = start + 1;
    loop
        invariant
            start < i <= s.len() < u32::MAX,
            quoted_from(s@, start as int, start + 1, Seq::empty()) == quoted_from(
                s@,
                start as int,
                i as int,
                out@,
            ),
        decreases s.len() - i,
    {
        if i >= s.len() {
            let (line, col) = line_col(s, start);
            return Err(Failure { line, col, message: chars_of("unterminated quoted field") });
        }
        if s[i] == '"' {
            if i + 1 < s.len() && s[i + 1] == '"' {
                out.push('"');
                i += 2;
            } else {
                return Ok((out, i + 1));
            }
        } else {
            out.push(s[i]);
            i += 1;
        }
    }
}

/// A field at `i`.
fn read_field(s: &Vec<char>, i: usize, d: char) -> (r: Result<(Vec<char>, usize), Failure>)
    requires
        i <= s.len() < u32::MAX,
    ensures
        match r {
            Ok((v, e)) => field_at(s@, i as int, d) == Ok::<(Seq<char>, int), Fault>(
                (v@, e as int),
            ) && i <= e <= s.len() && (i < s.len() && s@[i as int] == '"' ==> i < e) && (i
                < s.len() && s@[i as int] != '\r' && s@[i as int] != '\n' && s@[i as int] != d
                ==> i < e),
            Err(f) => field_at(s@, i as int, d) == Err::<(Seq<char>, int), Fault>(fault(f)),
        },
{
    if i < s.len() && s[i] == '"' {
        read_quoted(s, i)
    } else {
        let e = read_plain(s, i, d);
        Ok((sub_chars(s, i, e), e))
    }
}

/// The fields of the row starting at `k`, which is not a line break.
fn read_fields(s: &Vec<char>, k: usize, d: char) -> (r: Result<(Vec<String>, usize), Failure>)
    requires
        k < s.len() < u32::MAX,
        s@[k as int] != '\r',
        s@[k as int] != '\n',
    ensures
        match r {
            Ok((v, e)) => fields_from(s@, k as int, d, Seq::empty()) == Ok::<
                (Seq<Seq<char>>, int),
                Fault,
            >((strs(v@), e as int)) && k < e <= s.len() && v.len() <= e - k + 1,
            Err(f) => fields_from(s@, k as int, d, Seq::empty()) == Err::<
                (Seq<Seq<char>>, int),
                Fault,
            >(fault(f)),
        },
{
    let mut out: Vec<String> = Vec::new();
    let mut i = k;
    assert(strs(out@) =~= Seq::<Seq<char>>::empty());
    loop
        invariant
            k <= i <= s.len() < u32::MAX,
            k < s.len(),
            out.len() <= i - k,
            s@[k as int] != '\r',
            s@[k as int] != '\n',
            fields_from(s@, k as int, d, Seq::empty()) == fields_from(s@, i as int, d, strs(out@)),
        decreases s.len() - i,
    {
        match read_field(s, i, d) {
            Err(f) => {
                return Err(f);
            },
            Ok((v, e)) => {
                let ghost prev = strs(out@);
                out.push(string_of(&v));
                assert(strs(out@) =~= prev.push(v@));
                if e < s.len() && s[e] == d {
                    i = e + 1;
                } else {
                    return Ok((out, e));
                }
            },
        }
    }
}

/// The position after one line ending at `i`.
fn eat_line_ending(s: &Vec<char>, i: usize) -> (e: usize)
    requires
        i <= s.len(),
    ensures
        e == line_end(s@, i as int),
        i <= e <= s.len(),
{
    if i < s.len() && s[i] == '\r' {
        if i + 1 < s.len() && s[i + 1] == '\n' {
            i + 2
        } else {
            i + 1
        }
    } else if i < s.len() && s[i] == '\n' {
        i + 1
    } else {
        i
    }
}

/// The next row from `i`.
fn read_row(s: &Vec<char>, i: usize, d: char) -> (r: Result<
    Option<(Vec<String>, usize, usize)>,
    Failure,
>)
    requires
        i <= s.len() < u32::MAX,
    ensures
        match r {
            Ok(None) => row_at(s@, i as int, d) == Ok::<
                Option<(Seq<Seq<char>>, int, int)>,
                Fault,
            >(None),
            Ok(Some((v, k, e))) => row_at(s@, i as int, d) == Ok::<
                Option<(Seq<Seq<char>>, int, int)>,
                Fault,
            >(Some((strs(v@), k as int, e as int))) && i <= k < e <= s.len() && v.len() <= s.len()
                + 1,
            Err(f) => row_at(s@, i as int, d) == Err::<
                Option<(Seq<Seq<char>>, int, int)>,
                Fault,
            >(fault(f)),
        },
{
    let mut k = i;
    while k < s.len() && (s[k] == '\r' || s[k] == '\n')
        invariant
            i <= k <= s.len(),
            blank_end(s@, i as int) == blank_end(s@, k as int),
        decreases s.len() - k,
    {
        k = eat_line_ending(s, k);
    }
    if k >= s.len() {
        return Ok(None);
    }
    match read_fields(s, k, d) {
        Err(f) => Err(f),
        Ok((v, e)) => {
            let e2 = eat_line_ending(s, e);
            Ok(Some((v, k, e2)))
        },
    }
}

/// The message for a data row of `n` fields under `headers`.
fn width_msg(n: usize, headers: &Vec<String>) -> (m: Vec<char>)
    requires
        n <= u32::MAX,
    ensures
        m@ == width_message(n as nat, strs(headers@)),
{
    let mut m = chars_of("row has ");
    push_decimal(&mut m, n as u64);
    push_str(&mut m, " field");
    if n == 1 {
        push_str(&mut m, "");
    } else {
        push_str(&mut m, "s");
    }
    push_str(&mut m, ", expected ");
    push_decimal(&mut m, headers.len() as u64);
    push_str(&mut m, " (");
    if n < headers.len() {
        push_str(&mut m, "missing ");
        let dh = debug_str(headers[n].as_str());
        push_str(&mut m, dh.as_str());
    } else {
        push_str(&mut m, "no header for field ");
        push_decimal(&mut m, headers.len() as u64 + 1);
    }
    push_str(&mut m, ")");
    m
}

/// The error for a failure.
fn to_error(f: Failure) -> (e: CsvError)
    ensures
        e.line == f.line,
        e.col == f.col,
        e.message@ == f.message@,
{
    CsvError { line: f.line, col: f.col, message: string_of(&f.message) }
}

/// Parse `src` as CSV with `,` between fields.
pub fn parse(src: &str) -> (r: Result<CsvTable, CsvError>)
    requires
        src@.len() < u32::MAX,
    ensures
        match table(without_bom(src@), ',') {
            Ok(t) => r matches Ok(tb) && tb@ == t && forall|i: int|
                0 <= i < tb.0.rows.len() ==> (#[trigger] tb.0.rows@[i]).0.headers == tb.0.headers
                    && tb.0.rows@[i].0.fields.len() == tb.0.headers.len(),
            Err((l, c, m)) => r matches Err(e) && e.line == l && e.col == c && e.message@ == m,
        },
{
    parse_with_delimiter(src, ',')
}

/// Parse `src` as CSV/TSV with `delimiter` between fields. The first row that
/// is not blank is the header row; every later row must have as many fields.
/// The error names the line and column of an unterminated quoted field, or
/// the line of a row whose width differs from the header row's.
pub fn parse_with_delimiter(src: &str, delimiter: char) -> (r: Result<CsvTable, CsvError>)
    requires
        src@.len() < u32::MAX,
    ensures
        match table(without_bom(src@), delimiter) {
            Ok(t) => r matches Ok(tb) && tb@ == t && forall|i: int|
                0 <= i < tb.0.rows.len() ==> (#[trigger] tb.0.rows@[i]).0.headers == tb.0.headers
                    && tb.0.rows@[i].0.fields.len() == tb.0.headers.len(),
            Err((l, c, m)) => r matches Err(e) && e.line == l && e.col == c && e.message@ == m,
        },
{
    let all = chars_of(src);
    let s = if all.len() > 0 && all[0] == '\u{feff}' {
        sub_chars(&all, 1, all.len())
    } else {
        all
    };
    assert(s@ =~= without_bom(src@));
    let d = delimiter;
    let (header, _, mut i) = match read_row(&s, 0, d) {
        Err(f) => {
            return Err(to_error(f));
        },
        Ok(None) => {
            let empty = CsvTable(
                Arc::new(CsvTableData { headers: Arc::new(Vec::new()), rows: Vec::new() }),
            );
            assert(empty@.0 =~= Seq::<Seq<char>>::empty());
            assert(empty@.1 =~= Seq::<Seq<Seq<char>>>::empty());
            return Ok(empty);
        },
        Ok(Some(x)) => x,
    };
    let headers = Arc::new(header);
    let ghost hs = strs(headers@);
    let mut rows: Vec<CsvRow> = Vec::new();
    assert(row_fields(rows@) =~= Seq::<Seq<Seq<char>>>::empty());
    loop
        invariant
            i <= s.len() < u32::MAX,
            s@ == without_bom(src@),
            d == delimiter,
            hs == strs(headers@),
            table(s@, d) == match rows_from(s@, i as int, d, hs, row_fields(rows@)) {
                Err(f) => Err(f),
                Ok(rs) => Ok::<(Seq<Seq<char>>, Seq<Seq<Seq<char>>>), Fault>((hs, rs)),
            },
            forall|j: int|
                0 <= j < rows.len() ==> (#[trigger] rows@[j]).0.headers == headers
                    && rows@[j].0.fields.len() == headers.len(),
        decreases s.len() - i,
    {
        match read_row(&s, i, d) {
            Err(f) => {
                return Err(to_error(f));
            },
            Ok(None) => {
                let t = CsvTable(Arc::new(CsvTableData { headers, rows }));
                return Ok(t);
            },
            Ok(Some((fields, k, e))) => {
                if fields.len() != headers.len() {
                    let (line, _) = line_col(&s, k);
                    let m = width_msg(fields.len(), &headers);
                    return Err(CsvError { line, col: 1, message: string_of(&m) });
                }
                let ghost prev = row_fields(rows@);
                let row = CsvRow(Arc::new(CsvRowData { headers: share(&headers), fields }));
                rows.push(row);
                assert(row_fields(rows@) =~= prev.push(row@.1));
                i = e;
            },
        }
    }
}

/// The source without one leading byte-order mark.
pub open spec fn without_bom(s: Seq<char>) -> Seq<char> {
    if s.len() > 0 && s[0] == '\u{feff}' {
        s.skip(1)
    } else {
        s
    }
}

// ---------------------------------------------------------------------------
// Blank lines and the byte-order mark
// ---------------------------------------------------------------------------

/// An unquoted field never ends before it starts, nor past the text.
proof fn lemma_plain_end_from(s: Seq<char>, i: int, d: char)
    ensures
        plain_end(s, i, d) >= i,
        i <= s.len() ==> plain_end(s, i, d) <= s.len(),
    decreases s.len() - i,
{
    if 0 <= i < s.len() && s[i] != '\r' && s[i] != '\n' && s[i] != d {
        lemma_plain_end_from(s, i + 1, d);
    }
}

/// A quoted field read from `i` ends after `i`.
proof fn lemma_quoted_from_moves(s: Seq<char>, start: int, i: int, acc: Seq<char>)
    ensures
        quoted_from(s, start, i, acc) matches Ok((_, e)) ==> e > i,
    decreases s.len() - i,
{
    if 0 <= i < s.len() {
        if s[i] == '"' {
            if i + 1 < s.len() && s[i + 1] == '"' {
                lemma_quoted_from_moves(s, start, i + 2, acc.push('"'));
            }
        } else {
            lemma_quoted_from_moves(s, start, i + 1, acc.push(s[i]));
        }
    }
}

/// The fields of a row end no earlier than they start, and strictly after
/// their start when the row opens with a character that is not a line break.
proof fn lemma_fields_from_moves(s: Seq<char>, i: int, d: char, acc: Seq<Seq<char>>)
    requires
        0 <= i,
    ensures
        fields_from(s, i, d, acc) matches Ok((_, e)) ==> (e >= i && (i < s.len() && s[i] != '\r'
            && s[i] != '\n' ==> e > i)),
    decreases s.len() - i,
{
    lemma_plain_end_from(s, i, d);
    if 0 <= i < s.len() && s[i] == '"' {
        lemma_quoted_from_moves(s, i, i + 1, Seq::empty());
    }
    match field_at(s, i, d) {
        Err(_) => {},
        Ok((v, e)) => {
            assert(e >= i);
            if 0 <= i < s.len() && s[i] != '\r' && s[i] != '\n' && s[i] != '"' && e == i {
                lemma_plain_end_from(s, i + 1, d);
                assert(s[i] == d);
            }
            if 0 <= i <= e < s.len() && s[e] == d {
                lemma_fields_from_moves(s, e + 1, d, acc.push(v));
            }
        },
    }
}

/// Skipping line endings from anywhere inside a run of them stops at the same
/// place.
proof fn lemma_blank_end_within(s: Seq<char>, i: int, j: int)
    requires
        0 <= i <= j <= blank_end(s, i),
    ensures
        blank_end(s, j) == blank_end(s, i),
    decreases s.len() - i,
{
    if i < j {
        let le = line_end(s, i);
        if j < le {
            assert(j == i + 1 && s[j] == '\n');
            assert(line_end(s, j) == le);
        } else {
            lemma_blank_end_within(s, le, j);
        }
    }
}

/// Blank lines before a row change nothing: the rows read from anywhere
/// within a run of line endings are the rows read from its start.
pub proof fn lemma_blank_lines_are_skipped(
    s: Seq<char>,
    i: int,
    j: int,
    d: char,
    headers: Seq<Seq<char>>,
    acc: Seq<Seq<Seq<char>>>,
)
    requires
        0 <= i <= j <= blank_end(s, i),
    ensures
        rows_from(s, j, d, headers, acc) == rows_from(s, i, d, headers, acc),
{
    lemma_blank_end_within(s, i, j);
    let k = blank_end(s, i);
    if 0 <= k < s.len() {
        lemma_fields_from_moves(s, k, d, Seq::empty());
    }
}

/// A byte-order mark in front of the text is dropped before reading, so the
/// text reads the same with or without it.
pub proof fn lemma_bom_is_dropped(s: Seq<char>)
    requires
        !(s.len() > 0 && s[0] == '\u{feff}'),
    ensures
        without_bom(seq!['\u{feff}'] + s) == without_bom(s),
{
    assert((seq!['\u{feff}'] + s).skip(1) =~= s);
}

/// `s2` from `p2` on is `s1` from `p1` on.
pub open spec fn agree(s1: Seq<char>, p1: int, s2: Seq<char>, p2: int) -> bool {
    0 <= p1 <= s1.len() && 0 <= p2 <= s2.len() && s1.skip(p1) == s2.skip(p2)
}

/// Two reading outcomes that hold the same value, or both fail.
pub open spec fn same_outcome<T>(a: Result<T, Fault>, b: Result<T, Fault>) -> bool {
    match (a, b) {
        (Ok(x), Ok(y)) => x == y,
        (Err(_), Err(_)) => true,
        _ => false,
    }
}

/// Where the texts agree, they hold the same characters.
proof fn lemma_agree_at(s1: Seq<char>, p1: int, s2: Seq<char>, p2: int, i: int)
    requires
        agree(s1, p1, s2, p2),
        p1 <= i,
    ensures
        s1.len() - p1 == s2.len() - p2,
        (i < s1.len()) == (i - p1 + p2 < s2.len()),
        i < s1.len() ==> s2[i - p1 + p2] == s1[i],
{
    assert(s1.skip(p1).len() == s2.skip(p2).len());
    if i < s1.len() {
        assert(s1.skip(p1)[i - p1] == s1[i]);
        assert(s2.skip(p2)[i - p1] == s2[i - p1 + p2]);
    }
}

/// Where the texts agree, an unquoted field ends at the same place, shifted.
proof fn lemma_shift_plain_end(s1: Seq<char>, p1: int, s2: Seq<char>, p2: int, i: int, d: char)
    requires
        agree(s1, p1, s2, p2),
        p1 <= i,
    ensures
        plain_end(s2, i - p1 + p2, d) == plain_end(s1, i, d) - p1 + p2,
    decreases s1.len() - i,
{
    lemma_agree_at(s1, p1, s2, p2, i);
    if i < s1.len() && s1[i] != '\r' && s1[i] != '\n' && s1[i] != d {
        lemma_shift_plain_end(s1, p1, s2, p2, i + 1, d);
    }
}

/// Where the texts agree, a quoted field reads the same, shifted.
proof fn lemma_shift_quoted(s1: Seq<char>, p1: int, s2: Seq<char>, p2: int, start: int, i: int, acc: Seq<char>)
    requires
        agree(s1, p1, s2, p2),
        p1 <= i,
    ensures
        match (quoted_from(s2, start - p1 + p2, i - p1 + p2, acc), quoted_from(s1, start, i, acc)) {
            (Ok((v2, e2)), Ok((v1, e1))) => v2 == v1 && e2 == e1 - p1 + p2,
            (Err(_), Err(_)) => true,
            _ => false,
        },
    decreases s1.len() - i,
{
    lemma_agree_at(s1, p1, s2, p2, i);
    lemma_agree_at(s1, p1, s2, p2, i + 1);
    if i < s1.len() {
        if s1[i] == '"' {
            if i + 1 < s1.len() && s1[i + 1] == '"' {
                lemma_shift_quoted(s1, p1, s2, p2, start, i + 2, acc.push('"'));
            }
        } else {
            lemma_shift_quoted(s1, p1, s2, p2, start, i + 1, acc.push(s1[i]));
        }
    }
}

/// Where the texts agree, a row's fields read the same, shifted.
proof fn lemma_shift_fields(s1: Seq<char>, p1: int, s2: Seq<char>, p2: int, i: int, d: char, acc: Seq<Seq<char>>)
    requires
        agree(s1, p1, s2, p2),
        p1 <= i <= s1.len(),
    ensures
        match (fields_from(s2, i - p1 + p2, d, acc), fields_from(s1, i, d, acc)) {
            (Ok((v2, e2)), Ok((v1, e1))) => v2 == v1 && e2 == e1 - p1 + p2,
            (Err(_), Err(_)) => true,
            _ => false,
        },
    decreases s1.len() - i,
{
    let k = p2 - p1;
    lemma_agree_at(s1, p1, s2, p2, i);
    lemma_shift_plain_end(s1, p1, s2, p2, i, d);
    lemma_plain_end_from(s1, i, d);
    if i < s1.len() && s1[i] == '"' {
        lemma_shift_quoted(s1, p1, s2, p2, i, i + 1, Seq::empty());
        lemma_quoted_from_moves(s1, i, i + 1, Seq::empty());
    } else {
        let e = plain_end(s1, i, d);
        assert(s2.subrange(i + k, e + k) =~= s1.subrange(i, e)) by {
            assert forall|j: int| 0 <= j < e - i implies s2.subrange(i + k, e + k)[j] == s1.subrange(
                i,
                e,
            )[j] by {
                lemma_agree_at(s1, p1, s2, p2, i + j);
            }
        }
    }
    match field_at(s1, i, d) {
        Err(_) => {},
        Ok((v, e)) => {
            lemma_agree_at(s1, p1, s2, p2, e);
            if 0 <= i <= e < s1.len() && s1[e] == d {
                lemma_shift_fields(s1, p1, s2, p2, e + 1, d, acc.push(v));
            }
        },
    }
}

/// Where the texts agree, a line ending ends at the same place, shifted.
proof fn lemma_shift_line_end(s1: Seq<char>, p1: int, s2: Seq<char>, p2: int, i: int)
    requires
        agree(s1, p1, s2, p2),
        p1 <= i,
    ensures
        line_end(s2, i - p1 + p2) == line_end(s1, i) - p1 + p2,
{
    lemma_agree_at(s1, p1, s2, p2, i);
    lemma_agree_at(s1, p1, s2, p2, i + 1);
}

/// Where the texts agree, a run of blank lines ends at the same place, shifted.
proof fn lemma_shift_blank_end(s1: Seq<char>, p1: int, s2: Seq<char>, p2: int, i: int)
    requires
        agree(s1, p1, s2, p2),
        p1 <= i,
    ensures
        blank_end(s2, i - p1 + p2) == blank_end(s1, i) - p1 + p2,
    decreases s1.len() - i,
{
    lemma_agree_at(s1, p1, s2, p2, i);
    lemma_shift_line_end(s1, p1, s2, p2, i);
    if i < s1.len() && (s1[i] == '\r' || s1[i] == '\n') {
        lemma_shift_blank_end(s1, p1, s2, p2, line_end(s1, i));
    }
}

/// Reading never moves back: `blank_end` and `line_end` stay at or after
/// their start.
proof fn lemma_blank_end_from(s: Seq<char>, i: int)
    ensures
        blank_end(s, i) >= i,
    decreases s.len() - i,
{
    if 0 <= i < s.len() && (s[i] == '\r' || s[i] == '\n') {
        lemma_blank_end_from(s, line_end(s, i));
    }
}

/// The next row read where the texts agree is the same row, shifted.
proof fn lemma_shift_row_at(s1: Seq<char>, p1: int, s2: Seq<char>, p2: int, i: int, d: char)
    requires
        agree(s1, p1, s2, p2),
        p1 <= i,
    ensures
        match (row_at(s2, i - p1 + p2, d), row_at(s1, i, d)) {
            (Ok(None), Ok(None)) => true,
            (Ok(Some((f2, k2, e2))), Ok(Some((f1, k1, e1)))) => f2 == f1 && k2 == k1 - p1 + p2 && e2
                == e1 - p1 + p2,
            (Err(_), Err(_)) => true,
            _ => false,
        },
{
    lemma_shift_blank_end(s1, p1, s2, p2, i);
    lemma_blank_end_from(s1, i);
    let k1 = blank_end(s1, i);
    lemma_agree_at(s1, p1, s2, p2, k1);
    if 0 <= k1 < s1.len() {
        lemma_shift_fields(s1, p1, s2, p2, k1, d, Seq::empty());
        match fields_from(s1, k1, d, Seq::empty()) {
            Err(_) => {},
            Ok((fs, e0)) => {
                lemma_fields_from_moves(s1, k1, d, Seq::empty());
                lemma_shift_line_end(s1, p1, s2, p2, e0);
            },
        }
    }
}

/// Where the texts agree, the data rows read the same.
proof fn lemma_shift_rows(
    s1: Seq<char>,
    p1: int,
    s2: Seq<char>,
    p2: int,
    i: int,
    d: char,
    headers: Seq<Seq<char>>,
    acc: Seq<Seq<Seq<char>>>,
)
    requires
        agree(s1, p1, s2, p2),
        p1 <= i,
    ensures
        same_outcome(rows_from(s2, i - p1 + p2, d, headers, acc), rows_from(s1, i, d, headers, acc)),
    decreases s1.len() - i,
{
    lemma_shift_row_at(s1, p1, s2, p2, i, d);
    lemma_agree_at(s1, p1, s2, p2, i);
    match row_at(s1, i, d) {
        Ok(Some((fs, k1, e))) => {
            if fs.len() == headers.len() && 0 <= i < e <= s1.len() {
                lemma_shift_rows(s1, p1, s2, p2, e, d, headers, acc.push(fs));
            }
        },
        _ => {},
    }
}

/// A line feed inserted at `e` changes none of the rows read from `e` on: the
/// same rows come back, and reading fails exactly where it failed before.
pub proof fn lemma_blank_line_inserted(
    s: Seq<char>,
    e: int,
    d: char,
    headers: Seq<Seq<char>>,
    acc: Seq<Seq<Seq<char>>>,
)
    requires
        0 <= e <= s.len(),
    ensures
        same_outcome(
            rows_from(s.take(e) + seq!['\n'] + s.skip(e), e, d, headers, acc),
            rows_from(s, e, d, headers, acc),
        ),
{
    let s2 = s.take(e) + seq!['\n'] + s.skip(e);
    assert(s2[e] == '\n');
    assert(s2.skip(e + 1) =~= s.skip(e));
    lemma_blank_end_from(s2, e + 1);
    assert(blank_end(s2, e) == blank_end(s2, e + 1));
    lemma_blank_lines_are_skipped(s2, e, e + 1, d, headers, acc);
    lemma_shift_rows(s, e, s2, e + 1, e, d, headers, acc);
}

/// A blank line in front of the text changes nothing read from it: the same
/// header row and data rows, and a failure exactly when there was one.
pub proof fn lemma_leading_blank_line(s: Seq<char>, d: char)
    ensures
        same_outcome(table(seq!['\n'] + s, d), table(s, d)),
{
    let s2 = seq!['\n'] + s;
    assert(s2.skip(1) =~= s.skip(0));
    assert(s2[0] == '\n');
    lemma_blank_end_from(s2, 1);
    assert(blank_end(s2, 0) == blank_end(s2, 1));
    assert(row_at(s2, 0, d) == row_at(s2, 1, d));
    lemma_shift_row_at(s, 0, s2, 1, 0, d);
    match row_at(s, 0, d) {
        Ok(Some((hs, k, e))) => {
            lemma_blank_end_from(s, 0);
            lemma_fields_from_moves(s, k, d, Seq::empty());
            lemma_shift_rows(s, 0, s2, 1, e, d, hs, Seq::empty());
        },
        _ => {},
    }
}

/// Whether `d` can separate fields of a row: not a quote or a line break.
pub open spec fn plain_delimiter(d: char) -> bool {
    d != '"' && d != '\r' && d != '\n'
}

/// With a line feed appended, an unquoted field ends at the same place.
proof fn lemma_ext_plain_end(s: Seq<char>, i: int, d: char)
    requires
        0 <= i <= s.len(),
    ensures
        plain_end(s.push('\n'), i, d) == plain_end(s, i, d),
    decreases s.len() - i,
{
    if i < s.len() && s[i] != '\r' && s[i] != '\n' && s[i] != d {
        lemma_ext_plain_end(s, i + 1, d);
    }
}

/// With a line feed appended, a quoted field reads the same, or fails in both.
proof fn lemma_ext_quoted(s: Seq<char>, start: int, i: int, acc: Seq<char>)
    requires
        0 <= i <= s.len(),
    ensures
        same_outcome(quoted_from(s.push('\n'), start, i, acc), quoted_from(s, start, i, acc)),
        quoted_from(s, start, i, acc) matches Ok((_, e)) ==> e <= s.len(),
    decreases s.len() - i,
{
    let x = s.push('\n');
    if i == s.len() {
        assert(x[i] == '\n');
        assert(quoted_from(x, start, i, acc) == quoted_from(x, start, i + 1, acc.push('\n')));
    } else {
        assert(x[i] == s[i]);
        if s[i] == '"' {
            if i + 1 < s.len() && s[i + 1] == '"' {
                assert(x[i + 1] == s[i + 1]);
                lemma_ext_quoted(s, start, i + 2, acc.push('"'));
            } else if i + 1 < s.len() {
                assert(x[i + 1] == s[i + 1]);
            } else {
                assert(x[i + 1] == '\n');
            }
        } else {
            lemma_ext_quoted(s, start, i + 1, acc.push(s[i]));
        }
    }
}

/// With a line feed appended, a row's fields read the same, or fail in both.
proof fn lemma_ext_fields(s: Seq<char>, i: int, d: char, acc: Seq<Seq<char>>)
    requires
        0 <= i <= s.len(),
        plain_delimiter(d),
    ensures
        same_outcome(fields_from(s.push('\n'), i, d, acc), fields_from(s, i, d, acc)),
        fields_from(s, i, d, acc) matches Ok((_, e)) ==> e <= s.len(),
    decreases s.len() - i,
{
    let x = s.push('\n');
    lemma_ext_plain_end(s, i, d);
    lemma_plain_end_from(s, i, d);
    if i < s.len() {
        assert(x[i] == s[i]);
    }
    if i < s.len() && s[i] == '"' {
        lemma_ext_quoted(s, i, i + 1, Seq::empty());
        lemma_quoted_from_moves(s, i, i + 1, Seq::empty());
    } else {
        let e = plain_end(s, i, d);
        assert(x.subrange(i, e) =~= s.subrange(i, e));
        if i == s.len() {
            assert(x[i] == '\n');
        }
    }
    match field_at(s, i, d) {
        Err(_) => {},
        Ok((v, e)) => {
            if 0 <= e < s.len() {
                assert(x[e] == s[e]);
            } else if e == s.len() {
                assert(x[e] == '\n');
            }
            if 0 <= i <= e < s.len() && s[e] == d {
                lemma_ext_fields(s, e + 1, d, acc.push(v));
            }
        },
    }
}

/// With a line feed appended, a line ending ends at the same place, except
/// that one reaching the end of the text may take the added line feed too.
proof fn lemma_ext_line_end(s: Seq<char>, i: int)
    requires
        0 <= i <= s.len(),
    ensures
        line_end(s, i) <= s.len(),
        line_end(s.push('\n'), i) == line_end(s, i) || (line_end(s, i) == s.len() && line_end(
            s.push('\n'),
            i,
        ) == s.len() + 1),
{
    let x = s.push('\n');
    if i < s.len() {
        assert(x[i] == s[i]);
        if i + 1 < s.len() {
            assert(x[i + 1] == s[i + 1]);
        } else {
            assert(x[i + 1] == '\n');
        }
    } else {
        assert(x[i] == '\n');
    }
}

/// With a line feed appended, blank lines end at the same place, or both
/// runs reach the end of their text.
proof fn lemma_ext_blank_end(s: Seq<char>, i: int)
    requires
        0 <= i <= s.len(),
    ensures
        blank_end(s, i) <= s.len(),
        (blank_end(s, i) < s.len() && blank_end(s.push('\n'), i) == blank_end(s, i)) || (blank_end(
            s,
            i,
        ) == s.len() && blank_end(s.push('\n'), i) >= s.len() + 1),
    decreases s.len() - i,
{
    let x = s.push('\n');
    lemma_ext_line_end(s, i);
    if i < s.len() {
        assert(x[i] == s[i]);
        if s[i] == '\r' || s[i] == '\n' {
            lemma_ext_blank_end(s, line_end(s, i));
            if line_end(x, i) != line_end(s, i) {
                lemma_blank_end_from(x, (s.len() + 1) as int);
            }
        }
    } else {
        assert(x[i] == '\n');
        lemma_blank_end_from(x, i + 1);
    }
}

/// Blank lines are skipped up to a character that is not a line break, or to
/// the end.
proof fn lemma_blank_end_stops(s: Seq<char>, i: int)
    requires
        0 <= i,
    ensures
        0 <= blank_end(s, i) < s.len() ==> s[blank_end(s, i)] != '\r' && s[blank_end(s, i)] != '\n',
    decreases s.len() - i,
{
    if 0 <= i < s.len() && (s[i] == '\r' || s[i] == '\n') {
        lemma_blank_end_stops(s, line_end(s, i));
    }
}

/// With a line feed appended, the next row reads the same; its line ending
/// may take the added line feed too.
proof fn lemma_ext_row_at(s: Seq<char>, i: int, d: char)
    requires
        0 <= i <= s.len(),
        plain_delimiter(d),
    ensures
        match (row_at(s.push('\n'), i, d), row_at(s, i, d)) {
            (Ok(None), Ok(None)) => true,
            (Ok(Some((f2, k2, e2))), Ok(Some((f1, k1, e1)))) => f2 == f1 && k2 == k1 && i <= k1 <= e1 <= s.len()
                && (e2 == e1 || (e1 == s.len() && e2 == s.len() + 1)),
            (Err(_), Err(_)) => true,
            _ => false,
        },
{
    lemma_ext_blank_end(s, i);
    lemma_blank_end_from(s, i);
    let k = blank_end(s, i);
    if k < s.len() {
        lemma_ext_fields(s, k, d, Seq::empty());
        lemma_fields_from_moves(s, k, d, Seq::empty());
        match fields_from(s, k, d, Seq::empty()) {
            Err(_) => {},
            Ok((fs, e0)) => {
                lemma_ext_line_end(s, e0);
            },
        }
    }
}

/// With a line feed appended, the data rows read the same.
proof fn lemma_ext_rows(s: Seq<char>, i: int, d: char, headers: Seq<Seq<char>>, acc: Seq<Seq<Seq<char>>>)
    requires
        0 <= i <= s.len(),
        plain_delimiter(d),
    ensures
        same_outcome(rows_from(s.push('\n'), i, d, headers, acc), rows_from(s, i, d, headers, acc)),
    decreases s.len() - i,
{
    let x = s.push('\n');
    lemma_ext_row_at(s, i, d);
    lemma_blank_end_stops(s, i);
    lemma_blank_end_from(s, i);
    match row_at(s, i, d) {
        Ok(Some((fs, k, e))) => {
            lemma_fields_from_moves(s, k, d, Seq::empty());
            assert(i < e);
            if fs.len() == headers.len() {
                let a = acc.push(fs);
                assert(rows_from(s, i, d, headers, acc) == rows_from(s, e, d, headers, a));
                if e < s.len() {
                    assert(rows_from(x, i, d, headers, acc) == rows_from(x, e, d, headers, a));
                    lemma_ext_rows(s, e, d, headers, a);
                } else {
                    lemma_ext_row_at(s, s.len() as int, d);
                    lemma_ext_blank_end(s, s.len() as int);
                    lemma_blank_end_from(x, (s.len() + 1) as int);
                    assert(row_at(s, s.len() as int, d) == Ok::<Option<(Seq<Seq<char>>, int, int)>, Fault>(
                        None,
                    ));
                    assert(row_at(x, (s.len() + 1) as int, d) == Ok::<
                        Option<(Seq<Seq<char>>, int, int)>,
                        Fault,
                    >(None));
                    assert(rows_from(s, e, d, headers, a) == Ok::<Seq<Seq<Seq<char>>>, Fault>(a));
                    let e2 = row_at(x, i, d)->Ok_0->Some_0.2;
                    assert(rows_from(x, i, d, headers, acc) == rows_from(x, e2, d, headers, a));
                    assert(rows_from(x, e2, d, headers, a) == Ok::<Seq<Seq<Seq<char>>>, Fault>(a));
                }
            }
        },
        _ => {},
    }
}

/// A final line ending changes nothing read from the text: with a line feed
/// appended, the same header row and data rows come back, and reading fails
/// exactly when it failed before.
pub proof fn lemma_final_line_ending(s: Seq<char>, d: char)
    requires
        plain_delimiter(d),
    ensures
        same_outcome(table(s.push('\n'), d), table(s, d)),
{
    lemma_ext_row_at(s, 0, d);
    match row_at(s, 0, d) {
        Ok(Some((hs, k, e))) => {
            let x = s.push('\n');
            if e < s.len() {
                lemma_ext_rows(s, e, d, hs, Seq::empty());
            } else {
                lemma_ext_row_at(s, s.len() as int, d);
                lemma_ext_blank_end(s, s.len() as int);
                lemma_blank_end_from(x, (s.len() + 1) as int);
                lemma_ext_rows(s, s.len() as int, d, hs, Seq::empty());
                assert(row_at(x, (s.len() + 1) as int, d) == Ok::<
                    Option<(Seq<Seq<char>>, int, int)>,
                    Fault,
                >(None));
            }
        },
        _ => {},
    }
}

/// `t` is `s` up to `m`, then a line feed.
pub open spec fn feed_at(s: Seq<char>, t: Seq<char>, m: int) -> bool {
    &&& 0 <= m <= s.len()
    &&& m < t.len()
    &&& t[m] == '\n'
    &&& forall|j: int| 0 <= j < m ==> #[trigger] t[j] == s[j]
}

/// A line feed inserted at `e` is a line feed put at `e`, with the rest of
/// the text after it.
proof fn lemma_insert_feed(s: Seq<char>, e: int)
    requires
        0 <= e <= s.len(),
    ensures
        feed_at(s, s.take(e) + seq!['\n'] + s.skip(e), e),
        (s.take(e) + seq!['\n'] + s.skip(e)).skip(e + 1) == s.skip(e),
{
    let t = s.take(e) + seq!['\n'] + s.skip(e);
    assert forall|j: int| 0 <= j < e implies #[trigger] t[j] == s[j] by {
        assert(t[j] == s.take(e)[j]);
    }
    assert(t[e] == '\n');
    assert(t.skip(e + 1) =~= s.skip(e));
}

/// Before a line feed put at `m`, an unquoted field ending by `m` ends at
/// the same place.
proof fn lemma_feed_plain_end(s: Seq<char>, t: Seq<char>, m: int, i: int, d: char)
    requires
        feed_at(s, t, m),
        0 <= i,
        plain_end(s, i, d) <= m,
    ensures
        plain_end(t, i, d) == plain_end(s, i, d),
    decreases s.len() - i,
{
    lemma_plain_end_from(s, i, d);
    if i < m {
        assert(t[i] == s[i]);
        if s[i] != '\r' && s[i] != '\n' && s[i] != d {
            lemma_feed_plain_end(s, t, m, i + 1, d);
        }
    }
}

/// Before a line feed put at `m`, a quoted field ending by `m` reads the same.
proof fn lemma_feed_quoted(s: Seq<char>, t: Seq<char>, m: int, start: int, i: int, acc: Seq<char>)
    requires
        feed_at(s, t, m),
        0 <= i,
        quoted_from(s, start, i, acc) matches Ok((_, e)) && e <= m,
    ensures
        quoted_from(t, start, i, acc) == quoted_from(s, start, i, acc),
    decreases s.len() - i,
{
    lemma_quoted_from_moves(s, start, i, acc);
    assert(i < m);
    assert(t[i] == s[i]);
    if s[i] == '"' {
        if i + 1 < s.len() && s[i + 1] == '"' {
            lemma_quoted_from_moves(s, start, i + 2, acc.push('"'));
            assert(t[i + 1] == s[i + 1]);
            lemma_feed_quoted(s, t, m, start, i + 2, acc.push('"'));
        } else if i + 1 < m {
            assert(t[i + 1] == s[i + 1]);
        }
    } else {
        lemma_feed_quoted(s, t, m, start, i + 1, acc.push(s[i]));
    }
}

/// Before a line feed put at `m`, a row's fields ending by `m` read the same.
proof fn lemma_feed_fields(s: Seq<char>, t: Seq<char>, m: int, i: int, d: char, acc: Seq<Seq<char>>)
    requires
        feed_at(s, t, m),
        plain_delimiter(d),
        0 <= i,
        fields_from(s, i, d, acc) matches Ok((_, e)) && e <= m,
    ensures
        fields_from(t, i, d, acc) == fields_from(s, i, d, acc),
    decreases s.len() - i,
{
    lemma_plain_end_from(s, i, d);
    if i < s.len() && s[i] == '"' {
        lemma_quoted_from_moves(s, i, i + 1, Seq::empty());
    }
    match field_at(s, i, d) {
        Err(_) => {},
        Ok((v, f)) => {
            assert(i <= f);
            if 0 <= i <= f < s.len() && s[f] == d {
                lemma_fields_from_moves(s, f + 1, d, acc.push(v));
                lemma_feed_fields(s, t, m, f + 1, d, acc.push(v));
            }
            assert(f <= m);
            if i < s.len() && s[i] == '"' {
                assert(t[i] == s[i]);
                lemma_feed_quoted(s, t, m, i, i + 1, Seq::empty());
            } else {
                if i < m {
                    assert(t[i] == s[i]);
                }
                lemma_feed_plain_end(s, t, m, i, d);
                assert(t.subrange(i, f) =~= s.subrange(i, f));
            }
            if f < m {
                assert(t[f] == s[f]);
            }
        },
    }
}

/// Before a line feed put at `m`, blank lines ending before `m` end at the
/// same place.
proof fn lemma_feed_blank_end(s: Seq<char>, t: Seq<char>, m: int, i: int)
    requires
        feed_at(s, t, m),
        0 <= i,
        blank_end(s, i) < m,
    ensures
        blank_end(t, i) == blank_end(s, i),
    decreases s.len() - i,
{
    lemma_blank_end_from(s, i);
    assert(t[i] == s[i]);
    if i < s.len() && (s[i] == '\r' || s[i] == '\n') {
        lemma_blank_end_from(s, line_end(s, i));
        if i + 1 < m {
            assert(t[i + 1] == s[i + 1]);
        }
        lemma_feed_blank_end(s, t, m, line_end(s, i));
    }
}

/// Whether reading data rows of `headers`' width from `i` passes through
/// position `e` with every row read so far well formed.
pub open spec fn reaches(s: Seq<char>, d: char, headers: Seq<Seq<char>>, i: int, e: int) -> bool
    decreases s.len() - i,
{
    if i == e {
        true
    } else {
        match row_at(s, i, d) {
            Ok(Some((fs, _, e1))) => fs.len() == headers.len() && 0 <= i < e1 <= s.len() && reaches(
                s,
                d,
                headers,
                e1,
                e,
            ),
            _ => false,
        }
    }
}

/// Whether position `e` of `s` lies between two rows: reading passes
/// through it after the header row, each row so far well formed.
pub open spec fn row_boundary(s: Seq<char>, d: char, e: int) -> bool {
    match row_at(s, 0, d) {
        Ok(Some((hs, _, eh))) => reaches(s, d, hs, eh, e),
        _ => false,
    }
}

proof fn lemma_reaches_order(s: Seq<char>, d: char, headers: Seq<Seq<char>>, i: int, e: int)
    requires
        reaches(s, d, headers, i, e),
        i <= s.len(),
    ensures
        i <= e <= s.len(),
    decreases s.len() - i,
{
    if i != e {
        match row_at(s, i, d) {
            Ok(Some((_, _, e1))) => lemma_reaches_order(s, d, headers, e1, e),
            _ => {},
        }
    }
}

/// Before a line feed put at `m`, a row ending by `m` reads the same, and its
/// line ending may take the added line feed.
proof fn lemma_feed_row_at(s: Seq<char>, t: Seq<char>, m: int, i: int, d: char)
    requires
        feed_at(s, t, m),
        plain_delimiter(d),
        0 <= i,
        row_at(s, i, d) matches Ok(Some((_, _, e1))) && e1 <= m,
    ensures
        match (row_at(t, i, d), row_at(s, i, d)) {
            (Ok(Some((f2, k2, e2))), Ok(Some((f1, k1, e1)))) => f2 == f1 && k2 == k1 && (e2 == e1 || (e1
                == m && e2 == m + 1)),
            _ => false,
        },
{
    lemma_blank_end_from(s, i);
    lemma_blank_end_stops(s, i);
    let k = blank_end(s, i);
    lemma_fields_from_moves(s, k, d, Seq::empty());
    let (fs, e0) = fields_from(s, k, d, Seq::empty())->Ok_0;
    assert(e0 <= line_end(s, e0));
    if k == m {
        lemma_plain_end_from(s, k, d);
        assert(false);
    }
    lemma_feed_blank_end(s, t, m, i);
    lemma_feed_fields(s, t, m, k, d, Seq::empty());
    if e0 < m {
        assert(t[e0] == s[e0]);
        if e0 + 1 < m {
            assert(t[e0 + 1] == s[e0 + 1]);
        }
    }
}

/// A line feed inserted between two rows changes nothing read from the start
/// of any row up to there.
proof fn lemma_feed_rows(s: Seq<char>, e: int, i: int, d: char, headers: Seq<Seq<char>>, acc: Seq<Seq<Seq<char>>>)
    requires
        0 <= e < s.len(),
        0 <= i,
        plain_delimiter(d),
        reaches(s, d, headers, i, e),
    ensures
        same_outcome(
            rows_from(s.take(e) + seq!['\n'] + s.skip(e), i, d, headers, acc),
            rows_from(s, i, d, headers, acc),
        ),
    decreases s.len() - i,
{
    let t = s.take(e) + seq!['\n'] + s.skip(e);
    lemma_insert_feed(s, e);
    if i == e {
        lemma_blank_line_inserted(s, e, d, headers, acc);
    } else {
        let (fs, k, e1) = row_at(s, i, d)->Ok_0->Some_0;
        lemma_reaches_order(s, d, headers, e1, e);
        lemma_feed_row_at(s, t, e, i, d);
        let e2 = row_at(t, i, d)->Ok_0->Some_0.2;
        let a = acc.push(fs);
        assert(rows_from(s, i, d, headers, acc) == rows_from(s, e1, d, headers, a));
        assert(rows_from(t, i, d, headers, acc) == rows_from(t, e2, d, headers, a));
        if e2 == e1 {
            lemma_feed_rows(s, e, e1, d, headers, a);
        } else {
            lemma_shift_rows(s, e, t, e + 1, e, d, headers, a);
        }
    }
}

/// Reading a table ignores a leading byte-order mark, blank lines before the
/// header row, blank lines between rows, and a missing final line ending:
/// with the mark dropped the text reads exactly the same, and with a line
/// feed added at the start, at the end, or where one row ends and the next
/// begins, the same header row and data rows come back, and reading fails
/// exactly when it failed before.
#[verifier::rlimit(50)]
pub proof fn lemma_csv_layout_is_ignored(s: Seq<char>, d: char, e: int)
    requires
        !(s.len() > 0 && s[0] == '\u{feff}'),
        plain_delimiter(d),
    ensures
        table(without_bom(seq!['\u{feff}'] + s), d) == table(without_bom(s), d),
        same_outcome(table(seq!['\n'] + s, d), table(s, d)),
        same_outcome(table(s.push('\n'), d), table(s, d)),
        row_boundary(s, d, e) ==> same_outcome(table(s.take(e) + seq!['\n'] + s.skip(e), d), table(s, d)),
{
    lemma_bom_is_dropped(s);
    lemma_leading_blank_line(s, d);
    lemma_final_line_ending(s, d);
    if row_boundary(s, d, e) {
        let t = s.take(e) + seq!['\n'] + s.skip(e);
        let (hs, k, eh) = row_at(s, 0, d)->Ok_0->Some_0;
        lemma_blank_end_from(s, 0);
        lemma_ext_fields(s, k, d, Seq::empty());
        lemma_fields_from_moves(s, k, d, Seq::empty());
        lemma_ext_line_end(s, fields_from(s, k, d, Seq::empty())->Ok_0.1);
        lemma_reaches_order(s, d, hs, eh, e);
        lemma_fields_from_moves(s, k, d, Seq::empty());
        lemma_blank_end_from(s, 0);
        if e == s.len() {
            assert(t =~= s.push('\n'));
        } else {
            lemma_insert_feed(s, e);
            lemma_feed_row_at(s, t, e, 0, d);
            let eh2 = row_at(t, 0, d)->Ok_0->Some_0.2;
            if eh2 == eh {
                lemma_feed_rows(s, e, eh, d, hs, Seq::empty());
            } else {
                lemma_shift_rows(s, e, t, e + 1, e, d, hs, Seq::empty());
            }
        }
    }
}

} // verus!
