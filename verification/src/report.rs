//! The report normalizer: turns a broker fill report, already decoded into
//! a grid of string cells, into a six-column grid (Date, Time, Symbol,
//! Quantity, Price, Side) ready for CSV serialization.
//!
//! The grid layout expected: a free-text first row carrying the report
//! date, a column-label header row, the data rows, and an optional
//! trailing disclaimer block separated by one blank row.

use vstd::prelude::*;

use crate::num::{fmt2, fmt2_i64, parse_int, parse_int_str};
use crate::text::{
    count_char, count_char_str, split_char, split_char_str, split_whitespace_str, split_ws,
    starts_with_str, str_eq, trim_str, trimmed,
};

verus! {

/// The report columns that must be present in the header row.
#[derive(Clone, Copy, Debug, PartialEq, Eq, Structural)]
pub enum Column {
    Time,
    Symbol,
    BuyQuantity,
    SellQuantity,
    FillPrice,
}

/// Why a conversion was aborted. Any error is terminal: no partial
/// output is produced.
#[derive(Clone, Copy, Debug, PartialEq, Eq, Structural)]
pub enum ConvertError {
    /// The grid has fewer than the two rows (date line, header row) every
    /// report starts with.
    TooFewRows,
    /// The first row holds no token "of" followed by a date token.
    DateNotFound,
    /// The date token does not split into exactly three slash-separated parts.
    InvalidDateFormat,
    /// A required column label was not found in the header row.
    MissingColumn(Column),
    /// A time cell is empty or all whitespace.
    EmptyTime,
    /// A time token has fewer than two colon-separated components.
    InvalidTimeFormat,
    /// An hour, minute or second component is not a decimal integer.
    InvalidTimeNumber,
    /// Both quantity cells are empty or "0": neither side fits the row.
    AmbiguousSide,
}

// ------------------------------------------------------------------
// Date extraction
// ------------------------------------------------------------------

/// The first index at or after `i` whose token is exactly "of", or
/// `toks.len()` if there is none.
pub open spec fn find_of_go(toks: Seq<Seq<char>>, i: int) -> int
    decreases toks.len() - i,
{
    if i < 0 || i >= toks.len() {
        toks.len() as int
    } else if toks[i] == "of"@ {
        i
    } else {
        find_of_go(toks, i + 1)
    }
}

/// A two-digit year is read as 20xx; anything else passes through.
pub open spec fn expand_year(y: Seq<char>) -> Seq<char> {
    if y.len() == 2 {
        "20"@ + y
    } else {
        y
    }
}

/// The date the first row of the report carries: the token after the
/// first "of", which must have exactly three slash-separated parts;
/// the year part is widened to four digits.
pub open spec fn date_spec(line: Seq<char>) -> Result<Seq<char>, ConvertError> {
    let toks = split_ws(line);
    let i = find_of_go(toks, 0);
    if i + 1 >= toks.len() {
        Err(ConvertError::DateNotFound)
    } else {
        let parts = split_char(toks[i + 1], '/');
        if parts.len() != 3 {
            Err(ConvertError::InvalidDateFormat)
        } else {
            Ok(parts[0] + "/"@ + parts[1] + "/"@ + expand_year(parts[2]))
        }
    }
}

/// Executable counterpart of [`date_spec`]: extracts the report date
/// from the free-text first line and widens it to MM/DD/YYYY.
pub fn parse_date_from_first_line(line: &str) -> (r: Result<String, ConvertError>)
    ensures
        match r {
            Ok(d) => date_spec(line@) == Ok::<Seq<char>, ConvertError>(d@),
            Err(e) => date_spec(line@) == Err::<Seq<char>, ConvertError>(e),
        },
{
    let toks = split_whitespace_str(line);
    let n = toks.len();
    let ghost tv = toks.deep_view();
    let mut j: usize = 0;
    while j < n && !str_eq(toks[j].as_str(), "of")
        invariant
            0 <= j <= n,
            n == tv.len(),
            tv == split_ws(line@),
            toks.deep_view() == tv,
            find_of_go(tv, 0) == find_of_go(tv, j as int),
        decreases n - j,
    {
        proof {
            assert(tv[j as int] == toks@[j as int]@);
        }
        j = j + 1;
    }
    proof {
        if j < n {
            assert(tv[j as int] == toks@[j as int]@);
        }
        assert(find_of_go(tv, 0) == j as int);
    }
    if j == n {
        return Err(ConvertError::DateNotFound);
    }
    if j + 1 == n {
        return Err(ConvertError::DateNotFound);
    }
    let parts = split_char_str(toks[j + 1].as_str(), '/');
    proof {
        assert(tv[j + 1] == toks@[j + 1]@);
    }
    if parts.len() != 3 {
        return Err(ConvertError::InvalidDateFormat);
    }
    let ghost pv = parts.deep_view();
    let mut d = String::from_str(parts[0].as_str());
    d.append("/");
    d.append(parts[1].as_str());
    d.append("/");
    let year_len = parts[2].as_str().unicode_len();
    if year_len == 2 {
        d.append("20");
    }
    d.append(parts[2].as_str());
    proof {
        assert(pv[0] == parts@[0]@);
        assert(pv[1] == parts@[1]@);
        assert(pv[2] == parts@[2]@);
        if year_len == 2 {
            assert(d@ =~= pv[0] + "/"@ + pv[1] + "/"@ + ("20"@ + pv[2]));
        } else {
            assert(d@ =~= pv[0] + "/"@ + pv[1] + "/"@ + pv[2]);
        }
    }
    Ok(d)
}

// ------------------------------------------------------------------
// Header resolution
// ------------------------------------------------------------------

/// Resolved positions of the five required columns in the header row.
#[derive(Clone, Copy, Debug, PartialEq, Eq, Structural)]
pub struct HeaderIndices {
    pub time_idx: usize,
    pub symbol_idx: usize,
    pub buy_idx: usize,
    pub sell_idx: usize,
    pub fill_price_idx: usize,
}

/// One step of the header scan from position `i` on: each cell is
/// trimmed and matched against the five labels in order; a later match
/// for the same label wins over an earlier one.
pub open spec fn header_scan_go(
    row: Seq<Seq<char>>,
    i: int,
    t: Option<int>,
    sy: Option<int>,
    b: Option<int>,
    se: Option<int>,
    f: Option<int>,
) -> (Option<int>, Option<int>, Option<int>, Option<int>, Option<int>)
    decreases row.len() - i,
{
    if i < 0 || i >= row.len() {
        (t, sy, b, se, f)
    } else {
        let c = trimmed(row[i]);
        if c == "Time"@ {
            header_scan_go(row, i + 1, Some(i), sy, b, se, f)
        } else if c == "Symbol"@ {
            header_scan_go(row, i + 1, t, Some(i), b, se, f)
        } else if "B ("@.is_prefix_of(c) {
            header_scan_go(row, i + 1, t, sy, Some(i), se, f)
        } else if "S ("@.is_prefix_of(c) {
            header_scan_go(row, i + 1, t, sy, b, Some(i), f)
        } else if c == "Fill P"@ {
            header_scan_go(row, i + 1, t, sy, b, se, Some(i))
        } else {
            header_scan_go(row, i + 1, t, sy, b, se, f)
        }
    }
}

/// The resolved header indices, or the first missing label in the order
/// time, symbol, buy, sell, fill price.
pub open spec fn header_spec(row: Seq<Seq<char>>) -> Result<
    (int, int, int, int, int),
    ConvertError,
> {
    let (t, sy, b, se, f) = header_scan_go(row, 0, None, None, None, None, None);
    if t is None {
        Err(ConvertError::MissingColumn(Column::Time))
    } else if sy is None {
        Err(ConvertError::MissingColumn(Column::Symbol))
    } else if b is None {
        Err(ConvertError::MissingColumn(Column::BuyQuantity))
    } else if se is None {
        Err(ConvertError::MissingColumn(Column::SellQuantity))
    } else if f is None {
        Err(ConvertError::MissingColumn(Column::FillPrice))
    } else {
        Ok((t->0, sy->0, b->0, se->0, f->0))
    }
}

/// `Option<usize>` as the `Option<int>` the scan specification carries.
pub open spec fn opt_int(o: Option<usize>) -> Option<int> {
    match o {
        Some(v) => Some(v as int),
        None => None,
    }
}

/// Executable counterpart of [`header_spec`]: finds the five required
/// columns in the (trimmed) header cells.
pub fn parse_header_row(header_row: &Vec<String>) -> (r: Result<HeaderIndices, ConvertError>)
    ensures
        match r {
            Ok(h) => header_spec(header_row.deep_view()) == Ok::<_, ConvertError>(
                (
                    h.time_idx as int,
                    h.symbol_idx as int,
                    h.buy_idx as int,
                    h.sell_idx as int,
                    h.fill_price_idx as int,
                ),
            ),
            Err(e) => header_spec(header_row.deep_view()) == Err::<(int, int, int, int, int), _>(
                e,
            ),
        },
{
    let ghost rv = header_row.deep_view();
    let n = header_row.len();
    let mut time_idx: Option<usize> = None;
    let mut symbol_idx: Option<usize> = None;
    let mut buy_idx: Option<usize> = None;
    let mut sell_idx: Option<usize> = None;
    let mut fill_price_idx: Option<usize> = None;
    let mut i: usize = 0;
    while i < n
        invariant
            0 <= i <= n,
            n == rv.len(),
            header_row.deep_view() == rv,
            header_scan_go(rv, 0, None, None, None, None, None) == header_scan_go(
                rv,
                i as int,
                opt_int(time_idx),
                opt_int(symbol_idx),
                opt_int(buy_idx),
                opt_int(sell_idx),
                opt_int(fill_price_idx),
            ),
        decreases n - i,
    {
        let col = trim_str(header_row[i].as_str());
        proof {
            assert(rv[i as int] == header_row@[i as int]@);
        }
        if str_eq(col, "Time") {
            time_idx = Some(i);
        } else if str_eq(col, "Symbol") {
            symbol_idx = Some(i);
        } else if starts_with_str(col, "B (") {
            buy_idx = Some(i);
        } else if starts_with_str(col, "S (") {
            sell_idx = Some(i);
        } else if str_eq(col, "Fill P") {
            fill_price_idx = Some(i);
        }
        i = i + 1;
    }
    let t = match time_idx {
        Some(v) => v,
        None => {
            return Err(ConvertError::MissingColumn(Column::Time));
        },
    };
    let sy = match symbol_idx {
        Some(v) => v,
        None => {
            return Err(ConvertError::MissingColumn(Column::Symbol));
        },
    };
    let b = match buy_idx {
        Some(v) => v,
        None => {
            return Err(ConvertError::MissingColumn(Column::BuyQuantity));
        },
    };
    let se = match sell_idx {
        Some(v) => v,
        None => {
            return Err(ConvertError::MissingColumn(Column::SellQuantity));
        },
    };
    let f = match fill_price_idx {
        Some(v) => v,
        None => {
            return Err(ConvertError::MissingColumn(Column::FillPrice));
        },
    };
    Ok(
        HeaderIndices {
            time_idx: t,
            symbol_idx: sy,
            buy_idx: b,
            sell_idx: se,
            fill_price_idx: f,
        },
    )
}

// ------------------------------------------------------------------
// Data-region bound
// ------------------------------------------------------------------

/// Whether a row opens the trailing disclaimer block: its first cell,
/// trimmed, starts with "Disclaimer".
pub open spec fn is_disclaimer_row(row: Seq<Seq<char>>) -> bool {
    row.len() > 0 && "Disclaimer"@.is_prefix_of(trimmed(row[0]))
}

/// The scan for the last disclaimer row, walking indices `i - 1` down
/// to 0; the data region ends one row before the disclaimer (the blank
/// separator row), clamped at 0.
pub open spec fn data_end_go(rows: Seq<Seq<Seq<char>>>, i: int) -> int
    decreases i,
{
    if i <= 0 {
        rows.len() as int
    } else if is_disclaimer_row(rows[i - 1]) {
        if i >= 2 {
            i - 2
        } else {
            0
        }
    } else {
        data_end_go(rows, i - 1)
    }
}

/// Where the data region ends: one row before the last disclaimer row
/// (clamped at 0), or the end of the grid when no disclaimer exists.
pub open spec fn data_end(rows: Seq<Seq<Seq<char>>>) -> int {
    data_end_go(rows, rows.len() as int)
}

/// Executable counterpart of [`data_end`].
pub fn find_data_end_index(rows: &Vec<Vec<String>>) -> (r: usize)
    ensures
        r == data_end(rows.deep_view()),
        r <= rows.len(),
{
    let ghost rv = rows.deep_view();
    let n = rows.len();
    let mut i: usize = n;
    while i > 0
        invariant
            0 <= i <= n,
            n == rv.len(),
            rows.deep_view() == rv,
            data_end(rv) == data_end_go(rv, i as int),
        decreases i,
    {
        proof {
            assert(rv[i - 1] == rows@[i - 1].deep_view());
        }
        let row = &rows[i - 1];
        if row.len() > 0 {
            proof {
                assert(rv[i - 1][0] == rows@[i - 1]@[0]@);
            }
            if starts_with_str(trim_str(row[0].as_str()), "Disclaimer") {
                if i >= 2 {
                    return i - 2;
                } else {
                    return 0;
                }
            }
        }
        i = i - 1;
    }
    n
}

// ------------------------------------------------------------------
// Time conversion
// ------------------------------------------------------------------

/// Whether `t` equals the meridiem designator with upper-case letters
/// `up` then 'M', compared case-insensitively (`up` is 'A' or 'P', `lo`
/// its lower-case form).
pub open spec fn meridiem_matches(t: Seq<char>, up: char, lo: char) -> bool {
    t.len() == 2 && (t[0] == up || t[0] == lo) && (t[1] == 'M' || t[1] == 'm')
}

/// A time cell normalized to zero-padded 24-hour form. A trimmed cell
/// that already holds exactly two colons passes through unchanged.
/// Otherwise the first whitespace token must have at least
/// hour and minute components (seconds default to 0), each a decimal
/// integer, and a second token "PM"/"AM" (any case) shifts the hour
/// into the 24-hour range.
pub open spec fn time_spec(cell: Seq<char>) -> Result<Seq<char>, ConvertError> {
    let s = trimmed(cell);
    if count_char(s, ':') == 2 {
        Ok(s)
    } else {
        let toks = split_ws(s);
        if toks.len() == 0 {
            Err(ConvertError::EmptyTime)
        } else {
            let comps = split_char(toks[0], ':');
            if comps.len() < 2 {
                Err(ConvertError::InvalidTimeFormat)
            } else {
                match (parse_int(comps[0]), parse_int(comps[1])) {
                    (Some(h), Some(m)) => {
                        let sec_opt = if comps.len() >= 3 {
                            parse_int(comps[2])
                        } else {
                            Some(0i32)
                        };
                        match sec_opt {
                            Some(sec) => {
                                let h24: int = if toks.len() > 1 && meridiem_matches(
                                    toks[1],
                                    'P',
                                    'p',
                                ) && h != 12 {
                                    h + 12
                                } else if toks.len() > 1 && meridiem_matches(toks[1], 'A', 'a')
                                    && h == 12 {
                                    0
                                } else {
                                    h as int
                                };
                                Ok(
                                    fmt2(h24) + seq![':'] + fmt2(m as int) + seq![':'] + fmt2(
                                        sec as int,
                                    ),
                                )
                            },
                            None => Err(ConvertError::InvalidTimeNumber),
                        }
                    },
                    _ => Err(ConvertError::InvalidTimeNumber),
                }
            }
        }
    }
}

/// Whether `t` is "PM" or "AM" (by `up`/`lo`) compared case-insensitively.
fn meridiem_check(t: &str, up: char, lo: char) -> (r: bool)
    ensures
        r == meridiem_matches(t@, up, lo),
{
    if t.unicode_len() != 2 {
        return false;
    }
    let c0 = t.get_char(0);
    let c1 = t.get_char(1);
    (c0 == up || c0 == lo) && (c1 == 'M' || c1 == 'm')
}

/// Executable counterpart of [`time_spec`]: normalizes a time cell to
/// `HH:MM:SS`.
pub fn convert_time(time_str: &str) -> (r: Result<String, ConvertError>)
    ensures
        match r {
            Ok(t) => time_spec(time_str@) == Ok::<Seq<char>, ConvertError>(t@),
            Err(e) => time_spec(time_str@) == Err::<Seq<char>, ConvertError>(e),
        },
{
    let s = trim_str(time_str);
    if count_char_str(s, ':') == 2 {
        return Ok(String::from_str(s));
    }
    let toks = split_whitespace_str(s);
    let ghost tv = toks.deep_view();
    if toks.len() == 0 {
        return Err(ConvertError::EmptyTime);
    }
    proof {
        assert(tv[0] == toks@[0]@);
    }
    let comps = split_char_str(toks[0].as_str(), ':');
    let ghost cv = comps.deep_view();
    if comps.len() < 2 {
        return Err(ConvertError::InvalidTimeFormat);
    }
    proof {
        assert(cv[0] == comps@[0]@);
        assert(cv[1] == comps@[1]@);
    }
    let h: i32 = match parse_int_str(comps[0].as_str()) {
        Some(v) => v,
        None => {
            return Err(ConvertError::InvalidTimeNumber);
        },
    };
    let m: i32 = match parse_int_str(comps[1].as_str()) {
        Some(v) => v,
        None => {
            return Err(ConvertError::InvalidTimeNumber);
        },
    };
    let sec: i32 = if comps.len() >= 3 {
        proof {
            assert(cv[2] == comps@[2]@);
        }
        match parse_int_str(comps[2].as_str()) {
            Some(v) => v,
            None => {
                return Err(ConvertError::InvalidTimeNumber);
            },
        }
    } else {
        0
    };
    let h24: i64 = if toks.len() > 1 {
        proof {
            assert(tv[1] == toks@[1]@);
        }
        if meridiem_check(toks[1].as_str(), 'P', 'p') && h != 12 {
            h as i64 + 12
        } else if meridiem_check(toks[1].as_str(), 'A', 'a') && h == 12 {
            0
        } else {
            h as i64
        }
    } else {
        h as i64
    };
    let mut out = fmt2_i64(h24);
    let ghost p0 = out@;
    out.append(":");
    out.append(fmt2_i64(m as i64).as_str());
    out.append(":");
    out.append(fmt2_i64(sec as i64).as_str());
    proof {
        reveal_strlit(":");
        assert(":"@ =~= seq![':']);
        assert(out@ =~= fmt2(h24 as int) + seq![':'] + fmt2(m as int) + seq![':'] + fmt2(
            sec as int,
        ));
    }
    Ok(out)
}

// ------------------------------------------------------------------
// Row conversion
// ------------------------------------------------------------------

/// The cell at `idx`, or the empty string when the row is too short.
pub open spec fn cell_or_empty(row: Seq<Seq<char>>, idx: int) -> Seq<char> {
    if 0 <= idx < row.len() {
        row[idx]
    } else {
        Seq::empty()
    }
}

/// One data row of the output: `[date, time, symbol, quantity, price,
/// side]`. The buy-quantity cell decides the side when it is non-empty
/// and not "0"; otherwise the sell-quantity cell does; otherwise the
/// row is ambiguous and conversion fails.
pub open spec fn row_spec(
    row: Seq<Seq<char>>,
    date: Seq<char>,
    t: int,
    sy: int,
    b: int,
    se: int,
    f: int,
) -> Result<Seq<Seq<char>>, ConvertError> {
    match time_spec(cell_or_empty(row, t)) {
        Err(e) => Err(e),
        Ok(time) => {
            let symbol = trimmed(cell_or_empty(row, sy));
            let buy = trimmed(cell_or_empty(row, b));
            let sell = trimmed(cell_or_empty(row, se));
            let price = trimmed(cell_or_empty(row, f));
            if buy.len() > 0 && buy != "0"@ {
                Ok(seq![date, time, symbol, buy, price, "Buy"@])
            } else if sell.len() > 0 && sell != "0"@ {
                Ok(seq![date, time, symbol, sell, price, "Sell"@])
            } else {
                Err(ConvertError::AmbiguousSide)
            }
        },
    }
}

/// The cell at `idx` as a string slice, the empty string when missing.
fn cell_str<'a>(row: &'a Vec<String>, idx: usize) -> (r: &'a str)
    ensures
        r@ == cell_or_empty(row.deep_view(), idx as int),
{
    if idx < row.len() {
        proof {
            assert(row.deep_view()[idx as int] == row@[idx as int]@);
        }
        row[idx].as_str()
    } else {
        let r = "";
        proof {
            reveal_strlit("");
            assert(r@ =~= Seq::<char>::empty());
        }
        r
    }
}

/// Executable counterpart of [`row_spec`]: converts one data row to
/// the six-column output form.
pub fn convert_row(row: &Vec<String>, date: &str, indices: &HeaderIndices) -> (r: Result<
    Vec<String>,
    ConvertError,
>)
    ensures
        match r {
            Ok(v) => row_spec(
                row.deep_view(),
                date@,
                indices.time_idx as int,
                indices.symbol_idx as int,
                indices.buy_idx as int,
                indices.sell_idx as int,
                indices.fill_price_idx as int,
            ) == Ok::<Seq<Seq<char>>, ConvertError>(v.deep_view()),
            Err(e) => row_spec(
                row.deep_view(),
                date@,
                indices.time_idx as int,
                indices.symbol_idx as int,
                indices.buy_idx as int,
                indices.sell_idx as int,
                indices.fill_price_idx as int,
            ) == Err::<Seq<Seq<char>>, ConvertError>(e),
        },
{
    let time = match convert_time(cell_str(row, indices.time_idx)) {
        Ok(t) => t,
        Err(e) => {
            return Err(e);
        },
    };
    let symbol = String::from_str(trim_str(cell_str(row, indices.symbol_idx)));
    let buy = trim_str(cell_str(row, indices.buy_idx));
    let sell = trim_str(cell_str(row, indices.sell_idx));
    let price = String::from_str(trim_str(cell_str(row, indices.fill_price_idx)));
    let (side, quantity): (&str, String) = if buy.unicode_len() > 0 && !str_eq(buy, "0") {
        ("Buy", String::from_str(buy))
    } else if sell.unicode_len() > 0 && !str_eq(sell, "0") {
        ("Sell", String::from_str(sell))
    } else {
        return Err(ConvertError::AmbiguousSide);
    };
    let mut out: Vec<String> = Vec::new();
    out.push(String::from_str(date));
    out.push(time);
    out.push(symbol);
    out.push(quantity);
    out.push(price);
    out.push(String::from_str(side));
    proof {
        let rv = row.deep_view();
        let bq = trimmed(cell_or_empty(rv, indices.buy_idx as int));
        let sq = trimmed(cell_or_empty(rv, indices.sell_idx as int));
        if bq.len() > 0 && bq != "0"@ {
            assert(out.deep_view() =~= seq![
                date@,
                time@,
                trimmed(cell_or_empty(rv, indices.symbol_idx as int)),
                bq,
                trimmed(cell_or_empty(rv, indices.fill_price_idx as int)),
                "Buy"@,
            ]);
        } else {
            assert(out.deep_view() =~= seq![
                date@,
                time@,
                trimmed(cell_or_empty(rv, indices.symbol_idx as int)),
                sq,
                trimmed(cell_or_empty(rv, indices.fill_price_idx as int)),
                "Sell"@,
            ]);
        }
    }
    Ok(out)
}

// ------------------------------------------------------------------
// Whole-grid conversion
// ------------------------------------------------------------------

/// Whether a row has no cells or only whitespace cells.
pub open spec fn row_blank(row: Seq<Seq<char>>) -> bool {
    forall|k: int| 0 <= k < row.len() ==> trimmed(row[k]).len() == 0
}

/// Executable counterpart of [`row_blank`].
pub fn is_blank_row(row: &Vec<String>) -> (r: bool)
    ensures
        r == row_blank(row.deep_view()),
{
    let ghost rv = row.deep_view();
    let n = row.len();
    let mut k: usize = 0;
    while k < n
        invariant
            0 <= k <= n,
            n == rv.len(),
            row.deep_view() == rv,
            forall|j: int| 0 <= j < k ==> trimmed(rv[j]).len() == 0,
        decreases n - k,
    {
        proof {
            assert(rv[k as int] == row@[k as int]@);
        }
        if trim_str(row[k].as_str()).unicode_len() > 0 {
            return false;
        }
        k = k + 1;
    }
    true
}

/// How many rows of a span are blank.
pub open spec fn blank_count(rs: Seq<Seq<Seq<char>>>) -> int
    decreases rs.len(),
{
    if rs.len() == 0 {
        0
    } else {
        (if row_blank(rs[0]) {
            1int
        } else {
            0int
        }) + blank_count(rs.skip(1))
    }
}

/// The output rows for a span of data rows: blank rows are skipped, the
/// others are converted in order, and the first failing row aborts the
/// whole span.
pub open spec fn convert_region(
    rs: Seq<Seq<Seq<char>>>,
    date: Seq<char>,
    t: int,
    sy: int,
    b: int,
    se: int,
    f: int,
) -> Result<Seq<Seq<Seq<char>>>, ConvertError>
    decreases rs.len(),
{
    if rs.len() == 0 {
        Ok(Seq::empty())
    } else if row_blank(rs[0]) {
        convert_region(rs.skip(1), date, t, sy, b, se, f)
    } else {
        match row_spec(rs[0], date, t, sy, b, se, f) {
            Err(e) => Err(e),
            Ok(orow) => match convert_region(rs.skip(1), date, t, sy, b, se, f) {
                Err(e) => Err(e),
                Ok(rest) => Ok(seq![orow] + rest),
            },
        }
    }
}

/// The fixed header row of the output grid.
pub open spec fn out_header() -> Seq<Seq<char>> {
    seq!["Date"@, "Time"@, "Symbol"@, "Quantity"@, "Price"@, "Side"@]
}

/// The whole transformation: the grid must have at least two rows; the
/// report date comes from the first cell of row 0, the column indices
/// from row 1; rows 2 up to the data-region bound are converted; the
/// result is the fixed header row followed by the converted rows.
pub open spec fn normalize_spec(rows: Seq<Seq<Seq<char>>>) -> Result<
    Seq<Seq<Seq<char>>>,
    ConvertError,
> {
    if rows.len() < 2 {
        Err(ConvertError::TooFewRows)
    } else {
        let first_cell = if rows[0].len() > 0 {
            rows[0][0]
        } else {
            Seq::empty()
        };
        match date_spec(first_cell) {
            Err(e) => Err(e),
            Ok(date) => match header_spec(rows[1]) {
                Err(e) => Err(e),
                Ok((t, sy, b, se, f)) => {
                    let end = data_end(rows);
                    let region = if end >= 2 {
                        rows.subrange(2, end)
                    } else {
                        Seq::empty()
                    };
                    match convert_region(region, date, t, sy, b, se, f) {
                        Err(e) => Err(e),
                        Ok(data) => Ok(seq![out_header()] + data),
                    }
                },
            },
        }
    }
}

/// Executable counterpart of [`normalize_spec`]: converts a fill report
/// grid to the six-column output grid, header row included.
pub fn convert(rows: Vec<Vec<String>>) -> (r: Result<Vec<Vec<String>>, ConvertError>)
    ensures
        match r {
            Ok(out) => normalize_spec(rows.deep_view()) == Ok::<Seq<Seq<Seq<char>>>, ConvertError>(
                out.deep_view(),
            ),
            Err(e) => normalize_spec(rows.deep_view()) == Err::<Seq<Seq<Seq<char>>>, ConvertError>(
                e,
            ),
        },
{
    let ghost rv = rows.deep_view();
    if rows.len() < 2 {
        return Err(ConvertError::TooFewRows);
    }
    let first_cell: &str = if rows[0].len() > 0 {
        proof {
            assert(rv[0] == rows@[0].deep_view());
            assert(rv[0][0] == rows@[0]@[0]@);
        }
        rows[0][0].as_str()
    } else {
        let r = "";
        proof {
            assert(rv[0] == rows@[0].deep_view());
            reveal_strlit("");
            assert(r@ =~= Seq::<char>::empty());
        }
        r
    };
    let date = match parse_date_from_first_line(first_cell) {
        Ok(d) => d,
        Err(e) => {
            return Err(e);
        },
    };
    proof {
        assert(rv[1] == rows@[1].deep_view());
    }
    let indices = match parse_header_row(&rows[1]) {
        Ok(h) => h,
        Err(e) => {
            return Err(e);
        },
    };
    let end = find_data_end_index(&rows);
    let ghost t = indices.time_idx as int;
    let ghost sy = indices.symbol_idx as int;
    let ghost b = indices.buy_idx as int;
    let ghost se = indices.sell_idx as int;
    let ghost f = indices.fill_price_idx as int;
    let ghost region = if end >= 2 {
        rv.subrange(2, end as int)
    } else {
        Seq::<Seq<Seq<char>>>::empty()
    };
    let mut result: Vec<Vec<String>> = Vec::new();
    let mut header: Vec<String> = Vec::new();
    header.push(String::from_str("Date"));
    header.push(String::from_str("Time"));
    header.push(String::from_str("Symbol"));
    header.push(String::from_str("Quantity"));
    header.push(String::from_str("Price"));
    header.push(String::from_str("Side"));
    proof {
        assert(header.deep_view() =~= out_header());
    }
    result.push(header);
    proof {
        assert(result.deep_view() =~= seq![out_header()]);
        if end >= 2 {
            assert(region.skip(0) =~= region);
        }
    }
    let mut i: usize = 2;
    while i < end
        invariant
            2 <= i <= end || (end < 2 && i == 2),
            end <= rows.len(),
            rows.deep_view() == rv,
            rv.len() >= 2,
            region == if end >= 2 {
                rv.subrange(2, end as int)
            } else {
                Seq::<Seq<Seq<char>>>::empty()
            },
            date_spec(
                if rv[0].len() > 0 {
                    rv[0][0]
                } else {
                    Seq::<char>::empty()
                },
            ) == Ok::<Seq<char>, ConvertError>(date@),
            header_spec(rv[1]) == Ok::<_, ConvertError>((t, sy, b, se, f)),
            t == indices.time_idx as int,
            sy == indices.symbol_idx as int,
            b == indices.buy_idx as int,
            se == indices.sell_idx as int,
            f == indices.fill_price_idx as int,
            end == data_end(rv),
            result.deep_view().len() >= 1,
            result.deep_view()[0] == out_header(),
            convert_region(region, date@, t, sy, b, se, f) == (match convert_region(
                region.skip(i - 2),
                date@,
                t,
                sy,
                b,
                se,
                f,
            ) {
                Ok(rest) => Ok::<Seq<Seq<Seq<char>>>, ConvertError>(
                    result.deep_view().skip(1) + rest,
                ),
                Err(e) => Err(e),
            }),
        decreases end - i,
    {
        let ghost tail = region.skip(i - 2);
        proof {
            assert(rv[i as int] == rows@[i as int].deep_view());
            assert(tail[0] == region[i - 2]);
            assert(region[i - 2] == rv[i as int]);
            assert(tail.skip(1) =~= region.skip(i - 2 + 1));
        }
        if !is_blank_row(&rows[i]) {
            match convert_row(&rows[i], date.as_str(), &indices) {
                Ok(orow) => {
                    let ghost done = result.deep_view().skip(1);
                    let ghost ov = orow.deep_view();
                    result.push(orow);
                    proof {
                        assert(result.deep_view().skip(1) =~= done.push(ov));
                        assert(done.push(ov) =~= done + seq![ov]);
                        match convert_region(region.skip(i - 1), date@, t, sy, b, se, f) {
                            Ok(rest) => {
                                assert((done + seq![ov]) + rest =~= done + (seq![ov] + rest));
                            },
                            Err(_) => {},
                        }
                    }
                },
                Err(e) => {
                    return Err(e);
                },
            }
        }
        i = i + 1;
    }
    proof {
        if end >= 2 {
            assert(region.skip(end - 2) =~= Seq::<Seq<Seq<char>>>::empty());
        } else {
            assert(region.skip(0) =~= region);
        }
        let done = result.deep_view().skip(1);
        assert(done + Seq::<Seq<Seq<char>>>::empty() =~= done);
        assert(result.deep_view() =~= seq![out_header()] + done);
    }
    Ok(result)
}

} // verus!
