//! Properties of the normalizer that hold of every input, proved once
//! and for all: rejection of too-small grids, the effect of blank rows,
//! the disclaimer boundary, and the output row count.

use vstd::prelude::*;

use crate::report::{
    blank_count, convert_region, data_end, data_end_go, is_disclaimer_row, normalize_spec,
    row_blank, row_spec, ConvertError,
};

verus! {

/// A grid with fewer than two rows is always rejected with the
/// structural error, whatever its rows hold.
pub proof fn lemma_short_grid_rejected(rows: Seq<Seq<Seq<char>>>)
    requires
        rows.len() < 2,
    ensures
        normalize_spec(rows) == Err::<Seq<Seq<Seq<char>>>, ConvertError>(ConvertError::TooFewRows),
{
}

/// Blank rows inside the data region are silently skipped: converting a
/// span with a blank row inserted anywhere gives exactly the result of
/// converting the span without it.
pub proof fn lemma_blank_rows_produce_nothing(
    pre: Seq<Seq<Seq<char>>>,
    blank: Seq<Seq<char>>,
    post: Seq<Seq<Seq<char>>>,
    date: Seq<char>,
    t: int,
    sy: int,
    b: int,
    se: int,
    f: int,
)
    requires
        row_blank(blank),
    ensures
        convert_region(pre + seq![blank] + post, date, t, sy, b, se, f) == convert_region(
            pre + post,
            date,
            t,
            sy,
            b,
            se,
            f,
        ),
    decreases pre.len(),
{
    if pre.len() == 0 {
        assert(pre + seq![blank] =~= seq![blank]);
        let s = seq![blank] + post;
        assert(s[0] == blank);
        assert(s.skip(1) =~= post);
        assert(pre + post =~= post);
    } else {
        let s = pre + seq![blank] + post;
        let u = pre + post;
        assert(s[0] == pre[0]);
        assert(u[0] == pre[0]);
        assert(s.skip(1) =~= (pre.skip(1) + seq![blank]) + post);
        assert(u.skip(1) =~= pre.skip(1) + post);
        lemma_blank_rows_produce_nothing(pre.skip(1), blank, post, date, t, sy, b, se, f);
    }
}

/// When conversion of a span of data rows succeeds, it emits exactly
/// one output row per non-blank input row.
pub proof fn lemma_region_output_count(
    rs: Seq<Seq<Seq<char>>>,
    date: Seq<char>,
    t: int,
    sy: int,
    b: int,
    se: int,
    f: int,
)
    ensures
        convert_region(rs, date, t, sy, b, se, f) matches Ok(out) ==> out.len() == rs.len()
            - blank_count(rs),
    decreases rs.len(),
{
    if rs.len() > 0 {
        lemma_region_output_count(rs.skip(1), date, t, sy, b, se, f);
        lemma_blank_count_bounds(rs.skip(1));
        if !row_blank(rs[0]) {
            match row_spec(rs[0], date, t, sy, b, se, f) {
                Ok(orow) => {
                    match convert_region(rs.skip(1), date, t, sy, b, se, f) {
                        Ok(rest) => {
                            assert((seq![orow] + rest).len() == 1 + rest.len());
                        },
                        Err(_) => {},
                    }
                },
                Err(_) => {},
            }
        }
    }
}

/// The number of blank rows in a span lies between 0 and its length.
pub proof fn lemma_blank_count_bounds(rs: Seq<Seq<Seq<char>>>)
    ensures
        0 <= blank_count(rs) <= rs.len(),
    decreases rs.len(),
{
    if rs.len() > 0 {
        lemma_blank_count_bounds(rs.skip(1));
    }
}

/// On success the output grid holds the fixed header row plus one row
/// per non-blank row of the data region: row count in equals row count
/// out, up to the skipped blanks.
pub proof fn lemma_output_row_count(rows: Seq<Seq<Seq<char>>>)
    requires
        normalize_spec(rows) is Ok,
    ensures
        ({
            let end = data_end(rows);
            let region = if end >= 2 {
                rows.subrange(2, end)
            } else {
                Seq::<Seq<Seq<char>>>::empty()
            };
            normalize_spec(rows)->Ok_0.len() == 1 + region.len() - blank_count(region)
        }),
{
    let end = data_end(rows);
    let region = if end >= 2 {
        rows.subrange(2, end)
    } else {
        Seq::<Seq<Seq<char>>>::empty()
    };
    match date_ok_header_ok(rows) {
        Some((date, (t, sy, b, se, f))) => {
            lemma_region_output_count(region, date, t, sy, b, se, f);
            lemma_blank_count_bounds(region);
        },
        None => {},
    }
}

/// The date and header results of a grid whose normalization succeeded.
spec fn date_ok_header_ok(rows: Seq<Seq<Seq<char>>>) -> Option<
    (Seq<char>, (int, int, int, int, int)),
> {
    if rows.len() < 2 {
        None
    } else {
        let first_cell = if rows[0].len() > 0 {
            rows[0][0]
        } else {
            Seq::<char>::empty()
        };
        match crate::report::date_spec(first_cell) {
            Err(_) => None,
            Ok(date) => match crate::report::header_spec(rows[1]) {
                Err(_) => None,
                Ok(idx) => Some((date, idx)),
            },
        }
    }
}

/// Below the last disclaimer row, `data_end_go` does not look.
proof fn lemma_data_end_go_down(rows: Seq<Seq<Seq<char>>>, k: int, i: int)
    requires
        0 <= k + 1 <= i <= rows.len(),
        forall|j: int| k < j < i ==> !is_disclaimer_row(rows[j]),
    ensures
        data_end_go(rows, i) == data_end_go(rows, k + 1),
    decreases i,
{
    if i > k + 1 {
        assert(!is_disclaimer_row(rows[i - 1]));
        lemma_data_end_go_down(rows, k, i - 1);
    }
}

/// The data region ends one row before the last disclaimer row (the
/// blank separator is dropped with it), clamped at the top of the grid;
/// the disclaimer row itself and everything after lie outside it.
pub proof fn lemma_disclaimer_bounds_region(rows: Seq<Seq<Seq<char>>>, k: int)
    requires
        0 <= k < rows.len(),
        is_disclaimer_row(rows[k]),
        forall|j: int| k < j < rows.len() ==> !is_disclaimer_row(rows[j]),
    ensures
        data_end(rows) == if k >= 1 {
            k - 1
        } else {
            0
        },
{
    lemma_data_end_go_down(rows, k, rows.len() as int);
}

/// Without any disclaimer row the data region runs to the end of the
/// grid.
pub proof fn lemma_no_disclaimer_full_region(rows: Seq<Seq<Seq<char>>>)
    requires
        forall|j: int| 0 <= j < rows.len() ==> !is_disclaimer_row(rows[j]),
    ensures
        data_end(rows) == rows.len(),
{
    lemma_data_end_go_down(rows, -1, rows.len() as int);
    assert(data_end_go(rows, 0) == rows.len());
}

} // verus!
