//! End-to-end and per-function tests of the report normalizer.

use fill_report::report::{
    convert, convert_row, convert_time, find_data_end_index, parse_date_from_first_line,
    parse_header_row, Column, ConvertError, HeaderIndices,
};

fn row(cells: &[&str]) -> Vec<String> {
    cells.iter().map(|c| c.to_string()).collect()
}

fn grid(rows: &[&[&str]]) -> Vec<Vec<String>> {
    rows.iter().map(|r| row(r)).collect()
}

const DATE_LINE: &str =
    "Fills reported as of 12/10/25 8:20:27 PM for the following accounts: ac214461 (214461)";

#[test]
fn empty_grid_rejected() {
    assert_eq!(convert(vec![]), Err(ConvertError::TooFewRows));
}

#[test]
fn one_row_grid_rejected() {
    let g = grid(&[&[DATE_LINE]]);
    assert_eq!(convert(g), Err(ConvertError::TooFewRows));
}

#[test]
fn date_two_digit_year_expanded() {
    assert_eq!(
        parse_date_from_first_line(DATE_LINE),
        Ok("12/10/2025".to_string())
    );
}

#[test]
fn date_four_digit_year_unchanged() {
    assert_eq!(
        parse_date_from_first_line("Fills reported as of 1/5/2025 9:00:00 AM for account x"),
        Ok("1/5/2025".to_string())
    );
}

#[test]
fn date_missing_of_token() {
    assert_eq!(
        parse_date_from_first_line("Fills reported 12/10/25"),
        Err(ConvertError::DateNotFound)
    );
}

#[test]
fn date_of_as_last_token() {
    assert_eq!(
        parse_date_from_first_line("Fills reported as of"),
        Err(ConvertError::DateNotFound)
    );
}

#[test]
fn date_token_without_three_parts() {
    assert_eq!(
        parse_date_from_first_line("Fills reported as of 12-10-25 evening"),
        Err(ConvertError::InvalidDateFormat)
    );
}

#[test]
fn time_meridiem_morning() {
    assert_eq!(convert_time("9:30 AM"), Ok("09:30:00".to_string()));
}

#[test]
fn time_meridiem_midnight() {
    assert_eq!(convert_time("12:05 AM"), Ok("00:05:00".to_string()));
}

#[test]
fn time_meridiem_noon() {
    assert_eq!(convert_time("12:30 PM"), Ok("12:30:00".to_string()));
}

#[test]
fn time_meridiem_afternoon() {
    assert_eq!(convert_time("2:05 pm"), Ok("14:05:00".to_string()));
}

#[test]
fn time_two_colons_passes_through() {
    assert_eq!(convert_time("14:22:10"), Ok("14:22:10".to_string()));
}

#[test]
fn time_two_colons_passes_through_even_with_meridiem() {
    // The two-colon test looks at the whole cell, so a meridiem after a
    // full HH:MM:SS time is left as it stands.
    assert_eq!(convert_time("9:30:15 AM"), Ok("9:30:15 AM".to_string()));
    assert_eq!(convert_time("12:30:00 PM"), Ok("12:30:00 PM".to_string()));
}

#[test]
fn time_trimmed_before_conversion() {
    assert_eq!(convert_time("  14:22:10  "), Ok("14:22:10".to_string()));
}

#[test]
fn time_empty_cell() {
    assert_eq!(convert_time("   "), Err(ConvertError::EmptyTime));
}

#[test]
fn time_single_component() {
    assert_eq!(convert_time("9 AM"), Err(ConvertError::InvalidTimeFormat));
}

#[test]
fn time_non_numeric_component() {
    assert_eq!(convert_time("9:xx AM"), Err(ConvertError::InvalidTimeNumber));
}

#[test]
fn time_hour_out_of_integer_range() {
    assert_eq!(
        convert_time("2147483648:00"),
        Err(ConvertError::InvalidTimeNumber)
    );
}

#[test]
fn time_hour_at_integer_limit_widens() {
    // The meridiem shift happens after the hour is parsed, so it cannot
    // wrap even at the top of the parsed range.
    assert_eq!(
        convert_time("2147483647:59 PM"),
        Ok("2147483659:59:00".to_string())
    );
}

#[test]
fn time_negative_components_pass_formatting() {
    assert_eq!(convert_time("-5:30"), Ok("-5:30:00".to_string()));
}

#[test]
fn header_row_resolves_all_five() {
    let h = row(&["Time", "Symbol", "B (100)", "S (100)", "Fill P"]);
    let idx: HeaderIndices = parse_header_row(&h).unwrap();
    assert_eq!(idx.time_idx, 0);
    assert_eq!(idx.symbol_idx, 1);
    assert_eq!(idx.buy_idx, 2);
    assert_eq!(idx.sell_idx, 3);
    assert_eq!(idx.fill_price_idx, 4);
}

#[test]
fn header_cells_are_trimmed() {
    let h = row(&["  Time ", " Symbol", "B (5)", "S (5)", " Fill P "]);
    assert!(parse_header_row(&h).is_ok());
}

#[test]
fn header_missing_fill_price() {
    let h = row(&["Time", "Symbol", "B (100)", "S (100)"]);
    assert_eq!(
        parse_header_row(&h),
        Err(ConvertError::MissingColumn(Column::FillPrice))
    );
}

#[test]
fn header_missing_time_reported_first() {
    let h = row(&["Symbol"]);
    assert_eq!(
        parse_header_row(&h),
        Err(ConvertError::MissingColumn(Column::Time))
    );
}

#[test]
fn row_buy_side() {
    let h = row(&["Time", "Symbol", "B (100)", "S (100)", "Fill P"]);
    let idx = parse_header_row(&h).unwrap();
    let r = row(&["9:30 AM", " ESZ5 ", "2", "", " 6800.25 "]);
    assert_eq!(
        convert_row(&r, "12/10/2025", &idx),
        Ok(row(&["12/10/2025", "09:30:00", "ESZ5", "2", "6800.25", "Buy"]))
    );
}

#[test]
fn row_zero_buy_falls_to_sell() {
    let h = row(&["Time", "Symbol", "B (100)", "S (100)", "Fill P"]);
    let idx = parse_header_row(&h).unwrap();
    let r = row(&["9:30 AM", "ESZ5", "0", "50", "6800.25"]);
    let out = convert_row(&r, "12/10/2025", &idx).unwrap();
    assert_eq!(out[3], "50");
    assert_eq!(out[5], "Sell");
}

#[test]
fn row_both_quantities_absent() {
    let h = row(&["Time", "Symbol", "B (100)", "S (100)", "Fill P"]);
    let idx = parse_header_row(&h).unwrap();
    let r = row(&["9:30 AM", "ESZ5", "0", "", "6800.25"]);
    assert_eq!(
        convert_row(&r, "12/10/2025", &idx),
        Err(ConvertError::AmbiguousSide)
    );
}

#[test]
fn disclaimer_bound_skips_separator_row() {
    let g = grid(&[
        &[DATE_LINE],
        &["Time", "Symbol", "B (100)", "S (100)", "Fill P"],
        &["9:30 AM", "A", "1", "", "10.0"],
        &["9:31 AM", "B", "", "1", "11.0"],
        &[""],
        &["Disclaimer: for information only"],
    ]);
    // The disclaimer row is at index 5; the region ends at 4, one row
    // before it, so the blank separator at index 4 is already outside.
    assert_eq!(find_data_end_index(&g), 4);
}

#[test]
fn row_before_disclaimer_excluded_even_if_not_blank() {
    let g = grid(&[
        &[DATE_LINE],
        &["Time", "Symbol", "B (100)", "S (100)", "Fill P"],
        &["9:30 AM", "A", "1", "", "10.0"],
        &["9:31 AM", "B", "", "1", "11.0"],
        &["Disclaimer: for information only"],
    ]);
    let out = convert(g).unwrap();
    // Region ends at index 3: the row at index 3 is the separator slot.
    assert_eq!(out.len(), 2);
    assert_eq!(out[1][2], "A");
}

#[test]
fn no_disclaimer_processes_to_end() {
    let g = grid(&[
        &[DATE_LINE],
        &["Time", "Symbol", "B (100)", "S (100)", "Fill P"],
        &["9:30 AM", "A", "1", "", "10.0"],
        &["9:31 AM", "B", "", "1", "11.0"],
    ]);
    assert_eq!(find_data_end_index(&g), 4);
    let out = convert(g).unwrap();
    assert_eq!(out.len(), 3);
}

#[test]
fn blank_rows_produce_no_output() {
    let g = grid(&[
        &[DATE_LINE],
        &["Time", "Symbol", "B (100)", "S (100)", "Fill P"],
        &["9:30 AM", "A", "1", "", "10.0"],
        &["", "  ", ""],
        &[],
        &["9:31 AM", "B", "", "1", "11.0"],
    ]);
    let out = convert(g).unwrap();
    assert_eq!(out.len(), 3);
    assert_eq!(out[1][2], "A");
    assert_eq!(out[2][2], "B");
}

#[test]
fn output_count_is_nonblank_region_count() {
    let g = grid(&[
        &[DATE_LINE],
        &["Time", "Symbol", "B (100)", "S (100)", "Fill P"],
        &["9:30 AM", "A", "1", "", "10.0"],
        &[""],
        &["9:31 AM", "B", "", "2", "11.0"],
        &["9:32 AM", "C", "3", "", "12.0"],
        &[""],
        &["Disclaimer text"],
    ]);
    // Region: indices 2..6, holding one blank row and three data rows.
    let out = convert(g).unwrap();
    assert_eq!(out.len(), 1 + 3);
}

#[test]
fn full_conversion() {
    let g = grid(&[
        &[DATE_LINE],
        &["Time", "Symbol", "B (100)", "S (100)", "Fill P"],
        &["9:30 AM", "ESZ5", "2", "0", "6800.25"],
        &["1:45 PM", "NQZ5", "0", "1", "25100.50"],
        &[""],
        &["Disclaimer: not advice"],
    ]);
    let out = convert(g).unwrap();
    assert_eq!(
        out,
        grid(&[
            &["Date", "Time", "Symbol", "Quantity", "Price", "Side"],
            &["12/10/2025", "09:30:00", "ESZ5", "2", "6800.25", "Buy"],
            &["12/10/2025", "13:45:00", "NQZ5", "1", "25100.50", "Sell"],
        ])
    );
}

#[test]
fn conversion_aborts_on_first_bad_row() {
    let g = grid(&[
        &[DATE_LINE],
        &["Time", "Symbol", "B (100)", "S (100)", "Fill P"],
        &["9:30 AM", "ESZ5", "2", "0", "6800.25"],
        &["bad", "NQZ5", "1", "0", "25100.50"],
    ]);
    assert_eq!(convert(g), Err(ConvertError::InvalidTimeFormat));
}

#[test]
fn short_rows_read_as_empty_cells() {
    let h = row(&["Time", "Symbol", "B (100)", "S (100)", "Fill P"]);
    let idx = parse_header_row(&h).unwrap();
    // Sell column missing from the row entirely: treated as empty.
    let r = row(&["9:30 AM", "ESZ5", "4"]);
    let out = convert_row(&r, "12/10/2025", &idx).unwrap();
    assert_eq!(out, row(&["12/10/2025", "09:30:00", "ESZ5", "4", "", "Buy"]));
}
