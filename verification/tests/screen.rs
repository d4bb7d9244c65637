use stock_themes::screen::{
    column_of, failure_report, name_of_cell, perf_columns, split_row_key, PerfColumns,
};

fn header(field: &str) -> Option<String> {
    Some(field.to_string())
}

#[test]
fn name_is_the_first_line_of_a_cell() {
    assert_eq!(name_of_cell("XLK \nTechnology Select Sector"), "XLK");
    assert_eq!(name_of_cell("  Finance  \n\nmore"), "Finance");
    assert_eq!(name_of_cell("\nonly details"), "");
}

#[test]
fn a_cell_of_one_line_is_taken_as_it_is() {
    assert_eq!(name_of_cell(" Finance "), " Finance ");
    assert_eq!(name_of_cell(""), "");
}

#[test]
fn a_row_key_names_exchange_and_symbol() {
    assert_eq!(split_row_key("nasdaq:aapl"), Some(("NASDAQ".to_string(), "AAPL".to_string())));
    assert_eq!(split_row_key(" nyse : brk.b "), Some(("NYSE".to_string(), "BRK.B".to_string())));
    assert_eq!(split_row_key("a:b:c"), Some(("A".to_string(), "B:C".to_string())));
    assert_eq!(split_row_key(":"), Some((String::new(), String::new())));
    assert_eq!(split_row_key("x:"), Some(("X".to_string(), String::new())));
}

#[test]
fn a_row_key_without_a_colon_names_nothing() {
    assert_eq!(split_row_key("aapl"), None);
    assert_eq!(split_row_key(""), None);
}

#[test]
fn performance_columns_are_found_by_their_fields() {
    let headers = vec![
        header("Name"),
        None,
        header("Performance|Interval3M"),
        header("Performance|Interval1M"),
        header("Performance|Interval1Y"),
        header("Performance|Interval6M"),
        header("Performance|Interval1M"),
    ];
    let cols = perf_columns(&headers);
    assert_eq!(
        cols,
        PerfColumns {
            one_month: Some(3),
            three_months: Some(2),
            six_months: Some(5),
            one_year: Some(4)
        }
    );
    assert!(cols.is_complete());
    assert!(!cols.is_empty());
}

#[test]
fn missing_performance_columns_are_none() {
    let cols = perf_columns(&vec![header("Name"), header("Performance|Interval1Y")]);
    assert_eq!(cols.one_month, None);
    assert_eq!(cols.one_year, Some(1));
    assert!(!cols.is_complete());
    assert!(!cols.is_empty());
    let cols = perf_columns(&vec![header("Name"), header("performance|interval1y"), None]);
    assert!(cols.is_empty());
    assert!(perf_columns(&Vec::new()).is_empty());
}

#[test]
fn failures_are_reported_together() {
    assert_eq!(failure_report(&Vec::new()), None);
    assert_eq!(
        failure_report(&vec!["AAPL".to_string()]),
        Some("Fetching stock info failed for 'AAPL'".to_string())
    );
    assert_eq!(
        failure_report(&vec!["AAPL".to_string(), "MSFT".to_string(), "X".to_string()]),
        Some("Fetching stock info failed for 'AAPL,MSFT,X'".to_string())
    );
}

#[test]
fn a_column_is_found_by_its_field() {
    let headers = vec![header("Name"), None, header("Sector"), header("Industry"), header("Sector")];
    assert_eq!(column_of(&headers, "Sector"), Some(2));
    assert_eq!(column_of(&headers, "Industry"), Some(3));
    assert_eq!(column_of(&headers, "sector"), None);
    assert_eq!(column_of(&Vec::new(), "Sector"), None);
}
