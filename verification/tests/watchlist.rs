use stock_themes::text::{
    chars_of, contains_text, drop_empty, join_chars, split_chars, string_of, trim_chars,
};
use stock_themes::watchlist::{parse_stocks, select_stocks, skip_list};

fn strings(items: &[&str]) -> Vec<String> {
    items.iter().map(|s| s.to_string()).collect()
}

fn pieces(s: &str, sep: char) -> Vec<String> {
    split_chars(&chars_of(s), sep).iter().map(string_of).collect()
}

#[test]
fn splitting_agrees_with_the_standard_split() {
    for s in ["a,b,c", "", ",", "a,", ",a", "a,,b", "no commas", ",,,"] {
        let expected: Vec<String> = s.split(',').map(str::to_string).collect();
        assert_eq!(pieces(s, ','), expected, "{:?}", s);
    }
}

#[test]
fn trimming_agrees_with_the_standard_trim() {
    for s in ["  a b  ", "", "   ", "a", "\t\na\r\n", "\u{00A0}x\u{3000}", " a", "a "] {
        assert_eq!(string_of(&trim_chars(&chars_of(s))), s.trim(), "{:?}", s);
    }
}

#[test]
fn joining_puts_the_separator_between_pieces() {
    let words = vec![chars_of("a"), chars_of("bc"), chars_of("")];
    assert_eq!(string_of(&join_chars(&words, &chars_of(", "))), "a, bc, ");
    assert_eq!(string_of(&join_chars(&vec![chars_of("solo")], &chars_of("-"))), "solo");
    assert_eq!(string_of(&join_chars(&Vec::new(), &chars_of("-"))), "");
    let kept = drop_empty(vec![chars_of(""), chars_of("a"), chars_of(""), chars_of("b")]);
    assert_eq!(string_of(&join_chars(&kept, &chars_of(" "))), "a b");
}

#[test]
fn symbols_are_read_from_the_first_field_of_every_line() {
    let content = "Symbol,Name\naapl,Apple\n msft ,Microsoft\n\nGOOG\n";
    assert_eq!(parse_stocks(content, 1), vec!["AAPL", "MSFT", "GOOG"]);
    assert_eq!(parse_stocks(content, 0), vec!["SYMBOL", "AAPL", "MSFT", "GOOG"]);
}

#[test]
fn heading_lines_are_skipped() {
    let content = "a\nb\nc\nd\ne";
    assert_eq!(parse_stocks(content, 4), vec!["E"]);
    assert!(parse_stocks(content, 5).is_empty());
    assert!(parse_stocks(content, 100).is_empty());
    assert!(parse_stocks("", 0).is_empty());
    assert!(parse_stocks("a\nb\n", 2).is_empty());
}

#[test]
fn windows_line_ends_and_empty_fields_are_tolerated() {
    assert_eq!(parse_stocks("aapl,1\r\nmsft,2\r\n", 0), vec!["AAPL", "MSFT"]);
    assert_eq!(parse_stocks(",x\n  ,y\nz,", 0), vec!["Z"]);
}

#[test]
fn the_skip_list_joins_both_sources() {
    let ignored = strings(&[" spy ", "", "qqq"]);
    assert_eq!(skip_list("aapl, msft,,", &ignored), vec!["AAPL", "MSFT", "SPY", "QQQ"]);
    assert!(skip_list("", &Vec::new()).is_empty());
    assert_eq!(skip_list("", &ignored), vec!["SPY", "QQQ"]);
}

#[test]
fn selection_drops_skipped_and_repeated_symbols() {
    let all = strings(&["AAPL", "SPY", "MSFT", "AAPL", "GOOG", "MSFT", "QQQ"]);
    let skips = strings(&["SPY", "QQQ"]);
    assert_eq!(select_stocks(&all, &skips), vec!["AAPL", "MSFT", "GOOG"]);
    assert_eq!(select_stocks(&all, &Vec::new()), vec!["AAPL", "SPY", "MSFT", "GOOG", "QQQ"]);
    assert!(select_stocks(&Vec::new(), &skips).is_empty());
}

#[test]
fn contains_text_looks_for_the_whole_text() {
    let list = strings(&["AAPL", "MSFT"]);
    assert!(contains_text(&list, "MSFT"));
    assert!(!contains_text(&list, "MSF"));
    assert!(!contains_text(&list, "msft"));
    assert!(!contains_text(&Vec::new(), ""));
}
