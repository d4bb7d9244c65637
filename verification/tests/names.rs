use stock_themes::names::{clean_percentage, normalize, time_frames};
use stock_themes::text::{chars_of, same_text, string_of};

#[test]
fn normalize_puts_words_in_title_case() {
    assert_eq!(normalize("electronic technology"), "Electronic Technology");
    assert_eq!(normalize("HEALTH SERVICES"), "Health Services");
    assert_eq!(normalize("oil/gas PIPELINES"), "Oil/Gas Pipelines");
}

#[test]
fn normalize_squeezes_and_trims_white_space() {
    assert_eq!(normalize("  retail   trade  "), "Retail Trade");
    assert_eq!(normalize("retail\ttrade\n"), "Retail Trade");
    assert_eq!(normalize("retail\u{00A0}\u{2003}trade"), "Retail Trade");
    assert_eq!(normalize("   "), "");
    assert_eq!(normalize(""), "");
}

#[test]
fn normalize_unifies_slashes() {
    assert_eq!(normalize("hotels\u{FF0F}resorts"), "Hotels/Resorts");
    assert_eq!(normalize("hotels\u{2044}resorts"), "Hotels/Resorts");
    assert_eq!(normalize("hotels\u{2215}resorts"), "Hotels/Resorts");
    assert_eq!(normalize("hotels\u{29F8}resorts"), "Hotels/Resorts");
    assert_eq!(normalize("hotels / resorts"), "Hotels / Resorts");
    assert_eq!(normalize("/a//b/"), "/A//B/");
}

#[test]
fn normalize_handles_characters_whose_case_has_several_characters() {
    assert_eq!(normalize("ßa"), "SSa");
    assert_eq!(normalize("aß"), "Aß");
    assert_eq!(normalize("İx"), "İx");
    assert_eq!(normalize("xİ"), "Xi\u{307}");
    assert_eq!(normalize("ÉCOLE éCOLE"), "École École");
}

#[test]
fn normalize_is_stable() {
    for s in ["Oil/Gas Pipelines", "Retail Trade", "A B/C"] {
        assert_eq!(normalize(s), s);
    }
}

#[test]
fn time_frames_are_split_trimmed_and_upper_cased() {
    assert_eq!(time_frames("1M,3M,6M,1Y"), vec!["1M", "3M", "6M", "1Y"]);
    assert_eq!(time_frames(" 1m , 3m ,6m"), vec!["1M", "3M", "6M"]);
    assert_eq!(time_frames("1y"), vec!["1Y"]);
}

#[test]
fn time_frames_keep_empty_pieces() {
    assert_eq!(time_frames(""), vec![""]);
    assert_eq!(time_frames(","), vec!["", ""]);
    assert_eq!(time_frames("1m,, 3m,"), vec!["1M", "", "3M", ""]);
}

#[test]
fn percentages_are_cleaned_for_parsing() {
    assert_eq!(clean_percentage("+3.21%"), "3.21");
    assert_eq!(clean_percentage("\u{2212}1.05%"), "-1.05");
    assert_eq!(clean_percentage("1,234%"), "1234");
    assert_eq!(clean_percentage("  -0.5% "), "-0.5");
    assert_eq!(clean_percentage("12"), "12");
    assert_eq!(clean_percentage("%"), "");
    assert_eq!(clean_percentage(""), "");
    assert_eq!(clean_percentage("1 234%"), "1 234");
    assert_eq!(clean_percentage("+-\u{2212}1,0,0%%"), "--100");
}

#[test]
fn cleaned_percentages_parse_to_their_values() {
    assert_eq!(clean_percentage("+3.21%").parse::<f64>().unwrap(), 3.21);
    assert_eq!(clean_percentage("\u{2212}1.05%").parse::<f64>().unwrap(), -1.05);
    assert_eq!(clean_percentage("1,234%").parse::<f64>().unwrap(), 1234.0);
    assert!(clean_percentage("n/a").parse::<f64>().is_err());
    assert!(clean_percentage("").parse::<f64>().is_err());
}

#[test]
fn characters_and_strings_convert_both_ways() {
    assert_eq!(chars_of("aé\u{2212}"), vec!['a', 'é', '\u{2212}']);
    assert_eq!(string_of(&vec!['x', 'ß', '/']), "xß/");
    assert!(chars_of("").is_empty());
    assert_eq!(string_of(&Vec::new()), "");
}

#[test]
fn same_text_compares_characters() {
    assert!(same_text("daily", "daily"));
    assert!(same_text("", ""));
    assert!(!same_text("daily", "dailY"));
    assert!(!same_text("daily", "dail"));
    assert!(!same_text("", "a"));
}
