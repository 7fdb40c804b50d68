//! Number rendering, cell escaping and menu loop control.

use flood_pipeline::format::{format_large_number, format_number, format_with_commas};
use flood_pipeline::menu::{parse_menu_reply, run_transaction};
use flood_pipeline::rows::csv_escape;

#[test]
fn rounding_round_trip() {
    // 1234567.5 at two decimals, then at zero decimals (rounded half up).
    assert_eq!(format_number(1_234_567_500_000, 2), "1,234,567.50");
    assert_eq!(format_number(1_234_567_500_000, 0), "1,234,568");
}

#[test]
fn formatting_edge_cases() {
    assert_eq!(format_number(0, 2), "0.00");
    assert_eq!(format_number(-1_500_000, 0), "-2");
    assert_eq!(format_number(-1_234_560_000, 2), "-1,234.56");
    assert_eq!(format_number(999_500, 0), "1");
    // A negative value that rounds to zero drops its sign.
    assert_eq!(format_number(-400_000, 0), "0");
    assert_eq!(format_number(1_000_000, 6), "1.000000");
    assert_eq!(format_large_number(2_500_000), "3");
    assert_eq!(format_large_number(123_456_789_000_000), "123,456,789");
}

#[test]
fn comma_grouping() {
    assert_eq!(format_with_commas("1234567"), "1,234,567");
    assert_eq!(format_with_commas("-1234567"), "-1,234,567");
    assert_eq!(format_with_commas("123"), "123");
    assert_eq!(format_with_commas(""), "");
}

#[test]
fn csv_cells_are_escaped() {
    assert_eq!(csv_escape("plain"), "plain");
    assert_eq!(csv_escape("a,b"), "\"a,b\"");
    assert_eq!(csv_escape("say \"hi\""), "\"say \"\"hi\"\"\"");
    assert_eq!(csv_escape("line\nbreak"), "\"line\nbreak\"");
}

#[test]
fn menu_replies() {
    assert_eq!(parse_menu_reply("Y"), Some(true));
    assert_eq!(parse_menu_reply("y"), Some(true));
    assert_eq!(parse_menu_reply("N"), Some(false));
    assert_eq!(parse_menu_reply("n"), Some(false));
    assert_eq!(parse_menu_reply("yes"), None);
    assert_eq!(parse_menu_reply(""), None);
}

#[test]
fn transaction_loop_counts_runs() {
    let replies: Vec<String> = vec!["x".into(), "N".into(), "Y".into()];
    assert_eq!(run_transaction(&replies), 2);
    let none: Vec<String> = Vec::new();
    assert_eq!(run_transaction(&none), 1);
    let quick: Vec<String> = vec!["Y".into()];
    assert_eq!(run_transaction(&quick), 1);
    let exhausted: Vec<String> = vec!["N".into(), "N".into()];
    assert_eq!(run_transaction(&exhausted), 3);
}
