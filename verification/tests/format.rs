use meet_eat_core::backup::{has_db_ext, list_backups, FsEntry};
use meet_eat_core::calendar::{backup_file_name, datetime_string, days_to_ymd, simple_ts};
use meet_eat_core::printing::{print_stream, ps_escape, tmp_file_name};
use meet_eat_core::query::{parse_i64, parse_qs, percent_decode, qs_get, to_date_only};
use meet_eat_core::receipt::{format_receipt, ReceiptItem, ReceiptPayload};
use meet_eat_core::text::{cents_to_rs, dec_string, fit_text, line_two_col, pad_left, pad_right, sep};

fn payload(items: Vec<ReceiptItem>) -> ReceiptPayload {
    ReceiptPayload {
        bill_no: "MNE-000042".to_string(),
        printed_at: "2024-01-02 03:04:05".to_string(),
        subtotal_cents: 1000,
        discount_rate_bps: 250,
        discount_cents: 25,
        total_cents: 975,
        items,
    }
}

#[test]
fn money_renders_two_decimals() {
    assert_eq!(cents_to_rs(0), "0.00");
    assert_eq!(cents_to_rs(5), "0.05");
    assert_eq!(cents_to_rs(1234), "12.34");
    assert_eq!(cents_to_rs(100), "1.00");
    assert_eq!(cents_to_rs(-5), "-0.05");
    assert_eq!(cents_to_rs(-1234), "-12.34");
}

#[test]
fn padding_and_clipping() {
    assert_eq!(pad_right("ab", 5), "ab   ");
    assert_eq!(pad_left("ab", 5), "   ab");
    assert_eq!(pad_right("abcdef", 3), "abcdef");
    assert_eq!(pad_left("abcdef", 3), "abcdef");
    assert_eq!(fit_text("  hello  ", 3), "hel");
    assert_eq!(fit_text("  hello  ", 10), "hello");
    assert_eq!(sep(4), "----");
    assert_eq!(dec_string(907), "907");
}

#[test]
fn two_column_layout_drops_label_for_wide_values() {
    assert_eq!(line_two_col("Total", "9.99", 12), "Total   9.99");
    // A value that alone reaches the width renders without the label.
    assert_eq!(line_two_col("Label", "123456789012", 12), "123456789012");
    assert_eq!(line_two_col("Label", "1234567890123", 12), "123456789012");
}

#[test]
fn long_item_names_are_clipped_to_twenty_characters() {
    let name = "ABCDEFGHIJKLMNOPQRSTUVWXYZ";
    let p = payload(vec![ReceiptItem {
        name: name.to_string(),
        qty: 1,
        unit_price_cents: 100,
        line_total_cents: 100,
    }]);
    let text = format_receipt(&p);
    let lines: Vec<&str> = text.split("\r\n").collect();
    let item_line = lines[5];
    assert_eq!(&item_line[..20], "ABCDEFGHIJKLMNOPQRST");
    assert_eq!(item_line.chars().count(), 48);
}

#[test]
fn receipt_layout_sections_in_order() {
    let p = payload(vec![ReceiptItem {
        name: "Tea".to_string(),
        qty: 2,
        unit_price_cents: 500,
        line_total_cents: 1000,
    }]);
    let text = format_receipt(&p);
    let lines: Vec<&str> = text.split("\r\n").collect();
    assert_eq!(lines.len(), 11);
    assert_eq!(lines[0], "-".repeat(48));
    assert!(lines[1].starts_with("Bill: MNE-000042"));
    assert!(lines[1].ends_with("2024-01-02 03:04:05"));
    assert_eq!(lines[2], "-".repeat(48));
    assert_eq!(lines[3], format!("{:<20} {:>4} {:>9} {:>12}", "Item", "Qty", "Rate", "Amount"));
    assert_eq!(lines[4], "-".repeat(48));
    assert_eq!(lines[5], format!("{:<20} {:>4} {:>9} {:>12}", "Tea", "2", "5.00", "10.00"));
    assert_eq!(lines[6], "-".repeat(48));
    assert!(lines[7].starts_with("Subtotal"));
    assert!(lines[7].ends_with("Rs 10.00"));
    assert!(lines[8].starts_with("Discount (2.50%)"));
    assert!(lines[8].ends_with("-Rs 0.25"));
    assert!(lines[9].starts_with("TOTAL"));
    assert!(lines[9].ends_with("Rs 9.75"));
    assert_eq!(lines[10], "-".repeat(48));
    assert!(lines.iter().all(|l| l.chars().count() == 48));
}

#[test]
fn print_stream_wraps_receipt_bytes() {
    let body = "RECEIPT";
    let stream = print_stream(body);
    // Initialize, center, double size, emphasis, branding.
    assert_eq!(&stream[..2], &[0x1b, 0x40]);
    assert_eq!(&stream[2..5], &[0x1b, 0x61, 0x01]);
    assert!(stream.windows(body.len()).any(|w| w == body.as_bytes()));
    // Paper cut at the very end.
    assert_eq!(&stream[stream.len() - 4..], &[0x1d, 0x56, 0x41, 0x03]);
    let brand = b"MEET & EAT\r\n";
    assert!(stream.windows(brand.len()).any(|w| w == brand));
    let closing = b"Thank you. Visit again!\r\n";
    assert!(stream.windows(closing.len()).any(|w| w == closing));
}

#[test]
fn powershell_quoting_doubles_quotes() {
    assert_eq!(ps_escape("plain"), "plain");
    assert_eq!(ps_escape("it's"), "it''s");
    assert_eq!(ps_escape("say \"hi\""), "say `\"hi`\"");
    assert_eq!(tmp_file_name(12345), "meateat_12345.txt");
}

#[test]
fn percent_decoding_and_query_parsing() {
    assert_eq!(percent_decode("a%20b+c"), "a b c");
    assert_eq!(percent_decode("100%25"), "100%");
    assert_eq!(percent_decode("%4"), "@");
    assert_eq!(percent_decode("%zz"), "?");
    let (base, qs) = parse_qs("/products/search?q=ice%20cream&page=2&q=tea+hot");
    assert_eq!(base, "/products/search");
    // The last entry for a repeated key wins, as a map built by insertion.
    assert_eq!(qs_get(&qs, "q").map(|s| s.clone()), Some("tea hot".to_string()));
    assert_eq!(qs_get(&qs, "page").map(|s| s.clone()), Some("2".to_string()));
    assert_eq!(qs_get(&qs, "missing"), None);
    let (base2, qs2) = parse_qs("/health");
    assert_eq!(base2, "/health");
    assert!(qs2.is_empty());
}

#[test]
fn date_only_validation() {
    assert_eq!(to_date_only(" 2024-01-02 "), Some("2024-01-02".to_string()));
    assert_eq!(to_date_only("2024-1-2"), None);
    assert_eq!(to_date_only("20240102"), None);
    assert_eq!(to_date_only("2024-01-020"), None);
}

#[test]
fn signed_decimal_parsing_matches_std() {
    for s in ["0", "42", "-17", "+8", "9223372036854775807", "-9223372036854775808"] {
        assert_eq!(parse_i64(s), s.parse::<i64>().ok());
    }
    for s in ["", "-", "+", "4x", " 5", "9223372036854775808", "--4"] {
        assert_eq!(parse_i64(s), s.parse::<i64>().ok(), "case {s}");
    }
}

#[test]
fn civil_calendar_conversion() {
    assert_eq!(days_to_ymd(0), (1970, 1, 1));
    assert_eq!(days_to_ymd(365), (1971, 1, 1));
    // 2000-02-29 is day 11016 of the epoch.
    assert_eq!(days_to_ymd(11016), (2000, 2, 29));
    assert_eq!(simple_ts(0), "19700101_000000");
    assert_eq!(simple_ts(1_700_000_000), "20231114_221320");
    assert_eq!(datetime_string(1_700_000_000), "2023-11-14 22:13:20");
    assert_eq!(backup_file_name(0), "meet-eat-19700101_000000.db");
}

#[test]
fn backup_listing_filters_and_sorts() {
    assert!(has_db_ext("x.db"));
    assert!(!has_db_ext(".db"));
    assert!(!has_db_ext("x.txt"));
    let entry = |name: &str, is_file: bool, modified: u64| FsEntry {
        name: name.to_string(),
        path: format!("dir/{name}"),
        is_file,
        size_bytes: 10,
        modified_secs: modified,
    };
    let entries = vec![
        entry("old.db", true, 100),
        entry("subdir.db", false, 500),
        entry("notes.txt", true, 400),
        entry("new.db", true, 300),
        entry("mid.db", true, 200),
    ];
    let listed = list_backups(&entries);
    let names: Vec<String> = listed.iter().map(|e| e.name.clone()).collect();
    assert_eq!(names, vec!["new.db".to_string(), "mid.db".to_string(), "old.db".to_string()]);
}
