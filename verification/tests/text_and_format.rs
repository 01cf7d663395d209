use rustwebapp::format::{employee_url, format_clock, format_salary, row_count_label};
use rustwebapp::text::{chars_of, parse_i32, str_le, text_contains, to_decimal};

#[test]
fn salary_example_from_docs() {
    assert_eq!(format_salary(95000), "$95,000");
}

#[test]
fn salary_small_values_have_no_separator() {
    assert_eq!(format_salary(0), "$0");
    assert_eq!(format_salary(7), "$7");
    assert_eq!(format_salary(999), "$999");
}

#[test]
fn salary_groups_every_three_digits() {
    assert_eq!(format_salary(1000), "$1,000");
    assert_eq!(format_salary(1234567), "$1,234,567");
    assert_eq!(format_salary(i32::MAX), "$2,147,483,647");
}

#[test]
fn salary_negative_sign_stands_apart_from_the_groups() {
    assert_eq!(format_salary(-95), "$-95");
    assert_eq!(format_salary(-950), "$-950");
    assert_eq!(format_salary(-100000), "$-100,000");
    assert_eq!(format_salary(-95000), "$-95,000");
    assert_eq!(format_salary(-950000), "$-950,000");
    assert_eq!(format_salary(i32::MIN), "$-2,147,483,648");
}

#[test]
fn salary_never_separates_the_sign() {
    for s in [-1, -12, -123, -1234, -123456, -1234567, i32::MIN] {
        assert!(!format_salary(s).contains("-,"));
    }
}

#[test]
fn salary_without_separators_is_the_number() {
    for s in [0, 5, 12, 999, 1000, 65536, 2_000_000, i32::MAX, -1, -1000, i32::MIN] {
        let text = format_salary(s);
        assert!(text.starts_with('$'));
        let digits: String = text[1..].chars().filter(|c| *c != ',').collect();
        assert_eq!(digits, s.to_string());
    }
}

#[test]
fn decimal_matches_to_string() {
    for n in [0i64, 9, 10, 42, -7, 1_000_000, i64::MAX, i64::MIN] {
        assert_eq!(to_decimal(n), n.to_string());
    }
}

#[test]
fn parse_accepts_rust_integer_syntax() {
    assert_eq!(parse_i32("95000"), Some(95000));
    assert_eq!(parse_i32("+12"), Some(12));
    assert_eq!(parse_i32("-12"), Some(-12));
    assert_eq!(parse_i32("007"), Some(7));
    assert_eq!(parse_i32("2147483647"), Some(i32::MAX));
    assert_eq!(parse_i32("-2147483648"), Some(i32::MIN));
}

#[test]
fn parse_rejects_malformed_or_out_of_range() {
    assert_eq!(parse_i32(""), None);
    assert_eq!(parse_i32("-"), None);
    assert_eq!(parse_i32("+"), None);
    assert_eq!(parse_i32("12a"), None);
    assert_eq!(parse_i32(" 12"), None);
    assert_eq!(parse_i32("1.5"), None);
    assert_eq!(parse_i32("2147483648"), None);
    assert_eq!(parse_i32("-2147483649"), None);
    assert_eq!(parse_i32("99999999999999999999"), None);
    assert_eq!(parse_i32("--1"), None);
}

#[test]
fn parse_agrees_with_std() {
    for s in ["", "0", "-0", "+0", "12", "-12", "+", "x", "2147483647", "2147483648", "-2147483648", "00000000000000000001", "١٢"] {
        assert_eq!(parse_i32(s), s.parse::<i32>().ok(), "input {:?}", s);
    }
}

#[test]
fn decimal_text_parses_back() {
    for n in [0, 1, -1, 95000, i32::MAX, i32::MIN] {
        assert_eq!(parse_i32(&to_decimal(n as i64)), Some(n));
    }
}

#[test]
fn clock_pads_to_two_digits() {
    assert_eq!(format_clock(9, 5, 3), "09:05:03");
    assert_eq!(format_clock(23, 59, 0), "23:59:00");
    assert_eq!(format_clock(0, 0, 0), "00:00:00");
    assert_eq!(format_clock(100, 10, 7), "100:10:07");
}

#[test]
fn employee_url_holds_the_id() {
    assert_eq!(employee_url(42), "/api/employees/42");
    assert_eq!(employee_url(-3), "/api/employees/-3");
}

#[test]
fn row_count_label_text() {
    assert_eq!(row_count_label(0), "0 rows");
    assert_eq!(row_count_label(3), "3 rows");
    assert_eq!(row_count_label(1), "1 rows");
}

#[test]
fn chars_of_unicode() {
    assert_eq!(chars_of("añ🦀"), vec!['a', 'ñ', '🦀']);
}

#[test]
fn text_order_is_lexicographic() {
    assert!(str_le("Alice", "Bob"));
    assert!(!str_le("Bob", "Alice"));
    assert!(str_le("Al", "Alice"));
    assert!(!str_le("Alice", "Al"));
    assert!(str_le("", ""));
    assert!(str_le("Zed", "apple"));
    for (a, b) in [("é", "z"), ("Émile", "Eve"), ("a", "ab"), ("b", "ab")] {
        assert_eq!(str_le(a, b), a <= b);
    }
}

#[test]
fn contains_is_substring_search() {
    assert!(text_contains("engineering", "gin"));
    assert!(text_contains("engineering", ""));
    assert!(text_contains("abc", "abc"));
    assert!(!text_contains("abc", "abcd"));
    assert!(!text_contains("abc", "ac"));
    assert!(text_contains("aaab", "aab"));
}
