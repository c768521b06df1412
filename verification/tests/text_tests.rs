use asp_cli::decimal::{integer_text, parse_integer};
use asp_cli::text::{chars_of, compare, find_char, join, reads_as_word, same_text, Rank};

#[test]
fn compare_orders_by_first_difference() {
    assert_eq!(compare("abc", "abd"), Rank::Before);
    assert_eq!(compare("abd", "abc"), Rank::After);
    assert_eq!(compare("b", "abc"), Rank::After);
    assert_eq!(compare("Z", "a"), Rank::Before);
}

#[test]
fn compare_puts_a_prefix_first() {
    assert_eq!(compare("", "a"), Rank::Before);
    assert_eq!(compare("ab", "abc"), Rank::Before);
    assert_eq!(compare("abc", "ab"), Rank::After);
    assert_eq!(compare("", ""), Rank::Same);
    assert_eq!(compare("abc", "abc"), Rank::Same);
}

#[test]
fn compare_agrees_with_the_order_of_strings() {
    let words = ["", "a", "a_b", "a.b", "ab", "B", "é", "e", "z", "日本", "~", "a\u{10000}"];
    for a in words {
        for b in words {
            let expected = match a.cmp(b) {
                std::cmp::Ordering::Less => Rank::Before,
                std::cmp::Ordering::Equal => Rank::Same,
                std::cmp::Ordering::Greater => Rank::After,
            };
            assert_eq!(compare(a, b), expected, "{:?} against {:?}", a, b);
        }
    }
}

#[test]
fn same_text_tells_equal_texts() {
    assert!(same_text("key", "key"));
    assert!(!same_text("key", "Key"));
    assert!(!same_text("key", "keys"));
    assert!(same_text("", ""));
}

#[test]
fn join_puts_the_separator_between() {
    assert_eq!(join("a", "_", "b"), "a_b");
    assert_eq!(join("", ".", ""), ".");
    assert_eq!(join("contact", ".", "email"), "contact.email");
}

#[test]
fn find_char_counts_characters_not_bytes() {
    assert_eq!(find_char("a.b.c", '.'), Some(1));
    assert_eq!(find_char("abc", '.'), None);
    assert_eq!(find_char("", '.'), None);
    assert_eq!(find_char("é.x", '.'), Some(1));
    assert_eq!(find_char(".", '.'), Some(0));
}

#[test]
fn chars_of_gives_each_character() {
    assert_eq!(chars_of("aé日"), vec!['a', 'é', '日']);
    assert_eq!(chars_of(""), Vec::<char>::new());
}

#[test]
fn reads_as_word_ignores_the_case_of_latin_letters() {
    assert!(reads_as_word(&chars_of("JSON"), "json"));
    assert!(reads_as_word(&chars_of("Yml"), "yml"));
    assert!(!reads_as_word(&chars_of("jso"), "json"));
    assert!(!reads_as_word(&chars_of("jsonx"), "json"));
    assert!(!reads_as_word(&chars_of("json"), "JSON"));
    assert!(!reads_as_word(&chars_of("\u{212a}"), "k"));
}

#[test]
fn integer_text_writes_decimal() {
    assert_eq!(integer_text(0), "0");
    assert_eq!(integer_text(7), "7");
    assert_eq!(integer_text(-7), "-7");
    assert_eq!(integer_text(1200), "1200");
    assert_eq!(integer_text(i64::MAX), "9223372036854775807");
    assert_eq!(integer_text(i64::MIN), "-9223372036854775808");
}

#[test]
fn parse_integer_reads_decimal() {
    assert_eq!(parse_integer("0"), Some(0));
    assert_eq!(parse_integer("-0"), Some(0));
    assert_eq!(parse_integer("000123"), Some(123));
    assert_eq!(parse_integer("-42"), Some(-42));
    assert_eq!(parse_integer("9223372036854775807"), Some(i64::MAX));
    assert_eq!(parse_integer("-9223372036854775808"), Some(i64::MIN));
    assert_eq!(parse_integer("00000000000000000000000000000000000009"), Some(9));
}

#[test]
fn parse_integer_refuses_what_is_no_integer() {
    assert_eq!(parse_integer(""), None);
    assert_eq!(parse_integer("-"), None);
    assert_eq!(parse_integer("+5"), None);
    assert_eq!(parse_integer("1.0"), None);
    assert_eq!(parse_integer("1,000"), None);
    assert_eq!(parse_integer(" 1"), None);
    assert_eq!(parse_integer("1 "), None);
    assert_eq!(parse_integer("--1"), None);
    assert_eq!(parse_integer("9223372036854775808"), None);
    assert_eq!(parse_integer("-9223372036854775809"), None);
    assert_eq!(parse_integer("99999999999999999999999"), None);
    assert_eq!(parse_integer("١٢"), None);
}

#[test]
fn parse_integer_reads_what_integer_text_writes() {
    for i in [0, 1, -1, 9, 10, -10, 99, 100, 12345, -98765, i64::MAX, i64::MIN, i64::MAX - 1] {
        assert_eq!(parse_integer(&integer_text(i)), Some(i));
    }
}
