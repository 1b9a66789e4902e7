use cites_ui::text::{
    clone_strings, contains_string, contains_substring, int_to_string, parse_trimmed_or, parse_unsigned_str,
    parse_unsigned_trimmed, prefixed_number, string_of_chars, trim, unique_in_order,
};
use cites_ui::lexical::{lex_less, sort_strings, sorted_distinct};

fn strings(v: &[&str]) -> Vec<String> {
    v.iter().map(|s| s.to_string()).collect()
}

#[test]
fn int_to_string_signs() {
    assert_eq!(int_to_string(0), "0");
    assert_eq!(int_to_string(-42), "-42");
    assert_eq!(int_to_string(i64::MIN), i64::MIN.to_string());
    assert_eq!(int_to_string(i64::MAX), i64::MAX.to_string());
}

#[test]
fn prefixed_number_appends_decimal() {
    assert_eq!(prefixed_number("Vehicle ", 7), "Vehicle 7");
    assert_eq!(prefixed_number("", 1234567890), "1234567890");
}

#[test]
fn parse_unsigned_accepts_what_str_parse_accepts() {
    assert_eq!(parse_unsigned_str("17", u32::MAX as u64), Some(17));
    assert_eq!(parse_unsigned_str("+17", u32::MAX as u64), Some(17));
    assert_eq!(parse_unsigned_str("4294967295", u32::MAX as u64), Some(4_294_967_295));
}

#[test]
fn parse_unsigned_rejects_bad_input() {
    assert_eq!(parse_unsigned_str("", 255), None);
    assert_eq!(parse_unsigned_str("+", 255), None);
    assert_eq!(parse_unsigned_str("-1", 255), None);
    assert_eq!(parse_unsigned_str("256", 255), None);
    assert_eq!(parse_unsigned_str(" 1", 255), None);
    assert_eq!(parse_unsigned_str("1a", 255), None);
    for s in ["", "+", "-1", "256", " 1", "1a", "007"] {
        assert_eq!(parse_unsigned_str(s, 255), s.parse::<u8>().ok().map(|v| v as u64));
    }
}

#[test]
fn parse_unsigned_trimmed_ignores_surrounding_whitespace() {
    assert_eq!(parse_unsigned_trimmed("  42\n", u16::MAX as u64), Some(42));
    assert_eq!(parse_unsigned_trimmed(" \t ", u16::MAX as u64), None);
    assert_eq!(parse_trimmed_or(" x ", u64::MAX, 1000), 1000);
    assert_eq!(parse_trimmed_or(" 250 ", u64::MAX, 1000), 250);
}

#[test]
fn trim_matches_str_trim() {
    for s in ["  a b  ", "\u{2003}x\u{3000}", "", "   ", "nochange"] {
        assert_eq!(trim(s), s.trim());
    }
}

#[test]
fn string_of_chars_rebuilds_string() {
    assert_eq!(string_of_chars(&vec!['a', 'ß', '→']), "aß→");
}

#[test]
fn contains_substring_matches_str_contains() {
    for (h, p) in [("aa:bb:cc", "bb:c"), ("aa:bb:cc", "cd"), ("abc", ""), ("", "a"), ("ab", "abc")] {
        assert_eq!(contains_substring(h, p), h.contains(p));
    }
}

#[test]
fn unique_in_order_keeps_first_occurrences() {
    let v = strings(&["b", "a", "b", "c", "a"]);
    assert_eq!(unique_in_order(&v), strings(&["b", "a", "c"]));
    assert!(contains_string(&v, &"c".to_string()));
    assert!(!contains_string(&v, &"d".to_string()));
    assert_eq!(clone_strings(&v), v);
}

#[test]
fn lexical_order_matches_str_order() {
    for (a, b) in [("a", "b"), ("ab", "a"), ("", "a"), ("abc", "abd"), ("Z", "a"), ("é", "z")] {
        assert_eq!(lex_less(a, b), a < b);
        assert_eq!(lex_less(b, a), b < a);
    }
}

#[test]
fn sort_strings_matches_sort() {
    let v = strings(&["b", "a", "c", "a", "B"]);
    let mut expected = v.clone();
    expected.sort();
    assert_eq!(sort_strings(&v), expected);
}

#[test]
fn sorted_distinct_matches_sort_dedup() {
    let v = strings(&["b", "a", "c", "a", "b"]);
    assert_eq!(sorted_distinct(&v), strings(&["a", "b", "c"]));
}
