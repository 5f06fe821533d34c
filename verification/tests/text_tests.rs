use bet_chain::decimal::{decimal_chars, parse_u64_chars, push_decimal, u64_to_string};
use bet_chain::text::{
    chars_eq_str, chars_of, first_line_chars, join_strings, latin1_chars, split_chars, string_of,
};

fn v(s: &str) -> Vec<char> {
    s.chars().collect()
}

#[test]
fn split_keeps_empty_pieces() {
    let parts = split_chars(&v("a|b||c|"), '|');
    let parts: Vec<String> = parts.iter().map(|p| p.iter().collect()).collect();
    assert_eq!(parts, vec!["a", "b", "", "c", ""]);
    assert_eq!(split_chars(&v(""), '|'), vec![Vec::<char>::new()]);
}

#[test]
fn join_then_split() {
    let list = vec!["x".to_string(), "yy".to_string()];
    let joined = join_strings(&list, ',');
    assert_eq!(joined, "x,yy");
    assert_eq!(join_strings(&Vec::new(), ','), "");
    assert_eq!(split_chars(&chars_of(&joined), ',').len(), 2);
}

#[test]
fn conversions() {
    assert_eq!(chars_of("héllo"), v("héllo"));
    assert_eq!(string_of(&v("héllo")), "héllo");
    assert_eq!(latin1_chars(&[104, 233, 10]), vec!['h', 'é', '\n']);
    assert!(chars_eq_str(&v("send_tx"), "send_tx"));
    assert!(!chars_eq_str(&v("send_t"), "send_tx"));
    assert!(!chars_eq_str(&v("send_ty"), "send_tx"));
}

#[test]
fn first_line_stops_at_newline_or_nul() {
    assert_eq!(first_line_chars(&v("ab\ncd"), false), v("ab"));
    assert_eq!(first_line_chars(&v("ab\0cd"), false), v("ab\0cd"));
    assert_eq!(first_line_chars(&v("ab\0cd"), true), v("ab"));
    assert_eq!(first_line_chars(&v("abc"), true), v("abc"));
}

#[test]
fn decimal_text() {
    assert_eq!(u64_to_string(0), "0");
    assert_eq!(u64_to_string(100), "100");
    assert_eq!(u64_to_string(u64::MAX), "18446744073709551615");
    assert_eq!(decimal_chars(42), v("42"));
    let mut s = "n=".to_string();
    push_decimal(&mut s, 7);
    assert_eq!(s, "n=7");
}

#[test]
fn parse_like_str_parse() {
    for text in ["0", "+5", "007", "18446744073709551615", "18446744073709551616", "", "+", "-1", "1a", " 1", "++1"] {
        assert_eq!(parse_u64_chars(&v(text)), text.parse::<u64>().ok(), "{}", text);
    }
}
