use rust_dock::text::{parse_bool, parse_i32, split_words, trim_chars};

fn cs(s: &str) -> Vec<char> {
    s.chars().collect()
}

#[test]
fn integers_parse_like_str_parse() {
    assert_eq!(parse_i32(&cs("42")), Some(42));
    assert_eq!(parse_i32(&cs("+7")), Some(7));
    assert_eq!(parse_i32(&cs("-2147483648")), Some(i32::MIN));
    assert_eq!(parse_i32(&cs("2147483648")), None);
    assert_eq!(parse_i32(&cs("")), None);
    assert_eq!(parse_i32(&cs("-")), None);
    assert_eq!(parse_i32(&cs(" 1")), None);
}

#[test]
fn booleans_parse_like_str_parse() {
    assert_eq!(parse_bool(&cs("true")), Some(true));
    assert_eq!(parse_bool(&cs("false")), Some(false));
    assert_eq!(parse_bool(&cs("True")), None);
}

#[test]
fn words_and_trimming() {
    let w: Vec<String> = split_words(&cs("  a  bc\td ")).iter().map(|v| v.iter().collect()).collect();
    assert_eq!(w, vec!["a", "bc", "d"]);
    let t: String = trim_chars(&cs("\u{3000} x y \n")).iter().collect();
    assert_eq!(t, "x y");
}
