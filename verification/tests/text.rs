use prismata::text::{chars_of, i32_to_chars, natural_to_chars, parse_i32_chars, push_chars, split_ranges};

fn text(v: &[char]) -> String {
    v.iter().collect()
}

#[test]
fn decimal_forms() {
    assert_eq!(text(&natural_to_chars(0)), "0");
    assert_eq!(text(&natural_to_chars(1203)), "1203");
    assert_eq!(text(&i32_to_chars(-45)), "-45");
    assert_eq!(text(&i32_to_chars(i32::MIN)), "-2147483648");
    assert_eq!(text(&i32_to_chars(i32::MAX)), "2147483647");
}

#[test]
fn parsing_like_from_str() {
    let parse = |s: &str| {
        let c = chars_of(s);
        parse_i32_chars(&c, 0, c.len())
    };
    assert_eq!(parse("42"), Some(42));
    assert_eq!(parse("+7"), Some(7));
    assert_eq!(parse("-0"), Some(0));
    assert_eq!(parse("-2147483648"), Some(i32::MIN));
    assert_eq!(parse("2147483648"), None);
    assert_eq!(parse(""), None);
    assert_eq!(parse("-"), None);
    assert_eq!(parse("1a"), None);
    assert_eq!(parse("007"), Some(7));
    for s in ["-1", "5", "-123456"] {
        assert_eq!(parse(s), s.parse::<i32>().ok());
    }
}

#[test]
fn splitting_at_a_separator() {
    let c = chars_of("a__bc_");
    let parts: Vec<String> = split_ranges(&c, 0, c.len(), '_')
        .iter()
        .map(|&(lo, hi)| text(&c[lo..hi]))
        .collect();
    assert_eq!(parts, vec!["a", "", "bc", ""]);
    assert_eq!(split_ranges(&c, 0, 0, '_'), vec![(0, 0)]);
}

#[test]
fn appending_characters() {
    let mut s = String::from("ab");
    push_chars(&mut s, &vec!['c', 'd']);
    assert_eq!(s, "abcd");
}
