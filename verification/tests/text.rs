use ridgepoint::text::{
    align_left, align_right, contains, find, has_prefix, join, parse_unsigned, same, show_i64,
    show_u64, split_at_each, trim,
};

#[test]
fn numbers_are_shown_and_read() {
    for n in [0, 7, 10, 99, 1000, u32::MAX as u64, u64::MAX] {
        assert_eq!(show_u64(n), n.to_string());
        assert_eq!(parse_unsigned(&show_u64(n), u64::MAX), Some(n));
    }
    for n in [0, -1, i64::MIN, i64::MAX] {
        assert_eq!(show_i64(n), n.to_string());
    }
    for s in ["", "+", "-1", "1 ", "0x1", "1e3", "18446744073709551616", "99999999999999999999999", "٣"] {
        assert_eq!(parse_unsigned(s, u64::MAX), s.parse::<u64>().ok());
    }
    for s in ["+7", "007", "18446744073709551615"] {
        assert_eq!(parse_unsigned(s, u64::MAX), s.parse::<u64>().ok());
    }
    assert_eq!(parse_unsigned("256", 255), None);
    assert_eq!(parse_unsigned("255", 255), Some(255));
}

#[test]
fn white_space_is_that_of_unicode() {
    for code in 0..0x3100u32 {
        if let Some(c) = char::from_u32(code) {
            let s = format!("{}a{}b{}", c, c, c);
            assert_eq!(trim(&s), s.trim());
        }
    }
    assert_eq!(trim(" \t\r\n"), "");
    assert_eq!(trim(""), "");
}

#[test]
fn texts_are_cut_and_joined() {
    for s in ["", ",", "a", "a,b", ",a,,b,", "é,·"] {
        let pieces = split_at_each(s, ',');
        let expected: Vec<String> = s.split(',').map(|p| p.to_string()).collect();
        assert_eq!(pieces, expected);
        assert_eq!(join(&pieces, ","), s);
    }
    assert_eq!(join(&Vec::new(), ", "), "");
}

#[test]
fn texts_are_searched() {
    for (hay, needle) in [("nvidia a100", "a100"), ("a10", "a100"), ("", ""), ("x", ""), ("aab", "ab"), ("é·", "·")] {
        assert_eq!(contains(hay, needle), hay.contains(needle));
        assert_eq!(has_prefix(hay, needle), hay.starts_with(needle));
        assert_eq!(same(hay, needle), hay == needle);
    }
    assert!(has_prefix("--json", "--") && !has_prefix("-", "--"));
    assert_eq!(find("a:b:c", ':'), 1);
    assert_eq!(find("é:", ':'), 1);
    assert_eq!(find("abc", ':'), 3);
}

#[test]
fn texts_are_aligned() {
    for s in ["", "1.0", "·é", "1234567"] {
        assert_eq!(align_right(s, 6), format!("{:>6}", s));
        assert_eq!(align_left(s, 6), format!("{:<6}", s));
    }
}
