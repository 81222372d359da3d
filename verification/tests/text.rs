use crop_hypr::text::{
    chars_of, contains_chars, is_whitespace, parse_i32, parse_u32, position_of, push_int,
    replace_chars, replace_str, split_once_chars, string_of, sub_chars, trim_chars,
};

fn cs(s: &str) -> Vec<char> {
    s.chars().collect()
}

#[test]
fn chars_and_strings_round_trip() {
    assert_eq!(chars_of("héllo"), cs("héllo"));
    assert_eq!(string_of(&cs("héllo")), "héllo");
    assert_eq!(sub_chars(&cs("abcdef"), 1, 4), cs("bcd"));
}

#[test]
fn whitespace_matches_std() {
    for c in [' ', '\t', '\n', '\r', '\u{a0}', '\u{2003}', '\u{3000}', 'a', '0', '_'] {
        assert_eq!(is_whitespace(c), c.is_whitespace(), "{:?}", c);
    }
}

#[test]
fn trim_matches_std() {
    for s in ["  a b  ", "\n\t", "", "x", " \u{2003}y\u{a0}"] {
        assert_eq!(trim_chars(&cs(s)), cs(s.trim()));
    }
}

#[test]
fn find_and_split() {
    assert_eq!(position_of(&cs("10,20"), ','), Some(2));
    assert_eq!(position_of(&cs("1020"), ','), None);
    assert_eq!(split_once_chars(&cs("a,b,c"), ','), Some((cs("a"), cs("b,c"))));
    assert_eq!(split_once_chars(&cs("abc"), ','), None);
}

#[test]
fn integers_parse_like_std() {
    for s in ["0", "42", "-7", "+5", "2147483647", "-2147483648", "2147483648", "", "-", "1a", " 1"] {
        assert_eq!(parse_i32(&cs(s)), s.parse::<i32>().ok(), "{:?}", s);
    }
    for s in ["0", "4294967295", "4294967296", "-1", "+3", "", "07"] {
        assert_eq!(parse_u32(&cs(s)), s.parse::<u32>().ok(), "{:?}", s);
    }
}

#[test]
fn integers_are_written_in_decimal() {
    for v in [0i64, 7, -7, 1234567890, i64::MIN, i64::MAX] {
        let mut s = "n=".to_string();
        push_int(&mut s, v);
        assert_eq!(s, format!("n={}", v));
    }
}

#[test]
fn replace_matches_std() {
    assert!(contains_chars(&cs("a{path}b"), &cs("{path}")));
    assert!(!contains_chars(&cs("a{pat}b"), &cs("{path}")));
    assert_eq!(replace_chars(&cs("aXbXX"), &cs("X"), &cs("yy")), cs("ayybyyyy"));
    for (s, p, r) in [("{path}{path}", "{path}", "/x"), ("aaa", "aa", "b"), ("none", "q", "z")] {
        assert_eq!(replace_str(s, p, r), s.replace(p, r));
    }
}

#[test]
fn replacing_an_absent_pattern_changes_nothing() {
    for s in ["Screenshot saved", "", "{pat h}", "path"] {
        assert_eq!(replace_str(s, "{path}", "/tmp/x.png"), s);
    }
}
