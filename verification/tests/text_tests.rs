use dmvop::text::{decimal_string, replace_str, split_str, str_eq, trim_str};

#[test]
fn decimal_numerals() {
    assert_eq!(decimal_string(0), "0");
    assert_eq!(decimal_string(5117), "5117");
    assert_eq!(decimal_string(u32::MAX), "4294967295");
}

#[test]
fn trim_matches_std() {
    for s in ["", "  a b  ", "\u{3000}x\u{85}", "\u{200B}y", "\t\n\r\u{0B}\u{0C}z \u{1680}"] {
        assert_eq!(trim_str(s), s.trim(), "{:?}", s);
    }
}

#[test]
fn split_matches_std() {
    for s in ["", "a", "a,b", ",", "a,,b,"] {
        let ours: Vec<&str> = split_str(s, ',');
        let theirs: Vec<&str> = s.split(',').collect();
        assert_eq!(ours, theirs);
    }
}

#[test]
fn replace_matches_std() {
    for (s, f, t) in [("aaa", "aa", "b"), ("%{x}%{x}", "%{x}", "yy"), ("abc", "d", "e"), ("", "a", "b")] {
        assert_eq!(replace_str(s, f, t), s.replace(f, t));
    }
}

#[test]
fn equal_strings() {
    assert!(str_eq("拼音", "拼音"));
    assert!(!str_eq("a", "ab"));
    assert!(!str_eq("ab", "ac"));
}
