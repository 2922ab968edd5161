use hermes::text::{
    decimal_string, find_char_str, parse_u16_str, signed_decimal_string, split_once_str,
    split_str, str_equal, trim_str,
};

#[test]
fn trim_matches_std() {
    for text in ["", "  a b  ", "\u{a0}x\u{2003}", "\r\n", "x"] {
        assert_eq!(trim_str(text), text.trim());
    }
}

#[test]
fn split_matches_std() {
    for text in ["", ",", "a,b,,c", "a"] {
        let ours = split_str(text, ',');
        let std: Vec<&str> = text.split(',').collect();
        assert_eq!(ours, std);
    }
}

#[test]
fn split_once_and_find() {
    assert_eq!(split_once_str("1-2-3", '-'), Some(("1", "2-3")));
    assert_eq!(split_once_str("12", '-'), None);
    assert_eq!(find_char_str("ab\0c", '\0'), Some(2));
}

#[test]
fn parse_matches_std() {
    for text in ["", "+", "-", "+5", "-5", "00080", "65535", "65536", "1 ", "٣", "++1"] {
        assert_eq!(parse_u16_str(text), text.parse::<u16>().ok(), "{text:?}");
    }
}

#[test]
fn decimal_matches_display() {
    for n in [0u64, 7, 10, 1234567890, u64::MAX] {
        assert_eq!(decimal_string(n), n.to_string());
    }
    for n in [0i64, -1, 42, i64::MIN, i64::MAX] {
        assert_eq!(signed_decimal_string(n), n.to_string());
    }
}

#[test]
fn equal_text() {
    assert!(str_equal("status", "status"));
    assert!(!str_equal("status", "statu"));
    assert!(!str_equal("a", "b"));
}
