use repame::text::{
    parse_byte, push_decimal, str_eq, str_less, strip_prefix, to_lower, to_upper, trim,
};

#[test]
fn names_are_ordered_as_strings_are() {
    let names = ["", "Zed", "a", "ab", "b", "\u{e9}", "\u{1f600}"];
    for a in names {
        for b in names {
            assert_eq!(str_less(a, b), a < b, "{a:?} {b:?}");
            assert_eq!(str_eq(a, b), a == b, "{a:?} {b:?}");
        }
    }
}

#[test]
fn trimming_cuts_white_space_at_the_ends() {
    assert_eq!(trim("  a b\t\n"), "a b");
    assert_eq!(trim("a"), "a");
    assert_eq!(trim(" \u{a0}\u{2003} "), "");
    assert_eq!(trim(""), "");
}

#[test]
fn case_changes_letters_only() {
    for c in 'a'..='z' {
        assert_eq!(to_upper(c), c.to_ascii_uppercase());
        assert_eq!(to_lower(to_upper(c)), c);
    }
    assert_eq!(to_upper('\u{e9}'), '\u{e9}');
    assert_eq!(to_lower('1'), '1');
}

#[test]
fn prefixes_and_numbers() {
    assert_eq!(strip_prefix("Ctrl+a", "Ctrl+"), Some("a"));
    assert_eq!(strip_prefix("Ctrl", "Ctrl+"), None);
    for text in ["0", "12", "255", "256", "+7", "-1", "", "+", "1a", "0012"] {
        assert_eq!(parse_byte(text), text.parse::<u8>().ok(), "{text:?}");
    }
    let mut out = b"n#".to_vec();
    push_decimal(&mut out, 40960);
    assert_eq!(out, b"n#40960".to_vec());
}
