use labworks::text::{chars_lt, chars_of, parse_u32, split_lines, trimmed, uppercase};

#[test]
fn split_lines_handles_crlf_and_final_newline() {
    assert_eq!(split_lines("a\r\nb\n\nc\n"), vec!["a", "b", "", "c"]);
    assert_eq!(split_lines(""), Vec::<String>::new());
    assert_eq!(split_lines("x\ry"), vec!["x\ry"]);
    assert_eq!(split_lines("last\r"), vec!["last\r"]);
    assert_eq!(split_lines("\n"), vec![""]);
}

#[test]
fn split_lines_agrees_with_std() {
    for s in ["one\ntwo", "a\r\n\r\nb", "\r\n", "trailing\n\n", "no newline", " \n \r\n"] {
        let expected: Vec<String> = s.lines().map(|l| l.to_string()).collect();
        assert_eq!(split_lines(s), expected);
    }
}

#[test]
fn trimmed_removes_unicode_white_space() {
    assert_eq!(trimmed("  work \t"), "work");
    assert_eq!(trimmed("\u{3000}tag\u{a0}"), "tag");
    assert_eq!(trimmed("   "), "");
    assert_eq!(trimmed("a b"), "a b");
    for s in ["\u{85}x\u{2029}", "\u{200b}x", "\n\u{1680} y \u{205f}"] {
        assert_eq!(trimmed(s), s.trim());
    }
}

#[test]
fn parse_u32_matches_std() {
    for s in ["0", "+5", "+", "", "4294967295", "4294967296", "12a", "-1", "007", " 1", "99999999999999999999"] {
        assert_eq!(parse_u32(s), s.parse::<u32>().ok(), "input {:?}", s);
    }
}

#[test]
fn chars_lt_is_code_point_order() {
    let pairs = [("a", "b"), ("ab", "a"), ("", "a"), ("a", "a"), ("Z", "a"), ("é", "z"), ("abc", "abd")];
    for (a, b) in pairs {
        assert_eq!(chars_lt(&chars_of(a), &chars_of(b)), a < b, "{:?} {:?}", a, b);
    }
}

#[test]
fn uppercase_maps_letters() {
    assert_eq!(uppercase("Json"), "JSON");
    assert_eq!(uppercase("sqlite"), "SQLITE");
}

#[test]
fn uppercase_of_ascii_changes_only_letters() {
    assert_eq!(uppercase("a-z_09:Q"), "A-Z_09:Q");
    assert_eq!(uppercase(""), "");
}
