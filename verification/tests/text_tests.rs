use chatroom::text::{chars_of, is_whitespace, join_from, split_by_char, starts_with, trim, trim_ascii};

const SAMPLES: [&str; 12] = [
    "",
    "   ",
    "hello",
    "  hello  ",
    "\t\nhello world\r\n",
    "\u{3000}wide\u{a0}",
    "\u{b}vertical tab\u{b}",
    "\u{c}form feed\u{c}",
    "a  b   c",
    "\u{2028}\u{2029}x\u{205f}",
    "\u{85}next line\u{1680}",
    "keep\u{200b}zero width",
];

#[test]
fn trim_matches_std_trim() {
    for s in SAMPLES {
        assert_eq!(trim(s), s.trim(), "on {:?}", s);
    }
}

#[test]
fn trim_ascii_matches_std_trim_ascii() {
    for s in SAMPLES {
        assert_eq!(trim_ascii(s), s.trim_ascii(), "on {:?}", s);
    }
}

#[test]
fn trim_ascii_keeps_vertical_tab_and_unicode_space() {
    assert_eq!(trim_ascii("\u{b}x\u{b}"), "\u{b}x\u{b}");
    assert_eq!(trim_ascii("\u{3000}x "), "\u{3000}x");
    assert_eq!(trim("\u{b}x\u{3000}"), "x");
}

#[test]
fn is_whitespace_matches_std() {
    for code in 0u32..0x3100 {
        if let Some(c) = char::from_u32(code) {
            assert_eq!(is_whitespace(c), c.is_whitespace(), "on U+{:04X}", code);
        }
    }
}

#[test]
fn trim_twice_is_trim_once() {
    for s in SAMPLES {
        let once = trim(s);
        assert_eq!(trim(&once), once);
    }
}

#[test]
fn chars_of_lists_the_characters() {
    assert_eq!(chars_of("aé\u{3000}z"), vec!['a', 'é', '\u{3000}', 'z']);
    assert_eq!(chars_of(""), Vec::<char>::new());
}

#[test]
fn starts_with_tests_prefixes() {
    assert!(starts_with("quit now", "quit"));
    assert!(starts_with("quit", "quit"));
    assert!(!starts_with("qui", "quit"));
    assert!(!starts_with("quiet", "quit"));
    assert!(starts_with("anything", ""));
}

#[test]
fn split_matches_std_split() {
    for s in SAMPLES {
        let ours = split_by_char(s, ' ');
        let theirs: Vec<String> = s.split(' ').map(|p| p.to_string()).collect();
        assert_eq!(ours, theirs, "on {:?}", s);
    }
}

#[test]
fn split_keeps_empty_pieces() {
    assert_eq!(split_by_char("/w  bob", ' '), vec!["/w", "", "bob"]);
    assert_eq!(split_by_char("", ' '), vec![""]);
    assert_eq!(split_by_char(" ", ' '), vec!["", ""]);
}

#[test]
fn join_from_matches_std_join() {
    let parts: Vec<String> = vec!["/w".into(), "bob".into(), "hello".into(), "".into(), "there".into()];
    assert_eq!(join_from(&parts, 2, " "), parts[2..].join(" "));
    assert_eq!(join_from(&parts, 0, "\n"), parts.join("\n"));
    assert_eq!(join_from(&parts, 5, " "), "");
}

#[test]
fn split_then_join_gives_the_text_back() {
    for s in SAMPLES {
        let parts = split_by_char(s, ' ');
        assert_eq!(join_from(&parts, 0, " "), s);
    }
}
