use rustscan::text::{
    blank, chars_of, has_char, is_space, lines_of, same_text, slice_of, split_at, string_of, trim,
};

fn chars(s: &str) -> Vec<char> {
    s.chars().collect()
}

fn texts(rows: Vec<Vec<char>>) -> Vec<String> {
    rows.into_iter().map(|row| row.into_iter().collect()).collect()
}

#[test]
fn characters_and_back() {
    assert_eq!(chars_of("aé\u{1F600}"), vec!['a', 'é', '\u{1F600}']);
    assert_eq!(chars_of(""), Vec::<char>::new());
    assert_eq!(string_of(&chars("aé\u{1F600}")), "aé\u{1F600}");
    assert_eq!(string_of(&vec![]), "");
    assert_eq!(slice_of(&chars("hello"), 1, 3), chars("el"));
    assert_eq!(slice_of(&chars("hello"), 2, 2), chars(""));
}

#[test]
fn character_search_and_equality() {
    assert!(has_char("a/b", '/'));
    assert!(has_char("/", '/'));
    assert!(!has_char("ab", '/'));
    assert!(!has_char("", '/'));
    assert!(same_text("abc", "abc"));
    assert!(!same_text("abc", "abd"));
    assert!(!same_text("abc", "ab"));
    assert!(same_text("", ""));
}

#[test]
fn lines_end_at_line_feeds() {
    assert_eq!(texts(lines_of("")), Vec::<String>::new());
    assert_eq!(texts(lines_of("a")), ["a"]);
    assert_eq!(texts(lines_of("a\n")), ["a"]);
    assert_eq!(texts(lines_of("a\nb")), ["a", "b"]);
    assert_eq!(texts(lines_of("a\r\nb\r\n")), ["a", "b"]);
    assert_eq!(texts(lines_of("\n")), [""]);
    assert_eq!(texts(lines_of("\n\n")), ["", ""]);
    assert_eq!(texts(lines_of("a\n\nb")), ["a", "", "b"]);
    assert_eq!(texts(lines_of("a\rb\r")), ["a\rb\r"]);
    assert_eq!(texts(lines_of("a\r\r\nb")), ["a\r", "b"]);
    assert_eq!(texts(lines_of("\r\n")), [""]);
}

#[test]
fn lines_agree_with_the_standard_library() {
    for text in ["", "a", "a\n", "\n", "a\r\nb\n\nc\r", "\r\n\r\n", "x\ry\n", "é\n\u{2028}\n"] {
        let expected: Vec<String> = text.lines().map(|line| line.to_owned()).collect();
        assert_eq!(texts(lines_of(text)), expected, "{text:?}");
    }
}

#[test]
fn pieces_between_separators() {
    assert_eq!(texts(split_at("", ',')), [""]);
    assert_eq!(texts(split_at("a", ',')), ["a"]);
    assert_eq!(texts(split_at("a,b", ',')), ["a", "b"]);
    assert_eq!(texts(split_at("a,,b,", ',')), ["a", "", "b", ""]);
    assert_eq!(texts(split_at(",", ',')), ["", ""]);
    for text in ["", ",", "8.8.8.8,8.8.4.4", ",a,,b", "a,"] {
        let expected: Vec<String> = text.split(',').map(|piece| piece.to_owned()).collect();
        assert_eq!(texts(split_at(text, ',')), expected, "{text:?}");
    }
}

#[test]
fn trimming() {
    assert_eq!(trim(&chars("  a b \t\r\n")), chars("a b"));
    assert_eq!(trim(&chars("a")), chars("a"));
    assert_eq!(trim(&chars("")), chars(""));
    assert_eq!(trim(&chars(" \u{a0}\u{3000} ")), chars(""));
    assert_eq!(trim(&chars("\u{2003}x\u{85}")), chars("x"));
    assert_eq!(trim(&chars("\u{200b}x")), chars("\u{200b}x"));
}

#[test]
fn white_space_is_what_the_standard_library_says() {
    for n in 0..=0x3100u32 {
        if let Some(c) = char::from_u32(n) {
            assert_eq!(is_space(c), c.is_whitespace(), "{n:#x}");
        }
    }
    assert!(!is_space('\u{feff}'));
    assert!(!is_space('\u{1F600}'));
}

#[test]
fn blank_lines() {
    assert!(blank(&chars("")));
    assert!(blank(&chars(" \t ")));
    assert!(!blank(&chars(" a ")));
}
