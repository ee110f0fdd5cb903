use take_ur_meds::text::{
    blank, char_is_whitespace, chars_of, find, replace_each, same_text, take_lines, trim,
};

fn std_lines(text: &str, n: usize) -> String {
    text.lines().take(n).collect::<Vec<_>>().join("\n")
}

#[test]
fn whitespace_agrees_with_std_on_every_char() {
    let mut c = 0u32;
    while c <= 0x10FFFF {
        if let Some(ch) = char::from_u32(c) {
            assert_eq!(char_is_whitespace(ch), ch.is_whitespace(), "U+{:04X}", c);
        }
        c += 1;
    }
}

#[test]
fn chars_of_lists_every_char() {
    assert_eq!(chars_of("a\u{e9}z"), vec!['a', '\u{e9}', 'z']);
    assert_eq!(chars_of(""), Vec::<char>::new());
}

#[test]
fn trim_removes_both_ends() {
    assert_eq!(trim("  \t hello world \n\r "), "hello world");
    assert_eq!(trim("hello"), "hello");
    assert_eq!(trim(" \u{3000}\u{a0}x\u{2003}"), "x");
    assert_eq!(trim("   "), "");
    assert_eq!(trim(""), "");
}

#[test]
fn trim_agrees_with_std() {
    for s in ["", " ", "a", " a", "a ", " a b ", "\n\na\n\n", "\u{85}a\u{1680}", "\ta\u{feff}"] {
        assert_eq!(trim(s), s.trim(), "{:?}", s);
    }
}

#[test]
fn blank_texts() {
    assert!(blank(""));
    assert!(blank(" \t\r\n"));
    assert!(blank("\u{2028}\u{2029}"));
    assert!(!blank(" x "));
    assert!(!blank("\u{200b}"));
}

#[test]
fn find_gives_the_first_place() {
    assert_eq!(find("abcabc", "bc"), Some(1));
    assert_eq!(find("abcabc", "abc"), Some(0));
    assert_eq!(find("abcabc", "cab"), Some(2));
    assert_eq!(find("abcabc", "abcabc"), Some(0));
    assert_eq!(find("abcabc", "abcabcd"), None);
    assert_eq!(find("abcabc", "x"), None);
    assert_eq!(find("abc", ""), Some(0));
    assert_eq!(find("", ""), Some(0));
    assert_eq!(find("", "a"), None);
    assert_eq!(find("aaab", "aab"), Some(1));
}

#[test]
fn find_counts_characters() {
    assert_eq!(find("\u{e9}\u{e9}x", "x"), Some(2));
    assert_eq!("\u{e9}\u{e9}x".find("x"), Some(4));
}

#[test]
fn same_text_compares_characters() {
    assert!(same_text("abc", "abc"));
    assert!(same_text("", ""));
    assert!(!same_text("abc", "abd"));
    assert!(!same_text("abc", "ab"));
}

#[test]
fn take_lines_joins_with_line_feeds() {
    assert_eq!(take_lines("a\nb\nc", 2), "a\nb");
    assert_eq!(take_lines("a\nb\nc", 3), "a\nb\nc");
    assert_eq!(take_lines("a\nb\nc", 9), "a\nb\nc");
    assert_eq!(take_lines("a\nb\nc\n", 9), "a\nb\nc");
    assert_eq!(take_lines("a\r\nb\r\n", 9), "a\nb");
    assert_eq!(take_lines("a\n\nb", 9), "a\n\nb");
    assert_eq!(take_lines("\n", 9), "");
    assert_eq!(take_lines("\n\n", 9), "\n");
    assert_eq!(take_lines("a\r", 9), "a\r");
    assert_eq!(take_lines("a\r\r\n", 9), "a\r");
    assert_eq!(take_lines("", 9), "");
    assert_eq!(take_lines("a\nb", 0), "");
    assert_eq!(take_lines("a\nb", 1), "a");
}

#[test]
fn take_lines_agrees_with_std() {
    let samples = [
        "",
        "\n",
        "\r\n",
        "\r",
        "a",
        "a\n",
        "a\r\n",
        "a\rb\n",
        "a\n\r\nb\r",
        "one\ntwo\r\nthree\n\nfive\n",
        "\n\n\n",
        "x\r\r\n\ny",
    ];
    for s in samples {
        for n in 0..7 {
            assert_eq!(take_lines(s, n), std_lines(s, n), "{:?} {}", s, n);
        }
    }
}

#[test]
fn replace_each_replaces_from_the_left() {
    assert_eq!(replace_each("a\n\n\nb", "\n\n\n", "\n\n"), "a\n\nb");
    assert_eq!(replace_each("a\n\n\n\nb", "\n\n\n", "\n\n"), "a\n\n\nb");
    assert_eq!(replace_each("a\n\n\n\n\n\nb", "\n\n\n", "\n\n"), "a\n\n\n\nb");
    assert_eq!(replace_each("aaaa", "aa", "b"), "bb");
    assert_eq!(replace_each("aaa", "aa", "b"), "ba");
    assert_eq!(replace_each("abc", "x", "y"), "abc");
    assert_eq!(replace_each("", "x", "y"), "");
    assert_eq!(replace_each("abc", "", "y"), "abc");
    assert_eq!(replace_each("abcabc", "bc", ""), "aa");
}

#[test]
fn replace_each_agrees_with_std() {
    for s in ["", "\n\n\n", "a\n\n\n\n\n\n\nb", "\n\n", "x\n\n\ny\n\n\n"] {
        assert_eq!(replace_each(s, "\n\n\n", "\n\n"), s.replace("\n\n\n", "\n\n"), "{:?}", s);
    }
}
