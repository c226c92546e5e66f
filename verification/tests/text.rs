use llm_chat::text::{blank, chars_of, is_whitespace, split_lines, split_words, string_from_chars, trim_bounds};

fn lines_of(s: &str) -> Vec<String> {
    let cs = chars_of(s);
    split_lines(&cs).into_iter().map(|l| l.into_iter().collect()).collect()
}

#[test]
fn whitespace_matches_std() {
    for c in ['\t', '\n', '\r', ' ', '\u{85}', '\u{a0}', '\u{2003}', '\u{3000}', 'a', '.', '\u{200b}', '好'] {
        assert_eq!(is_whitespace(c), c.is_whitespace(), "{:?}", c);
    }
}

#[test]
fn blank_lines() {
    assert!(blank(""));
    assert!(blank(" \t\n"));
    assert!(blank("\u{3000}"));
    assert!(!blank("  x "));
}

#[test]
fn words_are_split_on_whitespace_runs() {
    assert_eq!(split_words("  hello \t world\n"), vec!["hello", "world"]);
    assert_eq!(split_words(""), Vec::<String>::new());
    assert_eq!(split_words("   "), Vec::<String>::new());
    assert_eq!(split_words("a\u{3000}b"), vec!["a", "b"]);
    let s = " one  two three ";
    let std_words: Vec<&str> = s.split_whitespace().collect();
    assert_eq!(split_words(s), std_words);
}

#[test]
fn lines_match_std_lines() {
    for s in ["a\nb", "a\r\nb\r\n", "", "\n", "x\r", "a\n\nb\n", "data: 1\r\ndata: 2"] {
        let std_lines: Vec<&str> = s.lines().collect();
        assert_eq!(lines_of(s), std_lines, "{:?}", s);
    }
}

#[test]
fn trim_bounds_match_std_trim() {
    for s in ["  data: x \r", "", "   ", "abc", "\u{a0}a b\u{2003}"] {
        let cs = chars_of(s);
        let (a, b) = trim_bounds(&cs, 0, cs.len());
        assert_eq!(string_from_chars(&cs, a, b), s.trim(), "{:?}", s);
    }
}
