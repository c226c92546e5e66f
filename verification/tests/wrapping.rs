use llm_chat::text::split_words;
use llm_chat::ui::wrap::{break_long_line, wrap_text};
use unicode_width::UnicodeWidthStr;

#[test]
fn short_text_stays_on_one_line() {
    assert_eq!(wrap_text("hello world", 20), vec!["hello world"]);
}

#[test]
fn words_move_to_the_next_line() {
    assert_eq!(wrap_text("hello world", 5), vec!["hello", "world"]);
    assert_eq!(wrap_text("aaaa bbbb cccc", 9), vec!["aaaa bbbb", "cccc"]);
}

#[test]
fn text_without_words_gives_one_empty_line() {
    assert_eq!(wrap_text("", 10), vec![""]);
    assert_eq!(wrap_text(" \n\t ", 10), vec![""]);
}

#[test]
fn whitespace_runs_become_single_spaces() {
    assert_eq!(wrap_text("a   b\n\nc", 10), vec!["a b c"]);
}

#[test]
fn long_words_are_broken() {
    assert_eq!(wrap_text("abcdefghij", 4), vec!["abcd", "efgh", "ij"]);
    assert_eq!(wrap_text("hi verylongword", 6), vec!["hi", "verylo", "ngword"]);
}

#[test]
fn wide_characters_count_two_columns() {
    assert_eq!(wrap_text("你好世界", 4), vec!["你好", "世界"]);
    assert_eq!(wrap_text("你好 世界", 5), vec!["你好", "世界"]);
}

#[test]
fn breaking_keeps_clusters_whole() {
    assert_eq!(break_long_line("e\u{301}e\u{301}".to_string(), 1), vec!["e\u{301}", "e\u{301}"]);
    assert_eq!(break_long_line("abc".to_string(), 0), vec!["a", "b", "c"]);
    assert_eq!(break_long_line("abcdef".to_string(), 4), vec!["abcd", "ef"]);
    assert_eq!(break_long_line("".to_string(), 4), Vec::<String>::new());
}

#[test]
fn broken_pieces_make_up_the_line() {
    let s = "Ｈｅｌｌｏ, ｗｏｒｌｄ!".to_string();
    let pieces = break_long_line(s.clone(), 5);
    assert_eq!(pieces.concat(), s);
    for p in &pieces {
        assert!(!p.is_empty());
        assert!(UnicodeWidthStr::width(p.as_str()) <= 5 || p.chars().count() == 1, "{:?}", p);
    }
}

#[test]
fn packing_keeps_the_words() {
    let text = "the quick brown fox jumps over the lazy dog";
    // With room for the longest word no line is broken, so the lines are the packed ones.
    for max in [5, 9, 15, 100] {
        let lines = wrap_text(text, max);
        let words = split_words(text);
        let rejoined: Vec<&str> = lines.iter().flat_map(|l| l.split(' ')).collect();
        assert_eq!(rejoined, words.iter().map(|w| w.as_str()).collect::<Vec<_>>());
    }
}

#[test]
fn packed_lines_fit_unless_one_word() {
    let text = "a bb ccc dddd eeeee ffffff";
    for max in [2, 4, 6, 8] {
        for line in wrap_text(text, max) {
            let w = UnicodeWidthStr::width(line.as_str());
            assert!(w <= max || !line.contains(' '), "{:?} at {}", line, max);
        }
    }
}
