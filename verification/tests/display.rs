use turbofind::display::{
    fit, fit_styled, highlight_term, is_safe_terminal_char, mark_term, sanitize_terminal_text,
    split_around, visible_len,
};

#[test]
fn test_fit_truncates() {
    let s = "hello world";
    let result = fit(s, 5);
    assert_eq!(result, "hello");
}

#[test]
fn test_fit_pads() {
    let s = "hi";
    let result = fit(s, 5);
    assert_eq!(result, "hi   ");
}

#[test]
fn test_fit_exact() {
    let s = "exact";
    let result = fit(s, 5);
    assert_eq!(result, "exact");
}

#[test]
fn test_fit_unicode() {
    let s = "héllo wörld";
    let result = fit(s, 5);
    assert_eq!(result.chars().count(), 5);
}

#[test]
fn test_sanitize_terminal_text_removes_line_separators() {
    let s = "ok\u{2028}next\u{2029}last\x1b[31m";
    let out = sanitize_terminal_text(s);
    assert_eq!(out, "oknextlast[31m");
    assert!(!out.chars().any(|c| c.is_control()));
}

#[test]
fn test_sanitize_terminal_text_removes_bidi_and_zero_width() {
    let s = "ab\u{202E}cd\u{200B}ef\u{2066}gh\u{2069}";
    let out = sanitize_terminal_text(s);
    assert_eq!(out, "abcdefgh");
}

#[test]
fn test_sanitize_terminal_text_preserves_non_english() {
    let s = "cafe\u{0301} 你好 Привет العربية";
    let out = sanitize_terminal_text(s);
    assert_eq!(out, s);
}

#[test]
fn test_visible_len() {
    assert_eq!(visible_len("hello"), 5);
    assert_eq!(visible_len("\x1b[33mhello\x1b[0m"), 5);
    assert_eq!(visible_len("\x1b[1;31mhi\x1b[0m there"), 8);
    assert_eq!(visible_len(""), 0);
    assert_eq!(visible_len("\x1b[7m\x1b[0m"), 0);
}

#[test]
fn test_fit_styled_truncates() {
    let s = "\x1b[33mhello world\x1b[0m";
    let result = fit_styled(s, 5);
    assert_eq!(visible_len(&result), 5);
    assert!(result.contains("\x1b[0m"));
}

#[test]
fn test_fit_styled_pads() {
    let s = "\x1b[33mhi\x1b[0m";
    let result = fit_styled(s, 10);
    assert_eq!(visible_len(&result), 10);
}

#[test]
fn test_highlight_term_found() {
    let result = highlight_term("Hello World", "world");
    assert!(result.contains("\x1b[1;31m"));
    assert!(result.contains("World"));
    assert!(result.contains("\x1b[0m"));
}

#[test]
fn test_highlight_term_not_found() {
    let result = highlight_term("Hello World", "xyz");
    assert_eq!(result, "Hello World");
}

#[test]
fn test_highlight_term_empty() {
    let result = highlight_term("Hello", "");
    assert_eq!(result, "Hello");
}

#[test]
fn highlighting_marks_the_first_occurrence() {
    assert_eq!(highlight_term("ab AB", "Ab"), "\x1b[1;31mab\x1b[0m AB");
    assert_eq!(mark_term("x Ärger", "ÄRGER", "<", ">"), "x <Ärger>");
    assert_eq!(mark_term("ab", "b", "[", "]"), "a[b]");
}

#[test]
fn highlighting_marks_the_term_itself() {
    // the lowercase form of the first letter is longer than the letter
    assert_eq!(highlight_term("\u{130}world!", "world"), "\u{130}\x1b[1;31mworld\x1b[0m!");
    assert_eq!(mark_term("\u{130}x", "X", "<", ">"), "\u{130}<x>");
    assert_eq!(mark_term("a\u{130}b", "i\u{307}B", "<", ">"), "a<\u{130}b>");
    assert_eq!(mark_term("\u{130}", "i", "<", ">"), "\u{130}");
    // a kelvin sign is a k
    assert_eq!(mark_term("5 \u{212a}", "k", "<", ">"), "5 <\u{212a}>");
    assert_eq!(mark_term("ΟΔΟΣ ος", "οδος", "<", ">"), "<ΟΔΟΣ> ος");
    let p = split_around("xAbé", "aB").unwrap();
    assert_eq!((p.before.as_str(), p.matched.as_str(), p.after.as_str()), ("x", "Ab", "é"));
    assert!(split_around("éa", "aa").is_none());
}

#[test]
fn cutting_keeps_sequences_and_resets() {
    assert_eq!(fit_styled("\x1b[33mhello\x1b[0m!", 5), "\x1b[33mhello\x1b[0m\x1b[0m");
    assert_eq!(fit_styled("\x1b[33mhi\x1b[0m", 4), "\x1b[33mhi\x1b[0m  ");
    assert_eq!(fit_styled("", 0), "\x1b[0m");
    // a short text that ends within a sequence swallows what fills it
    assert_eq!(visible_len(&fit_styled("ab\x1b[", 5)), 2);
}

#[test]
fn fit_handles_the_ends() {
    assert_eq!(fit("abc", 0), "");
    assert_eq!(fit("", 3), "   ");
    assert_eq!(fit("日本語", 2), "日本");
}

#[test]
fn safe_chars_are_those_of_the_ranges() {
    let mut unsafe_count = 0;
    for u in 0..=0x10ffffu32 {
        if let Some(c) = char::from_u32(u) {
            let expected = !(c.is_control()
                || matches!(c, '\u{2028}' | '\u{2029}')
                || matches!(c,
                    '\u{200B}'..='\u{200F}'
                    | '\u{202A}'..='\u{202E}'
                    | '\u{2060}'..='\u{2064}'
                    | '\u{2066}'..='\u{2069}'
                    | '\u{FEFF}')
                || (0xFDD0..=0xFDEF).contains(&u)
                || (u & 0xFFFE == 0xFFFE));
            assert_eq!(is_safe_terminal_char(c), expected, "{:x}", u);
            if !expected {
                unsafe_count += 1;
            }
        }
    }
    assert!(unsafe_count > 60);
}

#[test]
fn sanitizing_twice_changes_nothing() {
    let once = sanitize_terminal_text("a\x07b\u{feff}c\u{fdd0}\u{1fffe}d");
    assert_eq!(once, "abcd");
    assert_eq!(sanitize_terminal_text(&once), once);
}

#[test]
fn highlighting_keeps_what_is_read() {
    let marked = highlight_term("find the Needle here", "needle");
    assert_eq!(visible_len(&marked), "find the Needle here".len());
    assert_eq!(marked, "find the \x1b[1;31mNeedle\x1b[0m here");
}
