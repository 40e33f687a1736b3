use turbofind::text::{
    chars_of, contains, ends_with, find_bytes, has_char, is_control, is_whitespace, join, lines,
    push_decimal, replace, starts_with, str_eq, strip_prefix, trim,
};

#[test]
fn character_classes_are_those_of_unicode() {
    for u in 0..=0x10ffffu32 {
        if let Some(c) = char::from_u32(u) {
            assert_eq!(is_control(c), c.is_control(), "{:x}", u);
            assert_eq!(is_whitespace(c), c.is_whitespace(), "{:x}", u);
        }
    }
}

#[test]
fn searching_agrees_with_std() {
    let texts = ["", "a", "aa", "aab", "abab", "größe", "日本語", "a\u{301}"];
    for s in texts {
        for p in texts {
            assert_eq!(contains(s, p), s.contains(p), "{} {}", s, p);
            assert_eq!(starts_with(s, p), s.starts_with(p));
            assert_eq!(ends_with(s, p), s.ends_with(p));
            assert_eq!(strip_prefix(s, p), s.strip_prefix(p));
            assert_eq!(str_eq(s, p), s == p);
            assert_eq!(find_bytes(s.as_bytes(), p.as_bytes()), s.find(p));
            if !p.is_empty() {
                assert_eq!(replace(s, p, "xy"), s.replace(p, "xy"));
            }
        }
    }
}

#[test]
fn lines_and_trim_agree_with_std() {
    for s in ["", "\n", "a", "a\n", "a\r\nb", "a\rb\n\n", "\r", "x\r", " \t a b \u{3000}"] {
        assert_eq!(lines(s), s.lines().collect::<Vec<_>>(), "{:?}", s);
        assert_eq!(trim(s), s.trim(), "{:?}", s);
    }
}

#[test]
fn joining_and_numbers() {
    let parts = vec!["a".to_string(), "".to_string(), "c".to_string()];
    assert_eq!(join(&parts, " "), "a  c");
    assert_eq!(join(&Vec::new(), " "), "");
    for n in [0, 9, 10, 99, 100, u64::MAX] {
        let mut out = String::from("n=");
        push_decimal(&mut out, n);
        assert_eq!(out, format!("n={}", n));
    }
    assert!(has_char("a b", ' ') && !has_char("ab", ' '));
    assert_eq!(chars_of("aé"), vec!['a', 'é']);
}
