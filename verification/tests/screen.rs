use turbofind::display::visible_len;
use turbofind::index::FileEntry;
use turbofind::screen::{
    footer, header, help_footer, help_lines, layout, preview_kind, preview_lines, render_frame,
    render_help, render_preview_line, render_row, render_title, search_line, searching_note,
    short_path, tag, Frame, HeaderInfo, Preview, PreviewKind, ResultRow,
};

fn entry(name: &str, ext: &str, size: u64, is_dir: bool) -> FileEntry {
    FileEntry {
        path: format!("c:\\docs\\{}", name),
        path_lower: format!("c:\\docs\\{}", name.to_lowercase()),
        name: name.to_string(),
        name_lower: name.to_lowercase(),
        size,
        is_dir,
        extension: ext.to_string(),
    }
}

#[test]
fn rows_are_divided() {
    let parts = |rows, count| {
        let l = layout(rows, count);
        (l.result_rows, l.preview_rows)
    };
    assert_eq!(parts(24, 0), (18, 0));
    assert_eq!(parts(24, 5), (10, 7));
    assert_eq!(parts(46, 5), (24, 15));
    assert_eq!(parts(7, 5), (3, 0));
    assert_eq!(parts(0, 0), (0, 0));
    assert_eq!(parts(0, 1), (3, 0));
    assert_eq!(parts(11, 1), (3, 1));
    assert_eq!(parts(65535, 1), (39317, 26211));
}

#[test]
fn the_header_tells_what_was_found() {
    let mut h = HeaderInfo {
        files: 1234,
        text: "",
        count: 0,
        searched: false,
        scroll: 0,
        rows: 10,
        millis: "1.5",
    };
    assert_eq!(header(&h), "  TurboFind | 1234 files indexed");
    h.text = "grep:x";
    assert_eq!(header(&h), "  TurboFind | 1234 files | Press Enter to search");
    h.searched = true;
    assert_eq!(header(&h), "  TurboFind | 1234 files | 0 results in 1.5ms");
    h.text = "x";
    h.count = 10;
    assert_eq!(header(&h), "  TurboFind | 1234 files | 10 results in 1.5ms");
    h.count = 25;
    h.scroll = 15;
    assert_eq!(header(&h), "  TurboFind | 1234 files | 25 results in 1.5ms [16-25/25]");
    h.scroll = 3;
    assert_eq!(header(&h), "  TurboFind | 1234 files | 25 results in 1.5ms [4-13/25]");
}

#[test]
fn the_search_line_keeps_the_cursor_in_view() {
    assert_eq!(
        search_line("", 0, 80),
        "  > Filters: ext:rs dir: in:path regex: grep:term content:term"
    );
    assert_eq!(search_line("abc", 1, 80), "  > a|bc");
    assert_eq!(search_line("abc", 3, 8), "  > abc|");
    assert_eq!(search_line("0123456789", 0, 8), "  > |012");
    assert_eq!(search_line("0123456789", 10, 8), "  > 789|");
    assert_eq!(search_line("0123456789", 5, 8), "  > 34|5");
    assert_eq!(search_line("abc", 1, 2), "  > ");
    for w in 5..30usize {
        for cursor in 0..=10usize {
            assert!(search_line("0123456789", cursor, w).contains('|'), "{} {}", w, cursor);
        }
    }
}

#[test]
fn entries_have_marks() {
    assert_eq!(tag(true, "rs"), "DIR");
    for (ext, mark) in [
        ("rs", "SRC"), ("py", "SRC"), ("js", "SRC"), ("ts", "SRC"), ("c", "SRC"), ("cpp", "SRC"),
        ("java", "SRC"), ("go", "SRC"), ("jpg", "IMG"), ("png", "IMG"), ("gif", "IMG"),
        ("bmp", "IMG"), ("svg", "IMG"), ("webp", "IMG"), ("mp3", "AUD"), ("wav", "AUD"),
        ("flac", "AUD"), ("ogg", "AUD"), ("m4a", "AUD"), ("mp4", "VID"), ("mkv", "VID"),
        ("avi", "VID"), ("mov", "VID"), ("webm", "VID"), ("zip", "ZIP"), ("rar", "ZIP"),
        ("7z", "ZIP"), ("tar", "ZIP"), ("gz", "ZIP"), ("exe", "EXE"), ("msi", "EXE"),
        ("pdf", "PDF"), ("doc", "DOC"), ("docx", "DOC"), ("xls", "XLS"), ("xlsx", "XLS"),
        ("txt", "   "), ("", "   "),
    ] {
        assert_eq!(tag(false, ext), mark, "{}", ext);
    }
}

#[test]
fn folders_are_shortened() {
    let parts = |list: &[&str]| short_path(&list.iter().map(|s| s.to_string()).collect());
    assert_eq!(parts(&["c:", "\\", "users", "me"]), "users\\me");
    assert_eq!(parts(&["a"]), "a");
    assert_eq!(parts(&[]), "");
}

#[test]
fn rows_show_names_and_lines() {
    let e = entry("Main.rs", "rs", 2048, false);
    let row = ResultRow { entry: &e, line_num: 0, line_text: "", folder: "a\\b".to_string() };
    assert_eq!(render_row(&row, true, "main", 30), "\x1b[7m > [SRC] Main.rs  a\\b  2K     \x1b[0m");
    assert_eq!(
        render_row(&row, false, "MAIN", 30),
        "   \x1b[90m[SRC]\x1b[0m \x1b[33m\x1b[1;31mMain\x1b[0;33m.rs\x1b[0m  \x1b[90ma\\b\x1b[0m  2K     "
    );
    assert_eq!(
        render_row(&row, false, "", 12),
        "   \x1b[90m[SRC]\x1b[0m \x1b[33mMai\x1b[0m"
    );
    let hit = ResultRow { entry: &e, line_num: 7, line_text: "a TODO", folder: "f".to_string() };
    assert_eq!(
        render_row(&hit, true, "todo", 32),
        "\x1b[7m > [SRC] Main.rs  f  L7:a TODO  \x1b[0m"
    );
    assert_eq!(
        render_row(&hit, false, "todo", 31),
        "   \x1b[90m[SRC]\x1b[0m \x1b[33mMain.rs\x1b[0m  \x1b[90mf\x1b[0m  \x1b[36mL7\x1b[0m:a \x1b[1;31mTODO\x1b[0m "
    );
    let d = entry("sub", "", 4096, true);
    let dir = ResultRow { entry: &d, line_num: 0, line_text: "", folder: String::new() };
    assert_eq!(render_row(&dir, true, "", 20), "\x1b[7m > [DIR] sub        \x1b[0m");
}

#[test]
fn rows_are_as_wide_as_the_terminal() {
    let e = entry("Größe und \x1b[31mmehr.txt", "txt", 123456789, false);
    for w in 0..60usize {
        for (line_num, line_text) in [(0, ""), (12, "a line of text")] {
            let row = ResultRow { entry: &e, line_num, line_text, folder: "x\\y".to_string() };
            assert_eq!(visible_len(&render_row(&row, false, "e", w)), w);
        }
        assert_eq!(visible_len(&render_title("name", w)), w);
        assert_eq!(visible_len(&render_preview_line("some text", 3, 3, "text", w)), w);
        assert_eq!(visible_len(&render_preview_line("some text", 9, 3, "text", w)), w);
    }
}

#[test]
fn preview_lines_are_numbered_and_styled() {
    assert_eq!(
        render_preview_line("a needle", 12, 12, "NEEDLE", 20),
        "\x1b[1;33m  12\x1b[0m a \x1b[1;4;93mneedle\x1b[0m       "
    );
    assert_eq!(render_preview_line("near", 9, 12, "x", 10), "\x1b[36m   9\x1b[0m near ");
    assert_eq!(render_preview_line("near", 15, 12, "x", 9), "\x1b[36m  15\x1b[0m near\x1b[0m");
    assert_eq!(
        render_preview_line("far", 8, 12, "x", 9),
        "\x1b[90m   8\x1b[0m \x1b[90mfar\x1b[0m "
    );
    assert_eq!(
        render_preview_line("far", 12345, 0, "x", 10),
        "\x1b[90m12345\x1b[0m \x1b[90mfar\x1b[0m "
    );
    assert_eq!(render_title("f.txt", 12), "\u{2500}\u{2500} \x1b[1mf.txt\x1b[0m \u{2500}\u{2500}\u{2500}\x1b[0m");
}

#[test]
fn previews_go_by_the_kind_of_file() {
    let shown = |path, ext, is_dir, text: Option<&str>| {
        preview_lines(&preview_kind(path, ext, is_dir), text.map(|t| t.to_string()))
    };
    assert_eq!(shown("p", "txt", false, Some("a\x07b\nc")), vec!["ab", "c"]);
    assert_eq!(shown("p", "txt", false, None), vec!["(cannot read file)"]);
    assert_eq!(shown("p", "pdf", false, None), vec!["(cannot extract text)"]);
    assert_eq!(shown("p", "pdf", false, Some("x")), vec!["x"]);
    assert_eq!(shown("p", "exe", false, Some("x")), vec!["(binary file)"]);
    assert_eq!(shown("p", "exe", true, Some("x")), vec!["(directory)"]);
    assert_eq!(shown("", "", false, Some("x")), Vec::<String>::new());
    let large = "x".repeat(1_048_577);
    assert_eq!(shown("p", "txt", false, Some(&large)), vec!["(cannot read file)"]);
    assert_eq!(shown("p", "txt", false, Some(&large[1..])).len(), 1);
    assert!(matches!(preview_kind("p", "rtf", false), PreviewKind::Document));
}

#[test]
fn frames_hold_all_their_rows() {
    let e = entry("a.txt", "txt", 5, false);
    let lines: Vec<String> = (1..=20).map(|i| format!("line {}", i)).collect();
    let frame = Frame {
        width: 24,
        header: "head".to_string(),
        search_line: "  > a|".to_string(),
        rows: vec![
            ResultRow { entry: &e, line_num: 0, line_text: "", folder: "x".to_string() },
            ResultRow { entry: &e, line_num: 0, line_text: "", folder: "y".to_string() },
        ],
        selected: Some(1),
        term: "a".to_string(),
        layout: layout(16, 2),
        preview: Some(Preview { name: "a.txt", lines: &lines, highlight: 10 }),
    };
    let out = render_frame(&frame);
    // header, blank line, search line, bars, 6 results, title, 3 lines of preview
    assert_eq!(visible_len(&out), 24 * 14);
    assert!(out.starts_with("head                    "));
    assert!(out.contains(&"\u{2500}".repeat(24)));
    assert!(out.contains("\x1b[7m > [   ] a.txt  y  5B"));
    assert!(out.contains("line 9") && out.contains("line 10") && out.contains("line 11"));
    assert!(!out.contains("line 8") && !out.contains("line 12"));
}

#[test]
fn a_frame_without_results_has_no_preview() {
    let frame = Frame {
        width: 10,
        header: "h".to_string(),
        search_line: "s".to_string(),
        rows: Vec::new(),
        selected: None,
        term: String::new(),
        layout: layout(8, 0),
        preview: None,
    };
    let expected = format!(
        "{:<10}{:<10}{:<10}{}{:<10}{:<10}",
        "h", "", "s", "\u{2500}".repeat(10), "", ""
    );
    assert_eq!(render_frame(&frame), expected);
}

#[test]
fn the_help_is_fitted() {
    assert_eq!(help_lines().len(), 51);
    assert_eq!(render_help(0, 2, 6), "  Turb      ");
    assert_eq!(render_help(50, 2, 14), "    --no-cache              ");
    assert_eq!(help_footer(0, 0, 40), format!("{:<40}", "  Press F1 or Esc to close help"));
    assert_eq!(
        help_footer(4, 31, 52),
        format!("{:<52}", "  F1/Esc:close | Up/Down/PgUp/PgDn:scroll [5/32]")
    );
    assert_eq!(footer(9), "  F1:Help");
}

#[test]
fn a_running_search_says_so() {
    assert_eq!(
        searching_note(5, "200", 60),
        format!("{:<60}", "  Searching.    (200ms) \u{2014} press Esc to cancel")
    );
    assert_eq!(searching_note(4, "0", 15), "  Searching    ");
    assert_eq!(searching_note(3, "0", 15), "  Searching... ");
}
