use turbofind::editor::SearchLine;
use turbofind::session::{command_for, Action, Command, Key, Modifiers, Session};

const NONE: Modifiers = Modifiers { shift: false, control: false, other: false };
const SHIFT: Modifiers = Modifiers { shift: true, control: false, other: false };
const CTRL: Modifiers = Modifiers { shift: false, control: true, other: false };
const CTRL_SHIFT: Modifiers = Modifiers { shift: true, control: true, other: false };
const ALT: Modifiers = Modifiers { shift: false, control: false, other: true };

fn at(text: &str, cursor: usize) -> SearchLine {
    let mut line = SearchLine::with_text(text);
    line.to_start();
    for _ in 0..cursor {
        line.right();
    }
    line
}

fn state(line: &SearchLine) -> (String, usize) {
    (line.text(), line.cursor())
}

#[test]
fn typing_and_deleting() {
    let mut line = SearchLine::new();
    for c in "héllo".chars() {
        line.insert(c);
    }
    assert_eq!(state(&line), ("héllo".to_string(), 5));
    line.left();
    line.left();
    line.insert('X');
    assert_eq!(state(&line), ("hélXlo".to_string(), 4));
    line.backspace();
    assert_eq!(state(&line), ("héllo".to_string(), 3));
    line.delete();
    assert_eq!(state(&line), ("hélo".to_string(), 3));
    line.to_end();
    line.delete();
    line.right();
    assert_eq!(state(&line), ("hélo".to_string(), 4));
    line.to_start();
    line.backspace();
    line.left();
    assert_eq!(state(&line), ("hélo".to_string(), 0));
    line.clear();
    assert!(line.is_empty());
}

#[test]
fn word_jumps_pass_delimiters() {
    let text = "ext:rs in:\"c:\\my docs\"";
    let mut line = at(text, 0);
    let mut stops = Vec::new();
    while line.cursor() < text.len() {
        line.word_right();
        stops.push(line.cursor());
    }
    assert_eq!(stops, vec![4, 7, 11, 14, 17, 22]);
    let mut back = Vec::new();
    while line.cursor() > 0 {
        line.word_left();
        back.push(line.cursor());
    }
    assert_eq!(back, vec![17, 14, 11, 7, 4, 0]);
}

#[test]
fn deleting_words_removes_what_a_jump_passes() {
    for text in ["ext:rs config", "  a b  ", "in:\"c:\\x y\"", "word", ""] {
        for cursor in 0..=text.chars().count() {
            let chars: Vec<char> = text.chars().collect();
            let mut jump = at(text, cursor);
            jump.word_left();
            let mut cut = at(text, cursor);
            cut.delete_word_before();
            let expected: String =
                chars[..jump.cursor()].iter().chain(&chars[cursor..]).collect();
            assert_eq!(state(&cut), (expected, jump.cursor()));

            let mut jump = at(text, cursor);
            jump.word_right();
            let mut cut = at(text, cursor);
            cut.delete_word_after();
            let expected: String =
                chars[..cursor].iter().chain(&chars[jump.cursor()..]).collect();
            assert_eq!(state(&cut), (expected, cursor));
        }
    }
}

#[test]
fn deleting_to_the_end() {
    let mut line = at("abcdef", 2);
    line.delete_to_end();
    assert_eq!(state(&line), ("ab".to_string(), 2));
}

#[test]
fn backspace_takes_an_insertion_back() {
    let mut line = at("grep:x", 3);
    line.insert('é');
    line.backspace();
    assert_eq!(state(&line), ("grep:x".to_string(), 3));
}

#[test]
fn keys_are_read_with_their_modifiers() {
    let is = |key, m, expected: &str| {
        let name = match command_for(key, m) {
            Command::Nothing => "nothing".to_string(),
            Command::Quit => "quit".to_string(),
            Command::Insert(c) => format!("insert {}", c),
            Command::Backspace => "backspace".to_string(),
            Command::Delete => "delete".to_string(),
            Command::DeleteWordBefore => "word before".to_string(),
            Command::DeleteWordAfter => "word after".to_string(),
            Command::ClearLine => "clear".to_string(),
            Command::DeleteToEnd => "to end".to_string(),
            Command::CursorLeft => "left".to_string(),
            Command::CursorRight => "right".to_string(),
            Command::WordLeft => "word left".to_string(),
            Command::WordRight => "word right".to_string(),
            Command::LineStart => "start".to_string(),
            Command::LineEnd => "end".to_string(),
            Command::SelectPrevious => "previous".to_string(),
            Command::SelectNext => "next".to_string(),
            Command::PageUp => "page up".to_string(),
            Command::PageDown => "page down".to_string(),
            Command::SelectFirst => "first".to_string(),
            Command::SelectLast => "last".to_string(),
            Command::Complete => "complete".to_string(),
            Command::Enter => "enter".to_string(),
            Command::OpenFile => "open".to_string(),
            Command::Benchmark => "benchmark".to_string(),
            Command::Rebuild => "rebuild".to_string(),
            Command::AddPath => "add".to_string(),
            Command::Help => "help".to_string(),
        };
        assert_eq!(name, expected);
    };
    is(Key::Esc, CTRL, "quit");
    is(Key::Char('c'), CTRL, "quit");
    is(Key::Char('c'), NONE, "insert c");
    is(Key::Char('C'), SHIFT, "insert C");
    is(Key::Char('c'), CTRL_SHIFT, "nothing");
    is(Key::Char('x'), ALT, "nothing");
    is(Key::Char('\x07'), NONE, "nothing");
    is(Key::Char('\x7f'), NONE, "word before");
    is(Key::Char('\x7f'), CTRL, "word before");
    is(Key::Backspace, NONE, "backspace");
    is(Key::Backspace, CTRL_SHIFT, "word before");
    is(Key::Backspace, SHIFT, "nothing");
    is(Key::Delete, NONE, "delete");
    is(Key::Delete, CTRL, "word after");
    is(Key::Char('u'), CTRL, "clear");
    is(Key::Char('k'), CTRL, "to end");
    is(Key::Char('o'), CTRL, "open");
    is(Key::Char('b'), CTRL, "benchmark");
    is(Key::Char('r'), CTRL, "rebuild");
    is(Key::Char('n'), CTRL, "add");
    is(Key::Left, NONE, "left");
    is(Key::Left, CTRL, "word left");
    is(Key::Left, SHIFT, "nothing");
    is(Key::Right, NONE, "right");
    is(Key::Right, CTRL, "word right");
    is(Key::Home, NONE, "first");
    is(Key::Home, CTRL, "start");
    is(Key::End, NONE, "last");
    is(Key::End, CTRL, "end");
    is(Key::Up, SHIFT, "previous");
    is(Key::Down, NONE, "next");
    is(Key::PageUp, NONE, "page up");
    is(Key::PageDown, NONE, "page down");
    is(Key::Tab, NONE, "complete");
    is(Key::Enter, NONE, "enter");
    is(Key::F1, NONE, "help");
    is(Key::Other, NONE, "nothing");
}

fn type_text(session: &mut Session, text: &str) -> Action {
    let mut last = Action::Nothing;
    for c in text.chars() {
        last = session.take(Command::Insert(c), 10, None);
    }
    last
}

#[test]
fn names_are_searched_as_they_are_typed() {
    let mut session = Session::new();
    assert!(matches!(type_text(&mut session, "ab"), Action::SearchNames));
    session.names_found(25);
    assert_eq!(session.result_count(), 25);
    assert!(matches!(session.take(Command::Backspace, 10, None), Action::SearchNames));
    assert!(matches!(session.take(Command::Backspace, 10, None), Action::DropNames));
    assert_eq!(session.result_count(), 0);
    assert!(matches!(session.take(Command::Delete, 10, None), Action::DropNames));
}

#[test]
fn contents_are_searched_on_enter() {
    let mut session = Session::new();
    assert!(matches!(type_text(&mut session, "grep"), Action::SearchNames));
    session.names_found(3);
    assert!(matches!(type_text(&mut session, ":"), Action::DropResults));
    assert_eq!(session.result_count(), 0);
    assert!(!session.searched());
    assert!(matches!(session.take(Command::Enter, 10, None), Action::SearchContents));
    session.contents_found(7);
    assert!(session.shows_contents() && session.searched());
    assert_eq!(session.result_count(), 7);
    assert!(matches!(session.take(Command::Enter, 10, None), Action::ShowInFolder));
    session.contents_found(0);
    assert!(matches!(session.take(Command::Enter, 10, None), Action::SearchContents));
    assert!(matches!(type_text(&mut session, "x"), Action::DropResults));
    assert!(!session.shows_contents());
}

#[test]
fn the_selection_stays_in_bounds() {
    let mut session = Session::new();
    type_text(&mut session, "a");
    session.names_found(25);
    let mut go = |command| {
        session.take(command, 10, None);
        session.scroll_to_selected(10);
        assert!(session.selected() < 25);
        assert!(session.scroll() <= session.selected());
        assert!(session.selected() < session.scroll() + 10);
        (session.selected(), session.scroll())
    };
    assert_eq!(go(Command::SelectPrevious), (0, 0));
    assert_eq!(go(Command::SelectNext), (1, 0));
    assert_eq!(go(Command::PageDown), (11, 2));
    assert_eq!(go(Command::PageDown), (21, 12));
    assert_eq!(go(Command::PageDown), (24, 15));
    assert_eq!(go(Command::SelectNext), (24, 15));
    assert_eq!(go(Command::PageUp), (14, 14));
    assert_eq!(go(Command::SelectLast), (24, 15));
    assert_eq!(go(Command::SelectFirst), (0, 0));
    assert_eq!(go(Command::PageUp), (0, 0));
}

#[test]
fn an_empty_list_has_no_last_result() {
    let mut session = Session::new();
    session.take(Command::SelectLast, 10, None);
    session.take(Command::PageDown, 10, None);
    session.take(Command::SelectNext, 10, None);
    assert_eq!(session.selected(), 0);
}

#[test]
fn tab_fills_in_the_path() {
    let mut session = Session::new();
    type_text(&mut session, "in:down budget");
    session.names_found(2);
    assert!(matches!(session.take(Command::Complete, 10, None), Action::Nothing));
    let action = session.take(Command::Complete, 10, Some("c:\\My Docs"));
    assert!(matches!(action, Action::SearchNames));
    assert_eq!(session.text(), "in:\"c:\\My Docs\" budget");
    assert_eq!(session.cursor(), session.text().chars().count());
}

#[test]
fn other_commands_are_passed_on() {
    let mut session = Session::new();
    assert!(matches!(session.take(Command::Quit, 1, None), Action::Quit));
    assert!(matches!(session.take(Command::OpenFile, 1, None), Action::OpenFile));
    assert!(matches!(session.take(Command::Benchmark, 1, None), Action::Benchmark));
    assert!(matches!(session.take(Command::Rebuild, 1, None), Action::Rebuild));
    assert!(matches!(session.take(Command::AddPath, 1, None), Action::AddPath));
    assert!(matches!(session.take(Command::Enter, 1, None), Action::ShowInFolder));
    type_text(&mut session, "abc");
    session.names_found(5);
    session.index_changed();
    assert_eq!((session.text(), session.cursor(), session.result_count()), (String::new(), 0, 0));
}

#[test]
fn the_help_scrolls() {
    let mut session = Session::new();
    session.take(Command::Help, 1, None);
    assert!(session.help());
    let mut go = |key| {
        session.take_help_key(key, 51, 20);
        session.help_scroll()
    };
    assert_eq!(go(Key::Up), 0);
    assert_eq!(go(Key::Down), 1);
    assert_eq!(go(Key::PageDown), 21);
    assert_eq!(go(Key::PageDown), 31);
    assert_eq!(go(Key::Down), 31);
    assert_eq!(go(Key::PageUp), 11);
    assert_eq!(go(Key::PageUp), 0);
    assert_eq!(go(Key::End), 31);
    assert_eq!(go(Key::Home), 0);
    assert_eq!(go(Key::Char('x')), 0);
    assert_eq!(go(Key::End), 31);
    // a larger terminal shows all of it
    session.take_help_key(Key::Other, 51, 60);
    assert_eq!(session.help_scroll(), 0);
    session.take_help_key(Key::Esc, 51, 20);
    assert!(!session.help());
}

#[test]
fn no_edit_moves_the_cursor_off_the_line() {
    for text in ["", "ext:rs config", "é \\\"b"] {
        for cursor in 0..=text.chars().count() {
            let edits: [fn(&mut SearchLine); 12] = [
                |l| l.insert('é'),
                SearchLine::backspace,
                SearchLine::delete,
                SearchLine::delete_word_before,
                SearchLine::delete_word_after,
                SearchLine::delete_to_end,
                SearchLine::left,
                SearchLine::right,
                SearchLine::word_left,
                SearchLine::word_right,
                SearchLine::to_start,
                SearchLine::to_end,
            ];
            for edit in edits {
                let mut line = at(text, cursor);
                edit(&mut line);
                assert!(line.cursor() <= line.text().chars().count());
            }
        }
    }
}
