//! The session: what keys do to the search line, the selection and the help screen, and when a
//! search runs.
use vstd::prelude::*;

use crate::editor::{
    law_backspace_undoes_insert, law_word_jumps_in_line, next_word, without_range, word_before,
    LineState, SearchLine,
};
use crate::query::{complete_in_filter, completed_query, content_query, is_content_query};
use crate::text::{control, is_control, opt_str};

verus! {

/// A key, without its modifiers.
#[derive(Clone, Copy)]
pub enum Key {
    Esc,
    Enter,
    Tab,
    Backspace,
    Delete,
    Left,
    Right,
    Up,
    Down,
    PageUp,
    PageDown,
    Home,
    End,
    /// The first function key.
    F1,
    Char(char),
    Other,
}

/// The modifiers that were held.
#[derive(Clone, Copy)]
pub struct Modifiers {
    pub shift: bool,
    pub control: bool,
    /// Any other modifier.
    pub other: bool,
}

/// What a key asks for.
#[derive(Clone, Copy)]
pub enum Command {
    Nothing,
    Quit,
    Insert(char),
    Backspace,
    Delete,
    DeleteWordBefore,
    DeleteWordAfter,
    ClearLine,
    DeleteToEnd,
    CursorLeft,
    CursorRight,
    WordLeft,
    WordRight,
    LineStart,
    LineEnd,
    SelectPrevious,
    SelectNext,
    PageUp,
    PageDown,
    SelectFirst,
    SelectLast,
    /// Fill in the `in:` filter with the selected path.
    Complete,
    /// Show the selected file in its folder, or run a search of contents.
    Enter,
    OpenFile,
    Benchmark,
    Rebuild,
    AddPath,
    Help,
}

/// No modifier was held.
pub open spec fn unmodified(m: Modifiers) -> bool {
    !m.shift && !m.control && !m.other
}

/// The control key was held and no other modifier.
pub open spec fn only_control(m: Modifiers) -> bool {
    m.control && !m.shift && !m.other
}

/// What a character key asks for. With the control key, a letter is a command; without it, a
/// character that can be shown is typed. A delete character is what some terminals send for the
/// backspace key with the control key held.
pub open spec fn char_command(c: char, m: Modifiers) -> Command {
    if c == 'c' && only_control(m) {
        Command::Quit
    } else if c == '\x7f' {
        Command::DeleteWordBefore
    } else if c == 'u' && only_control(m) {
        Command::ClearLine
    } else if c == 'k' && only_control(m) {
        Command::DeleteToEnd
    } else if c == 'o' && only_control(m) {
        Command::OpenFile
    } else if c == 'b' && only_control(m) {
        Command::Benchmark
    } else if c == 'r' && only_control(m) {
        Command::Rebuild
    } else if c == 'n' && only_control(m) {
        Command::AddPath
    } else if !m.control && !m.other && !control(c) {
        Command::Insert(c)
    } else {
        Command::Nothing
    }
}

/// The first of two commands where no modifier was held, the second where the control key was.
pub open spec fn either(m: Modifiers, plain: Command, with_control: Command) -> Command {
    if unmodified(m) {
        plain
    } else if m.control {
        with_control
    } else {
        Command::Nothing
    }
}

/// What a key asks for.
pub open spec fn command_of(key: Key, m: Modifiers) -> Command {
    match key {
        Key::Esc => Command::Quit,
        Key::Backspace => either(m, Command::Backspace, Command::DeleteWordBefore),
        Key::Delete => either(m, Command::Delete, Command::DeleteWordAfter),
        Key::Left => either(m, Command::CursorLeft, Command::WordLeft),
        Key::Right => either(m, Command::CursorRight, Command::WordRight),
        Key::Home => either(m, Command::SelectFirst, Command::LineStart),
        Key::End => either(m, Command::SelectLast, Command::LineEnd),
        Key::Up => Command::SelectPrevious,
        Key::Down => Command::SelectNext,
        Key::PageUp => Command::PageUp,
        Key::PageDown => Command::PageDown,
        Key::Tab => Command::Complete,
        Key::Enter => Command::Enter,
        Key::F1 => Command::Help,
        Key::Char(c) => char_command(c, m),
        Key::Other => Command::Nothing,
    }
}

fn command_for_char(c: char, m: Modifiers) -> (r: Command)
    ensures
        r == char_command(c, m),
{
    let ctrl: bool = m.control && !m.shift && !m.other;
    if c == 'c' && ctrl {
        Command::Quit
    } else if c == '\x7f' {
        Command::DeleteWordBefore
    } else if c == 'u' && ctrl {
        Command::ClearLine
    } else if c == 'k' && ctrl {
        Command::DeleteToEnd
    } else if c == 'o' && ctrl {
        Command::OpenFile
    } else if c == 'b' && ctrl {
        Command::Benchmark
    } else if c == 'r' && ctrl {
        Command::Rebuild
    } else if c == 'n' && ctrl {
        Command::AddPath
    } else if !m.control && !m.other && !is_control(c) {
        Command::Insert(c)
    } else {
        Command::Nothing
    }
}

fn either_command(m: Modifiers, plain: Command, with_control: Command) -> (r: Command)
    ensures
        r == either(m, plain, with_control),
{
    if !m.shift && !m.control && !m.other {
        plain
    } else if m.control {
        with_control
    } else {
        Command::Nothing
    }
}

/// What `key` asks for.
pub fn command_for(key: Key, m: Modifiers) -> (r: Command)
    ensures
        r == command_of(key, m),
{
    match key {
        Key::Esc => Command::Quit,
        Key::Backspace => either_command(m, Command::Backspace, Command::DeleteWordBefore),
        Key::Delete => either_command(m, Command::Delete, Command::DeleteWordAfter),
        Key::Left => either_command(m, Command::CursorLeft, Command::WordLeft),
        Key::Right => either_command(m, Command::CursorRight, Command::WordRight),
        Key::Home => either_command(m, Command::SelectFirst, Command::LineStart),
        Key::End => either_command(m, Command::SelectLast, Command::LineEnd),
        Key::Up => Command::SelectPrevious,
        Key::Down => Command::SelectNext,
        Key::PageUp => Command::PageUp,
        Key::PageDown => Command::PageDown,
        Key::Tab => Command::Complete,
        Key::Enter => Command::Enter,
        Key::F1 => Command::Help,
        Key::Char(c) => command_for_char(c, m),
        Key::Other => Command::Nothing,
    }
}

/// What is left to do outside the session once a command has been taken.
#[derive(Clone, Copy)]
pub enum Action {
    Nothing,
    Quit,
    /// Open the selected file.
    OpenFile,
    /// Show the selected file in its folder.
    ShowInFolder,
    Benchmark,
    Rebuild,
    AddPath,
    /// Drop all results: the contents are searched on request only.
    DropResults,
    /// Drop the results of the last search of names: there is nothing to search for.
    DropNames,
    /// Search for the text of the line by name.
    SearchNames,
    /// Search for the text of the line by contents.
    SearchContents,
}

/// The state of a session.
pub struct SessionState {
    pub line: LineState,
    /// The result that is selected, by its number from 0.
    pub selected: int,
    /// The first result that is on the screen.
    pub scroll: int,
    /// How many results the last search of names has.
    pub names: int,
    /// How many results the last search of contents has.
    pub contents: int,
    /// Whether the results of the search of contents are shown.
    pub shows_contents: bool,
    /// Whether the text of the line has been searched for by contents.
    pub searched: bool,
    pub help: bool,
    pub help_scroll: int,
}

/// How many results are shown.
pub open spec fn result_count(s: SessionState) -> int {
    if s.shows_contents {
        s.contents
    } else {
        s.names
    }
}

/// What a session does once the text of its line has changed.
pub open spec fn after_edit(s: SessionState) -> (SessionState, Action) {
    if content_query(s.line.text) {
        (
            SessionState { names: 0, contents: 0, shows_contents: false, searched: false, ..s },
            Action::DropResults,
        )
    } else {
        (
            SessionState {
                selected: 0,
                scroll: 0,
                names: 0,
                shows_contents: false,
                searched: false,
                ..s
            },
            if s.line.text.len() == 0 {
                Action::DropNames
            } else {
                Action::SearchNames
            },
        )
    }
}

/// A session with another line.
pub open spec fn with_line(s: SessionState, line: LineState) -> SessionState {
    SessionState { line, ..s }
}

/// A session with another selection.
pub open spec fn with_selected(s: SessionState, selected: int) -> SessionState {
    SessionState { selected, ..s }
}

/// The last of `count` results, and the first where there is none.
pub open spec fn last_of_results(count: int) -> int {
    if count > 0 {
        count - 1
    } else {
        0
    }
}

/// What a command does to the line.
pub open spec fn edited(line: LineState, command: Command) -> LineState {
    let text = line.text;
    let cursor = line.cursor;
    match command {
        Command::Insert(c) => LineState { text: text.insert(cursor, c), cursor: cursor + 1 },
        Command::Backspace => if cursor > 0 {
            LineState { text: without_range(text, cursor - 1, cursor), cursor: cursor - 1 }
        } else {
            line
        },
        Command::Delete => if cursor < text.len() {
            LineState { text: without_range(text, cursor, cursor + 1), cursor }
        } else {
            line
        },
        Command::DeleteWordBefore => LineState {
            text: without_range(text, word_before(text, cursor), cursor),
            cursor: word_before(text, cursor),
        },
        Command::DeleteWordAfter => LineState {
            text: without_range(text, cursor, next_word(text, cursor)),
            cursor,
        },
        Command::ClearLine => LineState { text: Seq::empty(), cursor: 0 },
        Command::DeleteToEnd => LineState { text: text.take(cursor), cursor },
        Command::CursorLeft => LineState {
            text,
            cursor: if cursor > 0 {
                cursor - 1
            } else {
                0
            },
        },
        Command::CursorRight => LineState {
            text,
            cursor: if cursor < text.len() {
                cursor + 1
            } else {
                cursor
            },
        },
        Command::WordLeft => LineState { text, cursor: word_before(text, cursor) },
        Command::WordRight => LineState { text, cursor: next_word(text, cursor) },
        Command::LineStart => LineState { text, cursor: 0 },
        Command::LineEnd => LineState { text, cursor: text.len() as int },
        _ => line,
    }
}

/// Whether a command edits the text of the line.
pub open spec fn edits(command: Command) -> bool {
    match command {
        Command::Insert(_) => true,
        Command::Backspace => true,
        Command::Delete => true,
        Command::DeleteWordBefore => true,
        Command::DeleteWordAfter => true,
        Command::ClearLine => true,
        Command::DeleteToEnd => true,
        _ => false,
    }
}

/// What a command does to the selection, where `rows` results are on the screen.
pub open spec fn moved(selected: int, count: int, rows: int, command: Command) -> int {
    match command {
        Command::SelectPrevious => if selected > 0 {
            selected - 1
        } else {
            selected
        },
        Command::SelectNext => if selected + 1 < count {
            selected + 1
        } else {
            selected
        },
        Command::PageUp => if selected >= rows {
            selected - rows
        } else {
            0
        },
        Command::PageDown => if selected + rows >= count {
            last_of_results(count)
        } else {
            selected + rows
        },
        Command::SelectFirst => 0,
        Command::SelectLast => last_of_results(count),
        _ => selected,
    }
}

/// What a command does to a session, where `rows` results are on the screen and `path` is that of
/// the selected result.
pub open spec fn after_command(
    s: SessionState,
    command: Command,
    rows: int,
    path: Option<Seq<char>>,
) -> (SessionState, Action) {
    if edits(command) {
        after_edit(with_line(s, edited(s.line, command)))
    } else {
        match command {
            Command::Quit => (s, Action::Quit),
            Command::OpenFile => (s, Action::OpenFile),
            Command::Benchmark => (s, Action::Benchmark),
            Command::Rebuild => (s, Action::Rebuild),
            Command::AddPath => (s, Action::AddPath),
            Command::Help => (SessionState { help: true, ..s }, Action::Nothing),
            Command::Complete => match path {
                Some(p) => {
                    let text = completed_query(s.line.text, p);
                    after_edit(with_line(s, LineState { text, cursor: text.len() as int }))
                },
                None => (s, Action::Nothing),
            },
            Command::Enter => if content_query(s.line.text) && result_count(s) == 0 {
                (s, Action::SearchContents)
            } else {
                (s, Action::ShowInFolder)
            },
            _ => (
                with_selected(
                    with_line(s, edited(s.line, command)),
                    moved(s.selected, result_count(s), rows, command),
                ),
                Action::Nothing,
            ),
        }
    }
}

/// The help screen where it is scrolled to `scroll` of at most `most`.
pub open spec fn help_clamped(scroll: int, most: int) -> int {
    if scroll > most {
        most
    } else {
        scroll
    }
}

/// How far the help can be scrolled.
pub open spec fn most_scroll(lines: int, rows: int) -> int {
    if lines > rows {
        lines - rows
    } else {
        0
    }
}

/// What a key does to a help screen of `lines` lines, `rows` of which are on the screen.
pub open spec fn after_help_key(s: SessionState, key: Key, lines: int, rows: int) -> SessionState {
    let most = most_scroll(lines, rows);
    let at = help_clamped(s.help_scroll, most);
    match key {
        Key::F1 | Key::Esc => SessionState { help: false, help_scroll: 0, ..s },
        Key::Up => SessionState {
            help_scroll: if at > 0 {
                at - 1
            } else {
                at
            },
            ..s
        },
        Key::Down => SessionState {
            help_scroll: if at < most {
                at + 1
            } else {
                at
            },
            ..s
        },
        Key::PageUp => SessionState {
            help_scroll: if at > rows {
                at - rows
            } else {
                0
            },
            ..s
        },
        Key::PageDown => SessionState { help_scroll: help_clamped(at + rows, most), ..s },
        Key::Home => SessionState { help_scroll: 0, ..s },
        Key::End => SessionState { help_scroll: most, ..s },
        _ => SessionState { help_scroll: at, ..s },
    }
}

/// The first result on a screen with `rows` results, so that the selected one is on it.
pub open spec fn scrolled(scroll: int, selected: int, rows: int) -> int {
    if selected < scroll {
        selected
    } else if selected >= scroll + rows {
        selected + 1 - rows
    } else {
        scroll
    }
}

/// A session once a search of names has found `count` results: they are shown from the first on.
pub open spec fn with_names(s: SessionState, count: int) -> SessionState {
    SessionState {
        names: count,
        selected: 0,
        scroll: 0,
        shows_contents: false,
        searched: false,
        ..s
    }
}

/// A session once a search of contents has found `count` results: they are shown from the first on.
pub open spec fn with_contents(s: SessionState, count: int) -> SessionState {
    SessionState {
        contents: count,
        selected: 0,
        scroll: 0,
        shows_contents: true,
        searched: true,
        ..s
    }
}

/// A session once the index is another one.
pub open spec fn with_new_index(s: SessionState) -> SessionState {
    SessionState {
        line: LineState { text: Seq::empty(), cursor: 0 },
        names: 0,
        selected: 0,
        scroll: 0,
        ..s
    }
}

/// The interactive session.
pub struct Session {
    line: SearchLine,
    selected: usize,
    scroll: usize,
    names: usize,
    contents: usize,
    shows_contents: bool,
    searched: bool,
    help: bool,
    help_scroll: usize,
}

impl View for Session {
    type V = SessionState;

    closed spec fn view(&self) -> SessionState {
        SessionState {
            line: self.line@,
            selected: self.selected as int,
            scroll: self.scroll as int,
            names: self.names as int,
            contents: self.contents as int,
            shows_contents: self.shows_contents,
            searched: self.searched,
            help: self.help,
            help_scroll: self.help_scroll as int,
        }
    }
}

/// A session that has just begun.
pub open spec fn new_session() -> SessionState {
    SessionState {
        line: LineState { text: Seq::empty(), cursor: 0 },
        selected: 0,
        scroll: 0,
        names: 0,
        contents: 0,
        shows_contents: false,
        searched: false,
        help: false,
        help_scroll: 0,
    }
}

impl Session {
    /// A session that has just begun.
    pub fn new() -> (r: Session)
        ensures
            r@ == new_session(),
    {
        Session {
            line: SearchLine::new(),
            selected: 0,
            scroll: 0,
            names: 0,
            contents: 0,
            shows_contents: false,
            searched: false,
            help: false,
            help_scroll: 0,
        }
    }

    /// The text of the search line.
    pub fn text(&self) -> (r: String)
        ensures
            r@ == self@.line.text,
    {
        self.line.text()
    }

    /// The cursor on the search line.
    pub fn cursor(&self) -> (r: usize)
        ensures
            r == self@.line.cursor,
            0 <= r <= self@.line.text.len(),
    {
        self.line.cursor()
    }

    /// The result that is selected.
    pub fn selected(&self) -> (r: usize)
        ensures
            r == self@.selected,
    {
        self.selected
    }

    /// The first result on the screen.
    pub fn scroll(&self) -> (r: usize)
        ensures
            r == self@.scroll,
    {
        self.scroll
    }

    /// How many results are shown.
    pub fn result_count(&self) -> (r: usize)
        ensures
            r == result_count(self@),
    {
        if self.shows_contents {
            self.contents
        } else {
            self.names
        }
    }

    /// Whether the results of the search of contents are shown.
    pub fn shows_contents(&self) -> (r: bool)
        ensures
            r == self@.shows_contents,
    {
        self.shows_contents
    }

    /// Whether the text of the line has been searched for by contents.
    pub fn searched(&self) -> (r: bool)
        ensures
            r == self@.searched,
    {
        self.searched
    }

    /// Whether the help is shown.
    pub fn help(&self) -> (r: bool)
        ensures
            r == self@.help,
    {
        self.help
    }

    /// How far the help is scrolled.
    pub fn help_scroll(&self) -> (r: usize)
        ensures
            r == self@.help_scroll,
    {
        self.help_scroll
    }

    /// Drops what no longer answers the text of the line, and says what to search for.
    fn line_changed(&mut self) -> (r: Action)
        ensures
            (final(self)@, r) == after_edit(old(self)@),
    {
        let text: String = self.line.text();
        if is_content_query(text.as_str()) {
            self.names = 0;
            self.contents = 0;
            self.shows_contents = false;
            self.searched = false;
            Action::DropResults
        } else {
            self.selected = 0;
            self.scroll = 0;
            self.names = 0;
            self.shows_contents = false;
            self.searched = false;
            if self.line.is_empty() {
                Action::DropNames
            } else {
                Action::SearchNames
            }
        }
    }

    /// Does what a command does to the line.
    fn edit_line(&mut self, command: Command)
        requires
            old(self)@.line.text.len() < usize::MAX,
        ensures
            final(self)@ == with_line(old(self)@, edited(old(self)@.line, command)),
    {
        match command {
            Command::Insert(c) => self.line.insert(c),
            Command::Backspace => self.line.backspace(),
            Command::Delete => self.line.delete(),
            Command::DeleteWordBefore => self.line.delete_word_before(),
            Command::DeleteWordAfter => self.line.delete_word_after(),
            Command::ClearLine => self.line.clear(),
            Command::DeleteToEnd => self.line.delete_to_end(),
            Command::CursorLeft => self.line.left(),
            Command::CursorRight => self.line.right(),
            Command::WordLeft => self.line.word_left(),
            Command::WordRight => self.line.word_right(),
            Command::LineStart => self.line.to_start(),
            Command::LineEnd => self.line.to_end(),
            _ => {},
        }
    }

    /// Does what a command does to the selection.
    fn move_selection(&mut self, command: Command, rows: usize)
        ensures
            final(self)@ == with_selected(
                old(self)@,
                moved(old(self)@.selected, result_count(old(self)@), rows as int, command),
            ),
    {
        let count: usize = self.result_count();
        let last: usize = if count > 0 {
            count - 1
        } else {
            0
        };
        match command {
            Command::SelectPrevious => {
                if self.selected > 0 {
                    self.selected = self.selected - 1;
                }
            },
            Command::SelectNext => {
                if count > 0 && self.selected < last {
                    self.selected = self.selected + 1;
                }
            },
            Command::PageUp => {
                if self.selected >= rows {
                    self.selected = self.selected - rows;
                } else {
                    self.selected = 0;
                }
            },
            Command::PageDown => {
                if self.selected < count && rows < count - self.selected {
                    self.selected = self.selected + rows;
                } else {
                    self.selected = last;
                }
            },
            Command::SelectFirst => {
                self.selected = 0;
            },
            Command::SelectLast => {
                self.selected = last;
            },
            _ => {},
        }
    }

    /// Takes a command, where `rows` results are on the screen and `path` is that of the selected
    /// result, and says what is left to do.
    pub fn take(&mut self, command: Command, rows: usize, path: Option<&str>) -> (r: Action)
        requires
            old(self)@.line.text.len() < usize::MAX,
        ensures
            (final(self)@, r) == after_command(
                old(self)@,
                command,
                rows as int,
                opt_str(path),
            ),
    {
        match command {
            Command::Insert(_)
            | Command::Backspace
            | Command::Delete
            | Command::DeleteWordBefore
            | Command::DeleteWordAfter
            | Command::ClearLine
            | Command::DeleteToEnd => {
                self.edit_line(command);
                self.line_changed()
            },
            Command::Quit => Action::Quit,
            Command::OpenFile => Action::OpenFile,
            Command::Benchmark => Action::Benchmark,
            Command::Rebuild => Action::Rebuild,
            Command::AddPath => Action::AddPath,
            Command::Help => {
                self.help = true;
                Action::Nothing
            },
            Command::Complete => match path {
                Some(p) => {
                    let text: String = complete_in_filter(self.line.text().as_str(), p);
                    self.line = SearchLine::with_text(text.as_str());
                    self.line_changed()
                },
                None => Action::Nothing,
            },
            Command::Enter => {
                if is_content_query(self.line.text().as_str()) && self.result_count() == 0 {
                    Action::SearchContents
                } else {
                    Action::ShowInFolder
                }
            },
            _ => {
                self.edit_line(command);
                self.move_selection(command, rows);
                Action::Nothing
            },
        }
    }

    /// A search of names found `count` results.
    pub fn names_found(&mut self, count: usize)
        ensures
            final(self)@ == with_names(old(self)@, count as int),
    {
        self.names = count;
        self.selected = 0;
        self.scroll = 0;
        self.shows_contents = false;
        self.searched = false;
    }

    /// A search of contents found `count` results. One that was cancelled changes nothing.
    pub fn contents_found(&mut self, count: usize)
        ensures
            final(self)@ == with_contents(old(self)@, count as int),
    {
        self.contents = count;
        self.selected = 0;
        self.scroll = 0;
        self.shows_contents = true;
        self.searched = true;
    }

    /// The index was rebuilt or has grown: begins with an empty line.
    pub fn index_changed(&mut self)
        ensures
            final(self)@ == with_new_index(old(self)@),
    {
        self.line.clear();
        self.names = 0;
        self.selected = 0;
        self.scroll = 0;
    }

    /// Scrolls so that the selected result is among the `rows` results on the screen.
    pub fn scroll_to_selected(&mut self, rows: usize)
        requires
            old(self)@.selected < usize::MAX,
        ensures
            final(self)@ == (SessionState {
                scroll: scrolled(old(self)@.scroll, old(self)@.selected, rows as int),
                ..old(self)@
            }),
    {
        if self.selected < self.scroll {
            self.scroll = self.selected;
        } else if self.selected - self.scroll >= rows {
            self.scroll = self.selected + 1 - rows;
        }
    }

    /// Takes a key while the help is shown, which has `lines` lines with `rows` of them on the
    /// screen.
    pub fn take_help_key(&mut self, key: Key, lines: usize, rows: usize)
        ensures
            final(self)@ == after_help_key(old(self)@, key, lines as int, rows as int),
    {
        let most: usize = if lines > rows {
            lines - rows
        } else {
            0
        };
        if self.help_scroll > most {
            self.help_scroll = most;
        }
        match key {
            Key::F1 | Key::Esc => {
                self.help = false;
                self.help_scroll = 0;
            },
            Key::Up => {
                if self.help_scroll > 0 {
                    self.help_scroll = self.help_scroll - 1;
                }
            },
            Key::Down => {
                if self.help_scroll < most {
                    self.help_scroll = self.help_scroll + 1;
                }
            },
            Key::PageUp => {
                if self.help_scroll > rows {
                    self.help_scroll = self.help_scroll - rows;
                } else {
                    self.help_scroll = 0;
                }
            },
            Key::PageDown => {
                if rows < most - self.help_scroll {
                    self.help_scroll = self.help_scroll + rows;
                } else {
                    self.help_scroll = most;
                }
            },
            Key::Home => {
                self.help_scroll = 0;
            },
            Key::End => {
                self.help_scroll = most;
            },
            _ => {},
        }
    }
}

/// The selected result is one of those that are shown, where there are any.
pub open spec fn selection_in_bounds(s: SessionState) -> bool {
    &&& 0 <= s.selected
    &&& 0 <= s.names
    &&& 0 <= s.contents
    &&& result_count(s) > 0 ==> s.selected < result_count(s)
}

/// No command moves the selection out of the results, and neither do finished searches or a
/// changed index.
pub proof fn law_selection_stays_in_bounds(
    s: SessionState,
    command: Command,
    rows: int,
    path: Option<Seq<char>>,
    count: int,
)
    requires
        selection_in_bounds(s),
        rows >= 0,
        count >= 0,
    ensures
        selection_in_bounds(new_session()),
        selection_in_bounds(after_command(s, command, rows, path).0),
        selection_in_bounds(
            (SessionState {
                names: count,
                selected: 0,
                scroll: 0,
                shows_contents: false,
                searched: false,
                ..s
            }),
        ),
        selection_in_bounds(
            (SessionState {
                contents: count,
                selected: 0,
                scroll: 0,
                shows_contents: true,
                searched: true,
                ..s
            }),
        ),
        selection_in_bounds(
            (SessionState {
                line: LineState { text: Seq::empty(), cursor: 0 },
                names: 0,
                selected: 0,
                scroll: 0,
                ..s
            }),
        ),
{
}

/// After scrolling, the selected result is on the screen, where that has room for any.
pub proof fn law_selected_is_on_screen(scroll: int, selected: int, rows: int)
    requires
        rows > 0,
        scroll >= 0,
        selected >= 0,
    ensures
        0 <= scrolled(scroll, selected, rows) <= selected < scrolled(scroll, selected, rows) + rows,
{
}

/// A search of contents never runs while its query is typed: a command that edits the line drops
/// the results instead, and only the enter key runs it.
pub proof fn law_contents_searched_on_request(
    s: SessionState,
    command: Command,
    rows: int,
    path: Option<Seq<char>>,
)
    ensures
        after_command(s, command, rows, path).1 == Action::SearchContents ==> command
            == Command::Enter && content_query(s.line.text),
        edits(command) && content_query(edited(s.line, command).text) ==> {
            let (t, action) = after_command(s, command, rows, path);
            action == Action::DropResults && result_count(t) == 0
        },
        after_command(s, command, rows, path).1 == Action::SearchNames ==> !content_query(
            after_command(s, command, rows, path).0.line.text,
        ),
{
}

/// The help screen is never scrolled past its end.
pub proof fn law_help_scroll_in_bounds(s: SessionState, key: Key, lines: int, rows: int)
    requires
        0 <= s.help_scroll,
        0 <= lines,
        0 <= rows,
    ensures
        0 <= after_help_key(s, key, lines, rows).help_scroll <= most_scroll(lines, rows),
{
}

/// No command moves the cursor off the line.
pub proof fn law_cursor_stays_on_line(line: LineState, command: Command)
    requires
        0 <= line.cursor <= line.text.len(),
    ensures
        0 <= edited(line, command).cursor <= edited(line, command).text.len(),
{
    law_word_jumps_in_line(line.text, line.cursor);
}

/// Deleting a word deletes what a jump over it passes: the cursor ends where the jump back ends,
/// and what was between is gone.
pub proof fn law_deleting_words_follows_jumps(line: LineState)
    requires
        0 <= line.cursor <= line.text.len(),
    ensures
        edited(line, Command::DeleteWordBefore) == (LineState {
            text: without_range(
                line.text,
                edited(line, Command::WordLeft).cursor,
                line.cursor,
            ),
            cursor: edited(line, Command::WordLeft).cursor,
        }),
        edited(line, Command::DeleteWordAfter) == (LineState {
            text: without_range(
                line.text,
                line.cursor,
                edited(line, Command::WordRight).cursor,
            ),
            cursor: line.cursor,
        }),
{
}

/// The backspace key takes back a character that was typed.
pub proof fn law_backspace_takes_back(line: LineState, c: char)
    requires
        0 <= line.cursor <= line.text.len(),
    ensures
        edited(edited(line, Command::Insert(c)), Command::Backspace) == line,
{
    law_backspace_undoes_insert(line.text, line.cursor, c);
}

} // verus!
