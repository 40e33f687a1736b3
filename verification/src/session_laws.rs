//! What keys do to the search line, to the selection and to the results.
use vstd::prelude::*;

use crate::editor::{delimiter, last_of, next_of, without_range, LineState};
use crate::query::{completed_query, content_query, content_word_at};
use crate::session::{
    after_command, after_help_key, command_of, edited, result_count, scrolled, with_contents,
    with_names, with_new_index, Action, Command, Key, Modifiers, SessionState,
};
use crate::text::{control, whitespace};

verus! {

/// The search line with the cursor between two texts.
pub open spec fn line_at(before: Seq<char>, behind: Seq<char>) -> LineState {
    LineState { text: before + behind, cursor: before.len() as int }
}

/// What is typed goes in at the cursor, and the cursor moves behind it.
pub proof fn law_typing(before: Seq<char>, behind: Seq<char>, c: char)
    ensures
        edited(line_at(before, behind), Command::Insert(c)) == line_at(before.push(c), behind),
{
    assert((before + behind).insert(before.len() as int, c) =~= before.push(c) + behind);
}

/// The backspace key deletes the character before the cursor, the delete key the one behind it; at
/// the start and at the end of the line there is none. The line is cleared as a whole or from the
/// cursor on.
pub proof fn law_deleting(before: Seq<char>, behind: Seq<char>)
    ensures
        before.len() > 0 ==> edited(line_at(before, behind), Command::Backspace) == line_at(
            before.drop_last(),
            behind,
        ),
        before.len() == 0 ==> edited(line_at(before, behind), Command::Backspace) == line_at(
            before,
            behind,
        ),
        behind.len() > 0 ==> edited(line_at(before, behind), Command::Delete) == line_at(
            before,
            behind.drop_first(),
        ),
        behind.len() == 0 ==> edited(line_at(before, behind), Command::Delete) == line_at(
            before,
            behind,
        ),
        edited(line_at(before, behind), Command::ClearLine) == line_at(Seq::empty(), Seq::empty()),
        edited(line_at(before, behind), Command::DeleteToEnd) == line_at(before, Seq::empty()),
{
    let text = before + behind;
    let n = before.len() as int;
    let none = Seq::<char>::empty();
    if n > 0 {
        assert(without_range(text, n - 1, n) =~= before.drop_last() + behind);
    }
    if behind.len() > 0 {
        assert(without_range(text, n, n + 1) =~= before + behind.drop_first());
    }
    assert(none + none =~= none);
    assert(text.take(n) =~= before + none);
}

/// The cursor moves by one character, or to the start or the end of the line, and the text stays.
pub proof fn law_moving_the_cursor(before: Seq<char>, behind: Seq<char>)
    ensures
        ({
            let line = line_at(before, behind);
            let n = before.len() as int;
            &&& edited(line, Command::CursorLeft) == (LineState {
                cursor: if n > 0 {
                    n - 1
                } else {
                    0
                },
                ..line
            })
            &&& edited(line, Command::CursorRight) == (LineState {
                cursor: if behind.len() > 0 {
                    n + 1
                } else {
                    n
                },
                ..line
            })
            &&& edited(line, Command::LineStart) == (LineState { cursor: 0, ..line })
            &&& edited(line, Command::LineEnd) == (LineState {
                cursor: n + behind.len(),
                ..line
            })
        }),
{
}

proof fn lemma_last_of(text: Seq<char>, p: int, q: int, wanted: bool)
    requires
        0 <= q <= p <= text.len(),
        forall|k: int| q <= k < p ==> delimiter(#[trigger] text[k]) != wanted,
        q > 0 ==> delimiter(text[q - 1]) == wanted,
    ensures
        last_of(text, p, wanted) == q,
    decreases p,
{
    if q < p {
        assert(delimiter(text[p - 1]) != wanted);
        lemma_last_of(text, p - 1, q, wanted);
    }
}

proof fn lemma_next_of(text: Seq<char>, p: int, q: int, wanted: bool)
    requires
        0 <= p <= q <= text.len(),
        forall|k: int| p <= k < q ==> delimiter(#[trigger] text[k]) != wanted,
        q < text.len() ==> delimiter(text[q]) == wanted,
    ensures
        next_of(text, p, wanted) == q,
    decreases text.len() - p,
{
    if p < q {
        assert(delimiter(text[p]) != wanted);
        lemma_next_of(text, p + 1, q, wanted);
    }
}

/// A jump back goes to the start of the word before the cursor, over the spaces, colons, backslashes
/// and quotes between, and deleting that word deletes what is jumped over.
pub proof fn law_jumping_back(
    front: Seq<char>,
    word: Seq<char>,
    parting: Seq<char>,
    behind: Seq<char>,
)
    requires
        word.len() > 0,
        front.len() > 0 ==> (front.last() == ' ' || front.last() == ':' || front.last() == '\\'
            || front.last() == '"'),
        forall|i: int|
            0 <= i < word.len() ==> {
                let c = #[trigger] word[i];
                c != ' ' && c != ':' && c != '\\' && c != '"'
            },
        forall|i: int|
            0 <= i < parting.len() ==> {
                let c = #[trigger] parting[i];
                c == ' ' || c == ':' || c == '\\' || c == '"'
            },
    ensures
        ({
            let line = line_at(front + word + parting, behind);
            &&& edited(line, Command::WordLeft) == (LineState {
                cursor: front.len() as int,
                ..line
            })
            &&& edited(line, Command::DeleteWordBefore) == line_at(front, behind)
        }),
{
    let before = front + word + parting;
    let line = line_at(before, behind);
    let text = line.text;
    let a = front.len() as int;
    let b = a + word.len();
    let p = before.len() as int;
    assert forall|k: int| b <= k < p implies delimiter(#[trigger] text[k]) != false by {
        assert(text[k] == parting[k - b]);
    }
    assert(text[b - 1] == word[word.len() - 1]);
    lemma_last_of(text, p, b, false);
    assert forall|k: int| a <= k < b implies delimiter(#[trigger] text[k]) != true by {
        assert(text[k] == word[k - a]);
    }
    if a > 0 {
        assert(text[a - 1] == front[a - 1]);
    }
    lemma_last_of(text, b, a, true);
    assert(without_range(text, a, p) =~= front + behind);
}

/// A jump on goes over the rest of the word behind the cursor and what parts it from the next one,
/// to the start of that, and deleting a word on deletes what is jumped over.
pub proof fn law_jumping_on(
    before: Seq<char>,
    word: Seq<char>,
    parting: Seq<char>,
    rest: Seq<char>,
)
    requires
        parting.len() > 0 || rest.len() == 0,
        rest.len() > 0 ==> rest[0] != ' ' && rest[0] != ':' && rest[0] != '\\' && rest[0] != '"',
        forall|i: int|
            0 <= i < word.len() ==> {
                let c = #[trigger] word[i];
                c != ' ' && c != ':' && c != '\\' && c != '"'
            },
        forall|i: int|
            0 <= i < parting.len() ==> {
                let c = #[trigger] parting[i];
                c == ' ' || c == ':' || c == '\\' || c == '"'
            },
    ensures
        ({
            let line = line_at(before, word + parting + rest);
            &&& edited(line, Command::WordRight) == (LineState {
                cursor: (before.len() + word.len() + parting.len()) as int,
                ..line
            })
            &&& edited(line, Command::DeleteWordAfter) == line_at(before, rest)
        }),
{
    let line = line_at(before, word + parting + rest);
    let text = line.text;
    let p = before.len() as int;
    let b = p + word.len();
    let c = b + parting.len();
    assert forall|k: int| p <= k < b implies delimiter(#[trigger] text[k]) != true by {
        assert(text[k] == word[k - p]);
    }
    if b < text.len() {
        assert(text[b] == parting[0]);
    }
    lemma_next_of(text, p, b, true);
    assert forall|k: int| b <= k < c implies delimiter(#[trigger] text[k]) != false by {
        assert(text[k] == parting[k - b]);
    }
    if c < text.len() {
        assert(text[c] == rest[0]);
    }
    lemma_next_of(text, b, c, false);
    assert(without_range(text, p, c) =~= before + rest);
}

/// The selection moves by one result or by a page, or to the first or the last result, and stops at
/// both ends. All else stays as it was.
pub proof fn law_moving_the_selection(s: SessionState, rows: int, path: Option<Seq<char>>)
    requires
        rows >= 0,
    ensures
        ({
            let count = if s.shows_contents {
                s.contents
            } else {
                s.names
            };
            0 <= s.selected < count ==> {
                let to = |selected: int| (SessionState { selected, ..s }, Action::Nothing);
                &&& after_command(s, Command::SelectPrevious, rows, path) == to(
                    if s.selected == 0 {
                        0
                    } else {
                        s.selected - 1
                    },
                )
                &&& after_command(s, Command::SelectNext, rows, path) == to(
                    if s.selected == count - 1 {
                        count - 1
                    } else {
                        s.selected + 1
                    },
                )
                &&& after_command(s, Command::PageUp, rows, path) == to(
                    if s.selected <= rows {
                        0
                    } else {
                        s.selected - rows
                    },
                )
                &&& after_command(s, Command::PageDown, rows, path) == to(
                    if s.selected + rows >= count - 1 {
                        count - 1
                    } else {
                        s.selected + rows
                    },
                )
                &&& after_command(s, Command::SelectFirst, rows, path) == to(0)
                &&& after_command(s, Command::SelectLast, rows, path) == to(count - 1)
            }
        }),
{
}

/// A command that changes the text searches for the new text by name at once, with the first result
/// selected; an empty text drops the results, and a search of contents waits for the enter key.
pub proof fn law_editing_searches(
    s: SessionState,
    command: Command,
    rows: int,
    path: Option<Seq<char>>,
)
    requires
        match command {
            Command::Insert(_) => true,
            Command::Backspace => true,
            Command::Delete => true,
            Command::DeleteWordBefore => true,
            Command::DeleteWordAfter => true,
            Command::ClearLine => true,
            Command::DeleteToEnd => true,
            _ => false,
        },
    ensures
        ({
            let (t, action) = after_command(s, command, rows, path);
            &&& t.line == edited(s.line, command)
            &&& t.help == s.help && t.help_scroll == s.help_scroll
            &&& !t.shows_contents && !t.searched && t.names == 0
            &&& if content_query(t.line.text) {
                t.contents == 0 && t.selected == s.selected && t.scroll == s.scroll && action
                    == Action::DropResults
            } else {
                t.contents == s.contents && t.selected == 0 && t.scroll == 0 && action == (
                if t.line.text.len() == 0 {
                    Action::DropNames
                } else {
                    Action::SearchNames
                })
            }
        }),
{
}

/// Moving the cursor changes nothing but where it stands.
pub proof fn law_moving_searches_nothing(
    s: SessionState,
    command: Command,
    rows: int,
    path: Option<Seq<char>>,
)
    requires
        match command {
            Command::CursorLeft => true,
            Command::CursorRight => true,
            Command::WordLeft => true,
            Command::WordRight => true,
            Command::LineStart => true,
            Command::LineEnd => true,
            _ => false,
        },
    ensures
        after_command(s, command, rows, path) == (
            SessionState { line: edited(s.line, command), ..s },
            Action::Nothing,
        ),
        edited(s.line, command).text == s.line.text,
{
}

/// The enter key runs a search of contents that has found nothing yet, and shows the selected file
/// otherwise; the other commands are handed on. None of them changes the session, but for the help.
pub proof fn law_commands_are_handed_on(s: SessionState, rows: int, path: Option<Seq<char>>)
    ensures
        ({
            let count = if s.shows_contents {
                s.contents
            } else {
                s.names
            };
            &&& after_command(s, Command::Enter, rows, path) == (
                s,
                if content_query(s.line.text) && count == 0 {
                    Action::SearchContents
                } else {
                    Action::ShowInFolder
                },
            )
            &&& after_command(s, Command::Quit, rows, path) == (s, Action::Quit)
            &&& after_command(s, Command::OpenFile, rows, path) == (s, Action::OpenFile)
            &&& after_command(s, Command::Benchmark, rows, path) == (s, Action::Benchmark)
            &&& after_command(s, Command::Rebuild, rows, path) == (s, Action::Rebuild)
            &&& after_command(s, Command::AddPath, rows, path) == (s, Action::AddPath)
            &&& after_command(s, Command::Nothing, rows, path) == (s, Action::Nothing)
            &&& after_command(s, Command::Help, rows, path) == (
                SessionState { help: true, ..s },
                Action::Nothing,
            )
            &&& after_command(s, Command::Complete, rows, None) == (s, Action::Nothing)
        }),
{
}

/// Completing fills in the `in:` filter with the path of the selected result, puts the cursor at the
/// end, and searches as typing does.
pub proof fn law_completing_searches(s: SessionState, rows: int, path: Seq<char>)
    ensures
        ({
            let (t, action) = after_command(s, Command::Complete, rows, Some(path));
            let text = completed_query(s.line.text, path);
            &&& t.line == (LineState { text, cursor: text.len() as int })
            &&& !t.shows_contents && !t.searched && t.names == 0
            &&& if content_query(text) {
                t.contents == 0 && action == Action::DropResults
            } else {
                t.selected == 0 && t.scroll == 0 && action == (if text.len() == 0 {
                    Action::DropNames
                } else {
                    Action::SearchNames
                })
            }
        }),
{
}

/// Every character that is no control character is typed, whether the shift key is held or not; with
/// the control key or another modifier none is.
pub proof fn law_characters_are_typed(c: char, m: Modifiers)
    ensures
        !control(c) && !m.control && !m.other ==> command_of(Key::Char(c), m) == Command::Insert(c),
        m.control || m.other || control(c) ==> !(command_of(Key::Char(c), m) is Insert),
{
}

/// What the keys are for.
pub proof fn law_keys(m: Modifiers)
    ensures
        command_of(Key::Esc, m) == Command::Quit,
        command_of(Key::Enter, m) == Command::Enter,
        command_of(Key::Tab, m) == Command::Complete,
        command_of(Key::Up, m) == Command::SelectPrevious,
        command_of(Key::Down, m) == Command::SelectNext,
        command_of(Key::PageUp, m) == Command::PageUp,
        command_of(Key::PageDown, m) == Command::PageDown,
        command_of(Key::F1, m) == Command::Help,
        !m.shift && !m.control && !m.other ==> {
            &&& command_of(Key::Backspace, m) == Command::Backspace
            &&& command_of(Key::Delete, m) == Command::Delete
            &&& command_of(Key::Left, m) == Command::CursorLeft
            &&& command_of(Key::Right, m) == Command::CursorRight
            &&& command_of(Key::Home, m) == Command::SelectFirst
            &&& command_of(Key::End, m) == Command::SelectLast
        },
        m.control ==> {
            &&& command_of(Key::Backspace, m) == Command::DeleteWordBefore
            &&& command_of(Key::Delete, m) == Command::DeleteWordAfter
            &&& command_of(Key::Left, m) == Command::WordLeft
            &&& command_of(Key::Right, m) == Command::WordRight
            &&& command_of(Key::Home, m) == Command::LineStart
            &&& command_of(Key::End, m) == Command::LineEnd
        },
        m.control && !m.shift && !m.other ==> {
            &&& command_of(Key::Char('c'), m) == Command::Quit
            &&& command_of(Key::Char('u'), m) == Command::ClearLine
            &&& command_of(Key::Char('k'), m) == Command::DeleteToEnd
            &&& command_of(Key::Char('o'), m) == Command::OpenFile
            &&& command_of(Key::Char('b'), m) == Command::Benchmark
            &&& command_of(Key::Char('r'), m) == Command::Rebuild
            &&& command_of(Key::Char('n'), m) == Command::AddPath
        },
        command_of(Key::Char('\x7f'), m) == Command::DeleteWordBefore,
{
}

/// Scrolling moves no further than it has to: not at all where the selected result is on the screen,
/// and otherwise so that it becomes the first or the last one on it.
pub proof fn law_scrolling_moves_least(scroll: int, selected: int, rows: int)
    requires
        rows > 0,
    ensures
        scroll <= selected < scroll + rows ==> scrolled(scroll, selected, rows) == scroll,
        selected < scroll ==> scrolled(scroll, selected, rows) == selected,
        selected >= scroll + rows ==> scrolled(scroll, selected, rows) + rows - 1 == selected,
{
}

/// In the help, the arrow keys scroll by a line and the page keys by a page, as far as there is
/// something to scroll to; both ends can be jumped to, and the keys that close it begin anew. What is
/// not the help stays as it was.
pub proof fn law_scrolling_the_help(s: SessionState, lines: int, rows: int)
    requires
        0 <= s.help_scroll,
        0 <= rows,
        s.help_scroll + rows <= lines,
    ensures
        ({
            let to = |help_scroll: int| SessionState { help_scroll, ..s };
            let at = s.help_scroll;
            let most = lines - rows;
            &&& after_help_key(s, Key::Up, lines, rows) == to(
                if at == 0 {
                    0
                } else {
                    at - 1
                },
            )
            &&& after_help_key(s, Key::Down, lines, rows) == to(
                if at == most {
                    most
                } else {
                    at + 1
                },
            )
            &&& after_help_key(s, Key::PageUp, lines, rows) == to(
                if at <= rows {
                    0
                } else {
                    at - rows
                },
            )
            &&& after_help_key(s, Key::PageDown, lines, rows) == to(
                if at + rows >= most {
                    most
                } else {
                    at + rows
                },
            )
            &&& after_help_key(s, Key::Home, lines, rows) == to(0)
            &&& after_help_key(s, Key::End, lines, rows) == to(most)
            &&& after_help_key(s, Key::Esc, lines, rows) == (SessionState {
                help: false,
                help_scroll: 0,
                ..s
            })
            &&& after_help_key(s, Key::F1, lines, rows) == after_help_key(
                s,
                Key::Esc,
                lines,
                rows,
            )
            &&& after_help_key(s, Key::Other, lines, rows) == s
        }),
{
}

/// A query is one for contents exactly where one of its words, parted by white space, begins with
/// `grep:` or `content:`.
pub proof fn law_content_queries(query: Seq<char>)
    ensures
        content_query(query) <==> exists|a: Seq<char>, name: Seq<char>, b: Seq<char>|
            {
                &&& query == #[trigger] (a + name + b)
                &&& name == "grep:"@ || name == "content:"@
                &&& a.len() == 0 || whitespace(a.last())
            },
{
    if content_query(query) {
        let at = choose|at: int| content_word_at(query, at);
        let a = query.take(at);
        let rest = query.skip(at);
        let name = if "grep:"@.is_prefix_of(rest) {
            "grep:"@
        } else {
            "content:"@
        };
        let b = rest.skip(name.len() as int);
        assert(rest =~= name + b);
        assert(query =~= a + name + b);
        if at > 0 {
            assert(a.last() == query[at - 1]);
        }
    }
    if exists|a: Seq<char>, name: Seq<char>, b: Seq<char>|
        {
            &&& query == #[trigger] (a + name + b)
            &&& name == "grep:"@ || name == "content:"@
            &&& a.len() == 0 || whitespace(a.last())
        } {
        let (a, name, b) = choose|a: Seq<char>, name: Seq<char>, b: Seq<char>|
            {
                &&& query == #[trigger] (a + name + b)
                &&& name == "grep:"@ || name == "content:"@
                &&& a.len() == 0 || whitespace(a.last())
            };
        let at = a.len() as int;
        assert(query.skip(at) =~= name + b);
        assert(query.skip(at).take(name.len() as int) =~= name);
        assert(content_word_at(query, at));
    }
}

/// The results of a finished search are the ones that are shown, with the first one selected and on
/// the screen, and nothing that was typed is lost; a search of contents that has run, found or not,
/// does not ask to be run. A new index begins with an empty line and no names.
pub proof fn law_finished_searches_are_shown(s: SessionState, count: int)
    ensures
        ({
            let t = with_names(s, count);
            &&& result_count(t) == count && !t.shows_contents && !t.searched
            &&& t.selected == 0 && t.scroll == 0 && t.line == s.line && t.help == s.help
        }),
        ({
            let t = with_contents(s, count);
            &&& result_count(t) == count && t.shows_contents && t.searched
            &&& t.selected == 0 && t.scroll == 0 && t.line == s.line && t.help == s.help
            &&& t.names == s.names
        }),
        ({
            let t = with_new_index(s);
            &&& t.line.text.len() == 0 && t.line.cursor == 0 && t.names == 0
            &&& t.selected == 0 && t.scroll == 0
            &&& t.shows_contents == s.shows_contents && t.contents == s.contents
        }),
{
}

} // verus!
