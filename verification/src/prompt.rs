//! The prompt for a path: typing, and completing names.
use vstd::prelude::*;
use vstd::string::*;

use crate::session::Key;
use crate::text::{
    copy_of, decimal, lowercase, opt_view, push_decimal, starts_with, to_lowercase, trim, trimmed,
};

verus! {

/// What a key does at the prompt.
#[derive(Clone, Copy, PartialEq, Eq, Structural)]
pub enum PromptStep {
    Nothing,
    /// The line is to be drawn anew.
    Redraw,
    /// The name is to be completed.
    Complete,
    Accept,
    Cancel,
}

/// What a key does to the text of the prompt, and what is left to do.
pub open spec fn after_prompt_key(text: Seq<char>, key: Key) -> (Seq<char>, PromptStep) {
    match key {
        Key::Esc => (text, PromptStep::Cancel),
        Key::Enter => (text, PromptStep::Accept),
        Key::Tab => (text, PromptStep::Complete),
        Key::Backspace => if text.len() > 0 {
            (text.drop_last(), PromptStep::Redraw)
        } else {
            (text, PromptStep::Nothing)
        },
        Key::Char(c) => (text.push(c), PromptStep::Redraw),
        _ => (text, PromptStep::Nothing),
    }
}

/// Takes a key at the prompt.
pub fn take_prompt_key(text: &mut Vec<char>, key: Key) -> (r: PromptStep)
    ensures
        (final(text)@, r) == after_prompt_key(old(text)@, key),
{
    match key {
        Key::Esc => PromptStep::Cancel,
        Key::Enter => PromptStep::Accept,
        Key::Tab => PromptStep::Complete,
        Key::Backspace => {
            if text.pop().is_some() {
                PromptStep::Redraw
            } else {
                PromptStep::Nothing
            }
        },
        Key::Char(c) => {
            text.push(c);
            PromptStep::Redraw
        },
        _ => PromptStep::Nothing,
    }
}

/// The path that was typed, and none where there is nothing but white space.
pub open spec fn typed_path(text: Seq<char>) -> Option<Seq<char>> {
    if trimmed(text).len() == 0 {
        None
    } else {
        Some(trimmed(text))
    }
}

/// The path that was typed.
pub fn path_typed(text: &str) -> (r: Option<String>)
    ensures
        opt_view(r) == typed_path(text@),
{
    let path: String = trim(text);
    if path.as_str().is_empty() {
        None
    } else {
        Some(path)
    }
}

/// Whether a name in a directory completes a prefix, given in lowercase.
pub open spec fn completes(name: Seq<char>, prefix: Seq<char>) -> bool {
    prefix.is_prefix_of(lowercase(name))
}

/// Whether `name` completes `prefix`, given in lowercase.
pub fn name_completes(name: &str, prefix: &str) -> (r: bool)
    ensures
        r == completes(name@, prefix@),
{
    starts_with(to_lowercase(name).as_str(), prefix)
}

/// Every name completes the empty prefix.
pub proof fn law_empty_prefix_completes(name: Seq<char>)
    ensures
        completes(name, Seq::empty()),
{
    assert(lowercase(name).take(0) =~= Seq::<char>::empty());
}

/// A file or directory that completes what was typed.
pub struct PathMatch {
    pub path: String,
    pub name: String,
    pub is_dir: bool,
}

/// What a match is shown as.
pub open spec fn match_label(m: PathMatch) -> Seq<char> {
    "  "@ + m.name@ + if m.is_dir {
        "\\"@
    } else {
        Seq::empty()
    }
}

/// How many matches are shown.
pub const SHOWN_MATCHES: usize = 15;

/// The first `n` matches, four on a line.
pub open spec fn match_list(matches: Seq<PathMatch>, n: int) -> Seq<char>
    decreases n,
{
    if n <= 0 {
        Seq::empty()
    } else {
        match_list(matches, n - 1) + (if n > 1 && (n - 1) % 4 == 0 {
            "\r\n"@
        } else {
            Seq::empty()
        }) + match_label(matches[n - 1])
    }
}

/// The list of several matches, with the prompt behind it.
pub open spec fn matches_text(matches: Seq<PathMatch>, typed: Seq<char>) -> Seq<char> {
    let n = matches.len();
    "\r\n"@ + (if n > SHOWN_MATCHES {
        match_list(matches, SHOWN_MATCHES as int) + "  ...("@ + decimal(
            (n - SHOWN_MATCHES) as nat,
        ) + " more)"@
    } else {
        match_list(matches, n as int)
    }) + "\r\n  > "@ + typed
}

/// The prompt drawn anew.
pub open spec fn prompt_text(typed: Seq<char>) -> Seq<char> {
    "\r  > "@ + typed + "\x1b[K"@
}

/// Draws the prompt anew.
pub fn draw_prompt(typed: &str) -> (r: String)
    ensures
        r@ == prompt_text(typed@),
{
    let mut out: String = copy_of("\r  > ");
    out.append(typed);
    out.append("\x1b[K");
    out
}

/// What completing a name comes to.
pub enum Completion {
    /// Nothing matches.
    Nothing,
    /// One match: what is typed from now on.
    Typed(String),
    /// Several matches: their list.
    List(String),
}

/// Completes what was typed from the matches, in order; a directory gets a separator behind it.
pub fn complete_path(matches: &Vec<PathMatch>, typed: &str, separator: char) -> (r: Completion)
    ensures
        match r {
            Completion::Nothing => matches@.len() == 0,
            Completion::Typed(text) => matches@.len() == 1 && text@ == (if matches@[0].is_dir {
                matches@[0].path@.push(separator)
            } else {
                matches@[0].path@
            }),
            Completion::List(text) => matches@.len() > 1 && text@ == matches_text(
                matches@,
                typed@,
            ),
        },
{
    let n: usize = matches.len();
    if n == 0 {
        return Completion::Nothing;
    }
    if n == 1 {
        let mut text: String = copy_of(matches[0].path.as_str());
        if matches[0].is_dir {
            text.push(separator);
        }
        return Completion::Typed(text);
    }
    let shown: usize = if n > SHOWN_MATCHES {
        SHOWN_MATCHES
    } else {
        n
    };
    let mut out: String = copy_of("\r\n");
    let ghost start = out@;
    let mut i: usize = 0;
    assert(start + match_list(matches@, 0) =~= start);
    while i < shown
        invariant
            i <= shown <= n == matches@.len(),
            out@ == start + match_list(matches@, i as int),
        decreases shown - i,
    {
        let ghost had = match_list(matches@, i as int);
        let m: &PathMatch = &matches[i];
        if i > 0 && i % 4 == 0 {
            out.append("\r\n");
        }
        out.append("  ");
        out.append(m.name.as_str());
        if m.is_dir {
            out.append("\\");
        }
        i += 1;
        assert(out@ =~= start + match_list(matches@, i as int));
    }
    if n > SHOWN_MATCHES {
        out.append("  ...(");
        push_decimal(&mut out, (n - SHOWN_MATCHES) as u64);
        out.append(" more)");
    }
    out.append("\r\n  > ");
    out.append(typed);
    assert(out@ =~= matches_text(matches@, typed@));
    Completion::List(out)
}

/// What is typed at the prompt goes to its end, and the backspace key takes it back; the other keys
/// leave the text as it is.
pub proof fn law_prompt_keys(text: Seq<char>, c: char)
    ensures
        after_prompt_key(text, Key::Char(c)) == (text.push(c), PromptStep::Redraw),
        after_prompt_key(text.push(c), Key::Backspace) == (text, PromptStep::Redraw),
        after_prompt_key(Seq::empty(), Key::Backspace) == (
            Seq::<char>::empty(),
            PromptStep::Nothing,
        ),
        after_prompt_key(text, Key::Enter) == (text, PromptStep::Accept),
        after_prompt_key(text, Key::Esc) == (text, PromptStep::Cancel),
        after_prompt_key(text, Key::Tab) == (text, PromptStep::Complete),
        after_prompt_key(text, Key::Left) == (text, PromptStep::Nothing),
{
    assert(text.push(c).drop_last() =~= text);
}

/// A name completes what was typed exactly where it goes on from there in lowercase.
pub proof fn law_completing_names(name: Seq<char>, prefix: Seq<char>)
    ensures
        completes(name, prefix) <==> exists|rest: Seq<char>|
            lowercase(name) == #[trigger] (prefix + rest),
{
    let lower = lowercase(name);
    if completes(name, prefix) {
        assert(lower =~= prefix + lower.skip(prefix.len() as int));
    }
    if exists|rest: Seq<char>| lower == #[trigger] (prefix + rest) {
        let rest = choose|rest: Seq<char>| lower == #[trigger] (prefix + rest);
        assert(lower.take(prefix.len() as int) =~= prefix);
    }
}

/// The path that was typed is the text without the white space around it, if anything is left.
pub proof fn law_typed_path(text: Seq<char>)
    ensures
        match typed_path(text) {
            Some(path) => path == trimmed(text) && path.len() > 0,
            None => trimmed(text).len() == 0,
        },
{
}

/// Matches are listed by name, directories with a backslash behind it, four on a line; no more than
/// fifteen are, and of those behind them only how many they are.
pub proof fn law_matches_are_listed(matches: Seq<PathMatch>, typed: Seq<char>, n: int)
    requires
        0 <= n < matches.len(),
    ensures
        match_list(matches, 0).len() == 0,
        match_list(matches, n + 1) == match_list(matches, n) + (if n > 0 && n % 4 == 0 {
            "\r\n"@
        } else {
            Seq::empty()
        }) + ("  "@ + matches[n].name@ + if matches[n].is_dir {
            "\\"@
        } else {
            Seq::empty()
        }),
        matches.len() <= 15 ==> matches_text(matches, typed) == "\r\n"@ + match_list(
            matches,
            matches.len() as int,
        ) + "\r\n  > "@ + typed,
        matches.len() > 15 ==> matches_text(matches, typed) == "\r\n"@ + (match_list(matches, 15)
            + "  ...("@ + decimal((matches.len() - 15) as nat) + " more)"@) + "\r\n  > "@ + typed,
{
}

} // verus!
