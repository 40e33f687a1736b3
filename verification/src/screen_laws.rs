//! What holds of the rows of a frame: every one of them is as wide as the terminal.
use vstd::prelude::*;
use vstd::utf8::*;

use crate::display::{
    fitted, fitted_styled, marked_term, open_after, sanitized, spaces, term_split, visible,
    visible_after,
};
use crate::display_laws::{
    law_fit_has_width, law_fit_styled_has_width, law_fit_styled_keeps_styles,
    law_highlight_keeps_text, law_visible, lemma_pieces_make_text, lemma_plain_is_visible,
    lemma_reset, lemma_sanitized_has_no_escape, lemma_visible_concat,
};
use crate::document_laws::holds_piece;
use crate::index::EntryModel;
use crate::query::content_query;
use crate::screen::{
    bars, bars_behind, entry_size, frame_text, header_text, help_footer_text, help_rows, in_four,
    near, plain_row, preview_line, preview_lines_of, preview_rows, preview_start, preview_text,
    preview_title, result_rows, row_views, rows_text, search_line_text, searching_text,
    selected_row, short_path_of, styled_name, tag_of, window_start, Frame, HeaderInfo, PreviewKind,
    RowModel,
};
use crate::size::{nearest_double, rounded_quotient, size_text, with_tenth, GB, KB, MB};
use crate::text::{ascii_letter, decimal, lines_of, views};

verus! {

/// Whether no escape sequence is open behind a text, whatever stands before it: an ASCII letter
/// stands in it, and no escape character behind that letter.
spec fn closes(s: Seq<char>) -> bool {
    exists|k: int| closes_at(s, k)
}

spec fn closes_at(s: Seq<char>, k: int) -> bool {
    &&& 0 <= k < s.len()
    &&& ascii_letter(s[k])
    &&& forall|j: int| k < j < s.len() ==> s[j] != '\x1b'
}

proof fn lemma_closes(in_escape: bool, s: Seq<char>, k: int)
    requires
        closes_at(s, k),
    ensures
        !open_after(in_escape, s),
    decreases s.len(),
{
    let rest = s.drop_first();
    if k > 0 {
        assert(closes_at(rest, k - 1)) by {
            assert forall|j: int| k - 1 < j < rest.len() implies rest[j] != '\x1b' by {
                assert(rest[j] == s[j + 1]);
            }
        }
        if in_escape {
            lemma_closes(!ascii_letter(s[0]), rest, k - 1);
        } else {
            lemma_closes(s[0] == '\x1b', rest, k - 1);
        }
    } else {
        assert(!rest.contains('\x1b')) by {
            if rest.contains('\x1b') {
                let j = choose|j: int| 0 <= j < rest.len() && rest[j] == '\x1b';
                assert(s[j + 1] == '\x1b');
            }
        }
        lemma_plain_is_visible(rest);
    }
}

/// A text that ends with a closing piece and a plain one leaves nothing open.
proof fn lemma_ends_closed(head: Seq<char>, piece: Seq<char>, tail: Seq<char>)
    requires
        closes(piece),
        !tail.contains('\x1b'),
    ensures
        !open_after(false, head + piece + tail),
{
    let k = choose|k: int| closes_at(piece, k);
    lemma_visible_concat(false, head, piece);
    lemma_closes(open_after(false, head), piece, k);
    lemma_visible_concat(false, head + piece, tail);
    lemma_plain_is_visible(tail);
}

/// The pieces of rows that end a style.
proof fn lemma_style_ends()
    ensures
        closes("\x1b[0m"@),
        closes("\x1b[0m "@),
        closes("\x1b[0m  "@),
        closes("\x1b[0m:"@),
{
    reveal_strlit("\x1b[0m");
    reveal_strlit("\x1b[0m ");
    reveal_strlit("\x1b[0m  ");
    reveal_strlit("\x1b[0m:");
    assert(closes_at("\x1b[0m"@, 3));
    assert(closes_at("\x1b[0m "@, 3));
    assert(closes_at("\x1b[0m  "@, 3));
    assert(closes_at("\x1b[0m:"@, 3));
}

proof fn lemma_decimal_plain(n: nat)
    ensures
        !decimal(n).contains('\x1b'),
    decreases n,
{
    assert('0' as u32 + n % 10 < 0x80);
    if n >= 10 {
        lemma_decimal_plain(n / 10);
        let d = decimal(n / 10);
        assert forall|i: int| 0 <= i < decimal(n).len() implies decimal(n)[i] != '\x1b' by {
            if i < d.len() {
                assert(d.contains(d[i]));
            }
        }
    }
}

proof fn lemma_plain_concat(a: Seq<char>, b: Seq<char>)
    requires
        !a.contains('\x1b'),
        !b.contains('\x1b'),
    ensures
        !(a + b).contains('\x1b'),
{
    assert forall|i: int| 0 <= i < (a + b).len() implies (a + b)[i] != '\x1b' by {
        if i < a.len() {
            assert(a.contains(a[i]));
        } else {
            assert(b.contains(b[i - a.len()]));
        }
    }
}

proof fn lemma_with_tenth_plain(n: nat, unit: nat)
    ensures
        !with_tenth(n, unit).contains('\x1b'),
{
    let t = rounded_quotient(10 * n, unit);
    lemma_decimal_plain(t / 10);
    lemma_decimal_plain(t % 10);
    lemma_plain_concat(decimal(t / 10), seq!['.']);
    lemma_plain_concat(decimal(t / 10) + seq!['.'], decimal(t % 10));
}

proof fn lemma_size_plain(n: nat)
    ensures
        !size_text(n).contains('\x1b'),
{
    if n >= GB {
        lemma_with_tenth_plain(nearest_double(n), GB as nat);
        lemma_plain_concat(with_tenth(nearest_double(n), GB as nat), seq!['G']);
    } else if n >= MB {
        lemma_with_tenth_plain(n, MB as nat);
        lemma_plain_concat(with_tenth(n, MB as nat), seq!['M']);
    } else if n >= KB {
        lemma_decimal_plain(n / (KB as nat));
        lemma_plain_concat(decimal(n / (KB as nat)), seq!['K']);
    } else {
        lemma_decimal_plain(n);
        lemma_plain_concat(decimal(n), seq!['B']);
    }
}

proof fn lemma_tag_plain(is_dir: bool, ext: Seq<char>)
    ensures
        !tag_of(is_dir, ext).contains('\x1b'),
{
    reveal_strlit("DIR");
    reveal_strlit("SRC");
    reveal_strlit("IMG");
    reveal_strlit("AUD");
    reveal_strlit("VID");
    reveal_strlit("ZIP");
    reveal_strlit("EXE");
    reveal_strlit("PDF");
    reveal_strlit("DOC");
    reveal_strlit("XLS");
    reveal_strlit("   ");
}

/// Marking a term leaves no escape sequence open in a text without escape characters.
proof fn lemma_marked_closed(text: Seq<char>, term: Seq<char>, on: Seq<char>)
    requires
        !text.contains('\x1b'),
    ensures
        !open_after(false, marked_term(text, term, on, "\x1b[0m"@)),
{
    lemma_plain_is_visible(text);
    lemma_style_ends();
    if term.len() > 0 {
        if let Some(s) = term_split(text, term) {
            lemma_pieces_make_text(text, term);
            assert(!s.after.contains('\x1b')) by {
                if s.after.contains('\x1b') {
                    let i = choose|i: int| 0 <= i < s.after.len() && s.after[i] == '\x1b';
                    assert((s.before + s.matched + s.after)[s.before.len() + s.matched.len() + i]
                        == '\x1b');
                }
            }
            lemma_ends_closed(s.before + on + s.matched, "\x1b[0m"@, s.after);
        }
    }
}

proof fn lemma_open_concat(a: Seq<char>, b: Seq<char>)
    requires
        !open_after(false, a),
        !open_after(false, b),
    ensures
        !open_after(false, a + b),
{
    lemma_visible_concat(false, a, b);
}

/// A row that is not selected shows exactly as many characters as the terminal is wide, where the
/// line in it holds no escape character, as the lines of search results do.
pub proof fn law_plain_row_has_width(row: RowModel, term: Seq<char>, w: int)
    requires
        w >= 0,
        !row.line_text.contains('\x1b'),
    ensures
        visible(plain_row(row, term, w)).len() == w,
{
    lemma_style_ends();
    let start = "   \x1b[90m["@ + tag_of(row.entry.is_dir, row.entry.extension) + "]\x1b[0m "@;
    if row.line_num > 0 {
        let head = start + "\x1b[33m"@ + row.entry.name + "\x1b[0m  \x1b[90m"@ + row.folder
            + "\x1b[0m  \x1b[36mL"@ + decimal(row.line_num as nat);
        let shown = marked_term(row.line_text, term, "\x1b[1;31m"@, "\x1b[0m"@);
        let line = head + "\x1b[0m:"@ + shown;
        lemma_ends_closed(head, "\x1b[0m:"@, Seq::empty());
        assert(head + "\x1b[0m:"@ + Seq::<char>::empty() =~= head + "\x1b[0m:"@);
        lemma_marked_closed(row.line_text, term, "\x1b[1;31m"@);
        lemma_open_concat(head + "\x1b[0m:"@, shown);
        law_fit_styled_has_width(line, w);
    } else {
        let head = start + styled_name(row.entry, term) + "  \x1b[90m"@ + row.folder;
        let size = entry_size(row.entry);
        lemma_size_plain(row.entry.size as nat);
        lemma_ends_closed(head, "\x1b[0m  "@, size);
        law_fit_styled_has_width(head + "\x1b[0m  "@ + size, w);
    }
}

/// The selected row shows exactly as many characters as the terminal is wide, where the name, the
/// folder and the line in it hold no escape character.
pub proof fn law_selected_row_has_width(row: RowModel, w: int)
    requires
        w >= 0,
        !row.entry.name.contains('\x1b'),
        !row.folder.contains('\x1b'),
        !row.line_text.contains('\x1b'),
    ensures
        visible(selected_row(row, w)).len() == w,
{
    reveal_strlit(" > [");
    reveal_strlit("] ");
    reveal_strlit("  ");
    reveal_strlit("L");
    reveal_strlit(":");
    let tag = tag_of(row.entry.is_dir, row.entry.extension);
    lemma_tag_plain(row.entry.is_dir, row.entry.extension);
    lemma_plain_concat(" > ["@, tag);
    lemma_plain_concat(" > ["@ + tag, "] "@);
    lemma_plain_concat(" > ["@ + tag + "] "@, row.entry.name);
    lemma_plain_concat(" > ["@ + tag + "] "@ + row.entry.name, "  "@);
    lemma_plain_concat(" > ["@ + tag + "] "@ + row.entry.name + "  "@, row.folder);
    lemma_plain_concat(" > ["@ + tag + "] "@ + row.entry.name + "  "@ + row.folder, "  "@);
    let start = " > ["@ + tag + "] "@ + row.entry.name + "  "@ + row.folder + "  "@;
    let number = decimal(row.line_num as nat);
    let line = if row.line_num > 0 {
        start + "L"@ + number + ":"@ + row.line_text
    } else {
        start + entry_size(row.entry)
    };
    if row.line_num > 0 {
        lemma_decimal_plain(row.line_num as nat);
        lemma_plain_concat(start, "L"@);
        lemma_plain_concat(start + "L"@, number);
        lemma_plain_concat(start + "L"@ + number, ":"@);
        lemma_plain_concat(start + "L"@ + number + ":"@, row.line_text);
    } else {
        lemma_size_plain(row.entry.size as nat);
        lemma_plain_concat(start, entry_size(row.entry));
    }
    let fit = fitted(line, w);
    assert(!fit.contains('\x1b')) by {
        assert forall|i: int| 0 <= i < fit.len() implies fit[i] != '\x1b' by {
            if i < line.len() {
                assert(line.contains(line[i]));
            }
        }
    }
    law_fit_has_width(line, w);
    lemma_plain_is_visible(fit);
    lemma_reverse_video();
    lemma_reset(false);
    lemma_visible_concat(false, "\x1b[7m"@, fit);
    lemma_visible_concat(false, "\x1b[7m"@ + fit, "\x1b[0m"@);
}

proof fn lemma_reverse_video()
    ensures
        visible("\x1b[7m"@) == Seq::<char>::empty(),
        !open_after(false, "\x1b[7m"@),
{
    reveal_strlit("\x1b[7m");
    reveal_with_fuel(visible_after, 5);
    reveal_with_fuel(open_after, 5);
    let s = "\x1b[7m"@;
    assert(s.drop_first() =~= seq!['[', '7', 'm']);
    assert(s.drop_first().drop_first() =~= seq!['7', 'm']);
    assert(s.drop_first().drop_first().drop_first() =~= seq!['m']);
    assert(s.drop_first().drop_first().drop_first().drop_first() =~= Seq::<char>::empty());
}

/// A line of the preview shows exactly as many characters as the terminal is wide: the lines of a
/// preview are sanitized.
pub proof fn law_preview_line_has_width(
    content: Seq<char>,
    n: int,
    highlight: int,
    term: Seq<char>,
    w: int,
)
    requires
        w >= 0,
    ensures
        visible(preview_line(sanitized(content), n, highlight, term, w)).len() == w,
{
    lemma_style_ends();
    let text = sanitized(content);
    lemma_sanitized_has_no_escape(content);
    let number = in_four(n as nat);
    let reset = "\x1b[0m "@;
    if highlight > 0 && n == highlight {
        let head = "\x1b[1;33m"@ + number;
        let shown = marked_term(text, term, "\x1b[1;4;93m"@, "\x1b[0m"@);
        lemma_ends_closed(head, reset, Seq::empty());
        assert(head + reset + Seq::<char>::empty() =~= head + reset);
        lemma_marked_closed(text, term, "\x1b[1;4;93m"@);
        lemma_open_concat(head + reset, shown);
        law_fit_styled_has_width(head + reset + shown, w);
    } else if near(n, highlight) {
        let head = "\x1b[36m"@ + number;
        lemma_ends_closed(head, reset, text);
        law_fit_styled_has_width(head + reset + text, w);
    } else {
        let head = "\x1b[90m"@ + number + "\x1b[0m \x1b[90m"@ + text;
        lemma_ends_closed(head, "\x1b[0m"@, Seq::empty());
        assert(head + "\x1b[0m"@ + Seq::<char>::empty() =~= head + "\x1b[0m"@);
        law_fit_styled_has_width(head + "\x1b[0m"@, w);
    }
}

/// The line above the preview shows exactly as many characters as the terminal is wide.
pub proof fn law_title_has_width(name: Seq<char>, w: int)
    requires
        w >= 0,
    ensures
        visible(preview_title(name, w)).len() == w,
{
    lemma_style_ends();
    let head = "\u{2500}\u{2500} \x1b[1m"@ + name;
    let tail = bars(bars_behind(encode_utf8(name).len() as int, w));
    lemma_ends_closed(head, "\x1b[0m "@, tail);
    law_fit_styled_has_width(head + "\x1b[0m "@ + tail, w);
}

/// A text shows another one, and leaves no escape sequence open.
spec fn shows(s: Seq<char>, v: Seq<char>) -> bool {
    visible(s) == v && !open_after(false, s)
}

proof fn lemma_shows_concat(a: Seq<char>, va: Seq<char>, b: Seq<char>, vb: Seq<char>)
    requires
        shows(a, va),
        shows(b, vb),
    ensures
        shows(a + b, va + vb),
{
    lemma_visible_concat(false, a, b);
}

proof fn lemma_plain_shows(s: Seq<char>)
    requires
        !s.contains('\x1b'),
    ensures
        shows(s, s),
{
    lemma_plain_is_visible(s);
}

/// An escape sequence with something before and behind it.
proof fn lemma_sequence_shows(front: Seq<char>, inside: Seq<char>, back: Seq<char>)
    requires
        !front.contains('\x1b'),
        !back.contains('\x1b'),
        forall|i: int|
            0 <= i < inside.len() ==> !ascii_letter(#[trigger] inside[i]) && inside[i] != '\x1b',
    ensures
        shows(front + seq!['\x1b'] + inside + seq!['m'] + back, front + back),
{
    let none = Seq::<char>::empty();
    let esc = seq!['\x1b'] + inside + seq!['m'];
    law_visible('m', inside, 'm', none);
    assert(esc + none =~= esc);
    assert(visible(esc) =~= none) by {
        assert(visible(none) =~= none);
    }
    assert(closes_at(esc, esc.len() - 1));
    lemma_closes(false, esc, esc.len() - 1);
    lemma_plain_shows(front);
    lemma_plain_shows(back);
    lemma_shows_concat(front, front, esc, none);
    lemma_shows_concat(front + esc, front + none, back, back);
    assert(front + seq!['\x1b'] + inside + seq!['m'] + back =~= front + esc + back);
    assert(front + none + back =~= front + back);
}

/// What the pieces of rows show.
proof fn lemma_row_pieces()
    ensures
        shows("   \x1b[90m["@, "   ["@),
        shows("]\x1b[0m "@, "] "@),
        shows("\x1b[33m"@, Seq::empty()),
        shows("\x1b[0m"@, Seq::empty()),
        shows("\x1b[1;31m"@, Seq::empty()),
        shows("\x1b[0;33m"@, Seq::empty()),
        shows("\x1b[0m  "@, "  "@),
        shows("  \x1b[90m"@, "  "@),
        shows("\x1b[0m:"@, ":"@),
        shows("\x1b[0m "@, " "@),
        shows("\x1b[36m"@, Seq::empty()),
        shows("\x1b[90m"@, Seq::empty()),
        shows("\x1b[1;33m"@, Seq::empty()),
        shows("\x1b[0m  \x1b[90m"@, "  "@),
        shows("\x1b[0m  \x1b[36mL"@, "  L"@),
        shows("\x1b[0m \x1b[90m"@, " "@),
{
    let none = Seq::<char>::empty();
    reveal_strlit("   \x1b[90m[");
    reveal_strlit("   [");
    lemma_sequence_shows(seq![' ', ' ', ' '], seq!['[', '9', '0'], seq!['[']);
    assert("   \x1b[90m["@ =~= seq![' ', ' ', ' '] + seq!['\x1b'] + seq!['[', '9', '0'] + seq!['m']
        + seq!['[']);
    assert("   ["@ =~= seq![' ', ' ', ' '] + seq!['[']);
    reveal_strlit("]\x1b[0m ");
    reveal_strlit("] ");
    lemma_sequence_shows(seq![']'], seq!['[', '0'], seq![' ']);
    assert("]\x1b[0m "@ =~= seq![']'] + seq!['\x1b'] + seq!['[', '0'] + seq!['m'] + seq![' ']);
    assert("] "@ =~= seq![']'] + seq![' ']);
    assert(none + none =~= none);
    reveal_strlit("\x1b[33m");
    lemma_sequence_shows(none, seq!['[', '3', '3'], none);
    assert("\x1b[33m"@ =~= none + seq!['\x1b'] + seq!['[', '3', '3'] + seq!['m'] + none);
    reveal_strlit("\x1b[0m");
    lemma_sequence_shows(none, seq!['[', '0'], none);
    assert("\x1b[0m"@ =~= none + seq!['\x1b'] + seq!['[', '0'] + seq!['m'] + none);
    reveal_strlit("\x1b[1;31m");
    lemma_sequence_shows(none, seq!['[', '1', ';', '3', '1'], none);
    assert("\x1b[1;31m"@ =~= none + seq!['\x1b'] + seq!['[', '1', ';', '3', '1'] + seq!['m'] + none);
    reveal_strlit("\x1b[0;33m");
    lemma_sequence_shows(none, seq!['[', '0', ';', '3', '3'], none);
    assert("\x1b[0;33m"@ =~= none + seq!['\x1b'] + seq!['[', '0', ';', '3', '3'] + seq!['m'] + none);
    reveal_strlit("\x1b[1;33m");
    lemma_sequence_shows(none, seq!['[', '1', ';', '3', '3'], none);
    assert("\x1b[1;33m"@ =~= none + seq!['\x1b'] + seq!['[', '1', ';', '3', '3'] + seq!['m'] + none);
    reveal_strlit("\x1b[36m");
    lemma_sequence_shows(none, seq!['[', '3', '6'], none);
    assert("\x1b[36m"@ =~= none + seq!['\x1b'] + seq!['[', '3', '6'] + seq!['m'] + none);
    reveal_strlit("\x1b[90m");
    lemma_sequence_shows(none, seq!['[', '9', '0'], none);
    assert("\x1b[90m"@ =~= none + seq!['\x1b'] + seq!['[', '9', '0'] + seq!['m'] + none);
    reveal_strlit("\x1b[0m  ");
    reveal_strlit("  ");
    lemma_sequence_shows(none, seq!['[', '0'], seq![' ', ' ']);
    assert("\x1b[0m  "@ =~= none + seq!['\x1b'] + seq!['[', '0'] + seq!['m'] + seq![' ', ' ']);
    assert("  "@ =~= none + seq![' ', ' ']);
    reveal_strlit("  \x1b[90m");
    lemma_sequence_shows(seq![' ', ' '], seq!['[', '9', '0'], none);
    assert("  \x1b[90m"@ =~= seq![' ', ' '] + seq!['\x1b'] + seq!['[', '9', '0'] + seq!['m'] + none);
    assert("  "@ =~= seq![' ', ' '] + none);
    reveal_strlit("\x1b[0m:");
    reveal_strlit(":");
    lemma_sequence_shows(none, seq!['[', '0'], seq![':']);
    assert("\x1b[0m:"@ =~= none + seq!['\x1b'] + seq!['[', '0'] + seq!['m'] + seq![':']);
    assert(":"@ =~= none + seq![':']);
    reveal_strlit("\x1b[0m ");
    reveal_strlit(" ");
    lemma_sequence_shows(none, seq!['[', '0'], seq![' ']);
    assert("\x1b[0m "@ =~= none + seq!['\x1b'] + seq!['[', '0'] + seq!['m'] + seq![' ']);
    assert(" "@ =~= none + seq![' ']);
    reveal_strlit("\x1b[0m  \x1b[90m");
    lemma_shows_concat("\x1b[0m  "@, "  "@, "\x1b[90m"@, none);
    assert("\x1b[0m  \x1b[90m"@ =~= "\x1b[0m  "@ + "\x1b[90m"@);
    assert("  "@ + none =~= "  "@);
    reveal_strlit("\x1b[0m \x1b[90m");
    lemma_shows_concat("\x1b[0m "@, " "@, "\x1b[90m"@, none);
    assert("\x1b[0m \x1b[90m"@ =~= "\x1b[0m "@ + "\x1b[90m"@);
    assert(" "@ + none =~= " "@);
    reveal_strlit("\x1b[0m  \x1b[36mL");
    reveal_strlit("  L");
    lemma_sequence_shows(seq![' ', ' '], seq!['[', '3', '6'], seq!['L']);
    let tail = seq![' ', ' '] + seq!['\x1b'] + seq!['[', '3', '6'] + seq!['m'] + seq!['L'];
    lemma_shows_concat("\x1b[0m"@, none, tail, seq![' ', ' '] + seq!['L']);
    assert("\x1b[0m  \x1b[36mL"@ =~= "\x1b[0m"@ + tail);
    assert("  L"@ =~= none + (seq![' ', ' '] + seq!['L']));
}

/// A name is shown as it is, whatever of it is marked.
proof fn lemma_styled_name_shows(e: EntryModel, term: Seq<char>)
    requires
        !e.name.contains('\x1b'),
    ensures
        shows(styled_name(e, term), e.name),
{
    let none = Seq::<char>::empty();
    lemma_row_pieces();
    lemma_plain_shows(e.name);
    let plain = "\x1b[33m"@ + e.name + "\x1b[0m"@;
    lemma_shows_concat("\x1b[33m"@, none, e.name, e.name);
    lemma_shows_concat("\x1b[33m"@ + e.name, none + e.name, "\x1b[0m"@, none);
    assert(none + e.name + none =~= e.name);
    if term.len() > 0 {
        if let Some(s) = term_split(e.name, term) {
            lemma_pieces_make_text(e.name, term);
            assert forall|c: char| s.before.contains(c) || s.matched.contains(c)
                || s.after.contains(c) implies e.name.contains(c) by {
                let all = s.before + s.matched + s.after;
                if s.before.contains(c) {
                    let i = choose|i: int| 0 <= i < s.before.len() && s.before[i] == c;
                    assert(all[i] == c);
                } else if s.matched.contains(c) {
                    let i = choose|i: int| 0 <= i < s.matched.len() && s.matched[i] == c;
                    assert(all[s.before.len() + i] == c);
                } else {
                    let i = choose|i: int| 0 <= i < s.after.len() && s.after[i] == c;
                    assert(all[s.before.len() + s.matched.len() + i] == c);
                }
            }
            lemma_plain_shows(s.before);
            lemma_plain_shows(s.matched);
            lemma_plain_shows(s.after);
            let a = "\x1b[33m"@ + s.before;
            lemma_shows_concat("\x1b[33m"@, none, s.before, s.before);
            let b = a + "\x1b[1;31m"@;
            lemma_shows_concat(a, none + s.before, "\x1b[1;31m"@, none);
            let c = b + s.matched;
            lemma_shows_concat(b, none + s.before + none, s.matched, s.matched);
            let d = c + "\x1b[0;33m"@;
            let vc = none + s.before + none + s.matched;
            lemma_shows_concat(c, vc, "\x1b[0;33m"@, none);
            let f = d + s.after;
            lemma_shows_concat(d, vc + none, s.after, s.after);
            lemma_shows_concat(f, vc + none + s.after, "\x1b[0m"@, none);
            assert(vc + none + s.after + none =~= s.before + s.matched + s.after);
        }
    }
}

proof fn lemma_marked_shows(text: Seq<char>, term: Seq<char>)
    requires
        !text.contains('\x1b'),
    ensures
        shows(marked_term(text, term, "\x1b[1;31m"@, "\x1b[0m"@), text),
{
    law_highlight_keeps_text(text, term);
    lemma_marked_closed(text, term, "\x1b[1;31m"@);
}

/// A row that is not selected shows its mark, the name, the folder, and the size, or the line that
/// matches with its number, in this order; what does not fit is cut off, and what is marked in color
/// is shown as it is.
pub proof fn law_plain_row_shows(row: RowModel, term: Seq<char>, w: int)
    requires
        w >= 0,
        !row.entry.name.contains('\x1b'),
        !row.folder.contains('\x1b'),
        !row.line_text.contains('\x1b'),
    ensures
        ({
            let start = "   ["@ + tag_of(row.entry.is_dir, row.entry.extension) + "] "@
                + row.entry.name + "  "@ + row.folder;
            visible(plain_row(row, term, w)) == fitted(
                if row.line_num > 0 {
                    start + "  L"@ + decimal(row.line_num as nat) + ":"@ + row.line_text
                } else if row.entry.is_dir {
                    start + "  "@
                } else {
                    start + "  "@ + size_text(row.entry.size as nat)
                },
                w,
            )
        }),
{
    let none = Seq::<char>::empty();
    let tag = tag_of(row.entry.is_dir, row.entry.extension);
    lemma_row_pieces();
    lemma_tag_plain(row.entry.is_dir, row.entry.extension);
    lemma_plain_shows(tag);
    lemma_plain_shows(row.entry.name);
    lemma_plain_shows(row.folder);
    let a = "   \x1b[90m["@ + tag;
    lemma_shows_concat("   \x1b[90m["@, "   ["@, tag, tag);
    let b = a + "]\x1b[0m "@;
    let vb = "   ["@ + tag + "] "@;
    lemma_shows_concat(a, "   ["@ + tag, "]\x1b[0m "@, "] "@);
    if row.line_num > 0 {
        let number = decimal(row.line_num as nat);
        lemma_decimal_plain(row.line_num as nat);
        lemma_plain_shows(number);
        let shown = marked_term(row.line_text, term, "\x1b[1;31m"@, "\x1b[0m"@);
        lemma_marked_shows(row.line_text, term);
        let c = b + "\x1b[33m"@;
        lemma_shows_concat(b, vb, "\x1b[33m"@, none);
        let d = c + row.entry.name;
        lemma_shows_concat(c, vb + none, row.entry.name, row.entry.name);
        let e = d + "\x1b[0m  \x1b[90m"@;
        lemma_shows_concat(d, vb + none + row.entry.name, "\x1b[0m  \x1b[90m"@, "  "@);
        let f = e + row.folder;
        lemma_shows_concat(e, vb + none + row.entry.name + "  "@, row.folder, row.folder);
        let vf = vb + none + row.entry.name + "  "@ + row.folder;
        let g = f + "\x1b[0m  \x1b[36mL"@;
        lemma_shows_concat(f, vf, "\x1b[0m  \x1b[36mL"@, "  L"@);
        let h = g + number;
        lemma_shows_concat(g, vf + "  L"@, number, number);
        let i = h + "\x1b[0m:"@;
        lemma_shows_concat(h, vf + "  L"@ + number, "\x1b[0m:"@, ":"@);
        lemma_shows_concat(i, vf + "  L"@ + number + ":"@, shown, row.line_text);
        law_fit_styled_has_width(i + shown, w);
        assert(vb + none =~= vb);
    } else {
        let size = entry_size(row.entry);
        lemma_size_plain(row.entry.size as nat);
        lemma_plain_shows(size);
        lemma_styled_name_shows(row.entry, term);
        let name = styled_name(row.entry, term);
        let c = b + name;
        lemma_shows_concat(b, vb, name, row.entry.name);
        let d = c + "  \x1b[90m"@;
        lemma_shows_concat(c, vb + row.entry.name, "  \x1b[90m"@, "  "@);
        let e = d + row.folder;
        lemma_shows_concat(d, vb + row.entry.name + "  "@, row.folder, row.folder);
        let ve = vb + row.entry.name + "  "@ + row.folder;
        let f = e + "\x1b[0m  "@;
        lemma_shows_concat(e, ve, "\x1b[0m  "@, "  "@);
        lemma_shows_concat(f, ve + "  "@, size, size);
        law_fit_styled_has_width(f + size, w);
        if row.entry.is_dir {
            assert(ve + "  "@ + size =~= ve + "  "@);
        }
    }
}

/// The selected row shows what it shows where it is not selected, behind an arrow.
pub proof fn law_selected_row_shows(row: RowModel, w: int)
    requires
        w >= 0,
        !row.entry.name.contains('\x1b'),
        !row.folder.contains('\x1b'),
        !row.line_text.contains('\x1b'),
    ensures
        ({
            let start = " > ["@ + tag_of(row.entry.is_dir, row.entry.extension) + "] "@
                + row.entry.name + "  "@ + row.folder;
            visible(selected_row(row, w)) == fitted(
                if row.line_num > 0 {
                    start + "  L"@ + decimal(row.line_num as nat) + ":"@ + row.line_text
                } else if row.entry.is_dir {
                    start + "  "@
                } else {
                    start + "  "@ + size_text(row.entry.size as nat)
                },
                w,
            )
        }),
{
    reveal_strlit(" > [");
    reveal_strlit("] ");
    reveal_strlit("  ");
    reveal_strlit("L");
    reveal_strlit("  L");
    reveal_strlit(":");
    let tag = tag_of(row.entry.is_dir, row.entry.extension);
    lemma_tag_plain(row.entry.is_dir, row.entry.extension);
    lemma_plain_concat(" > ["@, tag);
    lemma_plain_concat(" > ["@ + tag, "] "@);
    lemma_plain_concat(" > ["@ + tag + "] "@, row.entry.name);
    lemma_plain_concat(" > ["@ + tag + "] "@ + row.entry.name, "  "@);
    lemma_plain_concat(" > ["@ + tag + "] "@ + row.entry.name + "  "@, row.folder);
    lemma_plain_concat(" > ["@ + tag + "] "@ + row.entry.name + "  "@ + row.folder, "  "@);
    let start = " > ["@ + tag + "] "@ + row.entry.name + "  "@ + row.folder + "  "@;
    let number = decimal(row.line_num as nat);
    let line = if row.line_num > 0 {
        start + "L"@ + number + ":"@ + row.line_text
    } else {
        start + entry_size(row.entry)
    };
    if row.line_num > 0 {
        lemma_decimal_plain(row.line_num as nat);
        lemma_plain_concat(start, "L"@);
        lemma_plain_concat(start + "L"@, number);
        lemma_plain_concat(start + "L"@ + number, ":"@);
        lemma_plain_concat(start + "L"@ + number + ":"@, row.line_text);
        let short = " > ["@ + tag + "] "@ + row.entry.name + "  "@ + row.folder;
        assert(line =~= short + "  L"@ + number + ":"@ + row.line_text);
    } else {
        lemma_size_plain(row.entry.size as nat);
        lemma_plain_concat(start, entry_size(row.entry));
        if row.entry.is_dir {
            assert(line =~= start);
        }
    }
    let fit = fitted(line, w);
    assert(!fit.contains('\x1b')) by {
        assert forall|i: int| 0 <= i < fit.len() implies fit[i] != '\x1b' by {
            if i < line.len() {
                assert(line.contains(line[i]));
            }
        }
    }
    let none = Seq::<char>::empty();
    lemma_plain_is_visible(fit);
    lemma_reverse_video();
    lemma_reset(false);
    lemma_visible_concat(false, "\x1b[7m"@, fit);
    lemma_visible_concat(false, "\x1b[7m"@ + fit, "\x1b[0m"@);
    assert(none + fit + none =~= fit);
}

/// A number of up to four digits takes four characters: spaces, and then its digits.
pub proof fn law_numbers_in_four(n: nat)
    ensures
        decimal(n).is_suffix_of(in_four(n)),
        decimal(n).len() <= 4 ==> in_four(n).len() == 4,
        forall|i: int|
            0 <= i < in_four(n).len() - decimal(n).len() ==> #[trigger] in_four(n)[i] == ' ',
{
    let all = in_four(n);
    assert(all.subrange(all.len() - decimal(n).len(), all.len() as int) =~= decimal(n));
}

/// A line of the preview shows its number and its text.
pub proof fn law_preview_line_shows(
    content: Seq<char>,
    n: int,
    highlight: int,
    term: Seq<char>,
    w: int,
)
    requires
        w >= 0,
        !content.contains('\x1b'),
        n != highlight || highlight <= 0,
    ensures
        visible(preview_line(content, n, highlight, term, w)) == fitted(
            in_four(n as nat) + " "@ + content,
            w,
        ),
{
    let none = Seq::<char>::empty();
    let number = in_four(n as nat);
    lemma_row_pieces();
    lemma_decimal_plain(n as nat);
    assert(!number.contains('\x1b')) by {
        assert(!spaces(4 - decimal(n as nat).len()).contains('\x1b'));
        lemma_plain_concat(spaces(4 - decimal(n as nat).len()), decimal(n as nat));
    }
    lemma_plain_shows(number);
    lemma_plain_shows(content);
    if near(n, highlight) {
        let a = "\x1b[36m"@ + number;
        lemma_shows_concat("\x1b[36m"@, none, number, number);
        let b = a + "\x1b[0m "@;
        lemma_shows_concat(a, none + number, "\x1b[0m "@, " "@);
        lemma_shows_concat(b, none + number + " "@, content, content);
        law_fit_styled_has_width(b + content, w);
        assert(none + number =~= number);
    } else {
        let a = "\x1b[90m"@ + number;
        lemma_shows_concat("\x1b[90m"@, none, number, number);
        let b = a + "\x1b[0m \x1b[90m"@;
        lemma_shows_concat(a, none + number, "\x1b[0m \x1b[90m"@, " "@);
        let c = b + content;
        lemma_shows_concat(b, none + number + " "@, content, content);
        lemma_shows_concat(c, none + number + " "@ + content, "\x1b[0m"@, none);
        law_fit_styled_has_width(c + "\x1b[0m"@, w);
        assert(none + number =~= number);
        assert(number + " "@ + content + none =~= number + " "@ + content);
    }
}

/// The rows of results show the results that there are, one behind the other from the first on, the
/// selected one as selected, and blanks behind the last one.
pub proof fn law_rows_show_results(
    rows: Seq<RowModel>,
    selected: Option<usize>,
    term: Seq<char>,
    w: int,
    n: int,
)
    requires
        n >= 0,
    ensures
        rows_text(rows, selected, term, w, 0).len() == 0,
        rows_text(rows, selected, term, w, n + 1) == rows_text(rows, selected, term, w, n) + (
        if n >= rows.len() {
            spaces(w)
        } else if selected == Some(n as usize) {
            selected_row(rows[n], w)
        } else {
            plain_row(rows[n], term, w)
        }),
{
}

/// The preview shows the lines of the file, from its first line on the screen, each with its number
/// from 1, and blanks behind the last one.
pub proof fn law_preview_shows_lines(
    lines: Seq<Seq<char>>,
    start: int,
    highlight: int,
    term: Seq<char>,
    w: int,
    n: int,
)
    requires
        n >= 0,
        start >= 0,
    ensures
        preview_text(lines, start, highlight, term, w, 0).len() == 0,
        preview_text(lines, start, highlight, term, w, n + 1) == preview_text(
            lines,
            start,
            highlight,
            term,
            w,
            n,
        ) + (if start + n < lines.len() {
            preview_line(lines[start + n], start + n + 1, highlight, term, w)
        } else {
            spaces(w)
        }),
{
}

/// The rows of a terminal are divided so: six are taken for the frame. Without results the rest is
/// for results; with results, six in ten rows of it are, rounded down and three at least, and
/// the preview has what they and the line above it leave.
pub proof fn law_rows_are_divided(rows: int, count: int)
    requires
        rows >= 6,
        count >= 0,
    ensures
        count == 0 ==> result_rows(rows, count) == rows - 6 && preview_rows(rows, count) == 0,
        count > 0 && (rows - 6) * 6 >= 40 ==> {
            &&& 10 * result_rows(rows, count) <= (rows - 6) * 6 < 10 * result_rows(rows, count) + 10
            &&& result_rows(rows, count) + 1 + preview_rows(rows, count) == rows - 6
        },
        count > 0 ==> result_rows(rows, count) >= 3,
        count > 0 && (rows - 6) * 6 < 40 ==> result_rows(rows, count) == 3,
{
}

/// The header counts the files, and, where there is a text, the results and the time that they took;
/// a search of contents that has not run asks for the enter key instead.
pub proof fn law_header(h: HeaderInfo<'_>)
    ensures
        ({
            let start = "  TurboFind | "@ + decimal(h.files as nat);
            let waits = content_query(h.text@) && h.count == 0 && !h.searched;
            &&& h.text@.len() == 0 ==> header_text(h) == start + " files indexed"@
            &&& h.text@.len() > 0 && waits ==> header_text(h) == start
                + " files | Press Enter to search"@
            &&& h.text@.len() > 0 && !waits ==> {
                let found = start + " files | "@ + decimal(h.count as nat) + " results in "@
                    + h.millis@ + "ms"@;
                &&& h.count <= h.rows ==> header_text(h) == found
                &&& h.count > h.rows && h.scroll + h.rows <= h.count ==> header_text(h) == found + (
                " ["@ + decimal((h.scroll + 1) as nat) + "-"@ + decimal((h.scroll + h.rows) as nat)
                    + "/"@ + decimal(h.count as nat) + "]"@)
                &&& h.count > h.rows && h.scroll + h.rows > h.count ==> header_text(h) == found + (
                " ["@ + decimal((h.scroll + 1) as nat) + "-"@ + decimal(h.count as nat) + "/"@
                    + decimal(h.count as nat) + "]"@)
            }
        }),
{
    let start = "  TurboFind | "@ + decimal(h.files as nat);
    let found = start + " files | "@ + decimal(h.count as nat) + " results in "@ + h.millis@ + "ms"@;
    assert(found + Seq::<char>::empty() =~= found);
}

/// The search line shows the text with a bar at the cursor, all of it where there is room; else as
/// much as there is room for, from `start` on, with the bar in it.
pub proof fn law_search_line_shows_text(text: Seq<char>, cursor: int, w: int) -> (start: int)
    requires
        text.len() > 0,
        0 <= cursor <= text.len(),
        w > 4,
    ensures
        ({
            let full = text.take(cursor) + seq!['|'] + text.skip(cursor);
            &&& text.len() + 1 <= w - 4 ==> search_line_text(text, cursor, w) == "  > "@ + full
            &&& text.len() + 1 > w - 4 ==> {
                &&& 0 <= start <= cursor < start + w - 4
                &&& start + w - 4 <= full.len()
                &&& search_line_text(text, cursor, w) == "  > "@ + full.subrange(
                    start,
                    start + w - 4,
                )
            }
        }),
{
    let full = text.take(cursor) + seq!['|'] + text.skip(cursor);
    assert(full.subrange(0, full.len() as int) =~= full);
    window_start(cursor, full.len() as int, w - 4)
}

/// A folder is shown by its last two components, and by all of them where there are no more.
pub proof fn law_short_path(front: Seq<Seq<char>>, a: Seq<char>, b: Seq<char>)
    ensures
        short_path_of(Seq::empty()).len() == 0,
        short_path_of(seq![a]) == a,
        short_path_of(front + seq![a, b]) == a + "\\"@ + b,
{
    let all = front + seq![a, b];
    let two = seq![a, b];
    if front.len() > 0 {
        assert(all.skip(all.len() - 2) =~= two);
    } else {
        assert(all =~= two);
    }
    assert(two.drop_last() =~= seq![a]);
}

/// The preview has the lines of a text of up to a megabyte, without what a terminal could take for a
/// command, and a note in place of anything else.
pub proof fn law_preview_lines(kind: PreviewKind, text: Seq<char>)
    ensures
        kind is Text || kind is Document ==> {
            &&& encode_utf8(text).len() <= 1024 * 1024 ==> {
                let shown = preview_lines_of(kind, Some(text));
                &&& shown.len() == lines_of(text).len()
                &&& forall|i: int|
                    0 <= i < shown.len() ==> #[trigger] shown[i] == sanitized(lines_of(text)[i])
            }
            &&& encode_utf8(text).len() > 1024 * 1024 ==> preview_lines_of(kind, Some(text))
                == preview_lines_of(kind, None)
            &&& preview_lines_of(kind, None).len() == 1
        },
        kind is Directory ==> preview_lines_of(kind, Some(text)) == seq!["(directory)"@],
        kind is Binary ==> preview_lines_of(kind, Some(text)) == seq!["(binary file)"@],
        kind is Nothing ==> preview_lines_of(kind, Some(text)).len() == 0,
        preview_lines_of(PreviewKind::Text, None) == seq!["(cannot read file)"@],
        preview_lines_of(PreviewKind::Document, None) == seq!["(cannot extract text)"@],
{
}

/// The line that matches is in the middle of the preview, unless it is too near to the beginning of
/// the file; without one the preview begins with the file.
pub proof fn law_match_is_in_the_middle(highlight: int, rows: int)
    requires
        rows >= 0,
    ensures
        highlight > rows / 2 ==> preview_start(highlight, rows) + rows / 2 == highlight - 1,
        highlight <= rows / 2 ==> preview_start(highlight, rows) == 0,
{
}

/// In a row that is wide enough, the searched text is marked in bold red, in the name in yellow and
/// in the line that matches.
pub proof fn law_rows_mark_the_term(row: RowModel, term: Seq<char>, w: int)
    requires
        w > visible(plain_row_line(row, term)).len(),
    ensures
        row.line_num > 0 ==> holds_piece(
            plain_row(row, term, w),
            marked_term(row.line_text, term, "\x1b[1;31m"@, "\x1b[0m"@),
        ),
        row.line_num == 0 ==> match term_split(row.entry.name, term) {
            Some(s) if term.len() > 0 => holds_piece(
                plain_row(row, term, w),
                "\x1b[33m"@ + s.before + "\x1b[1;31m"@ + s.matched + "\x1b[0;33m"@ + s.after
                    + "\x1b[0m"@,
            ),
            _ => holds_piece(
                plain_row(row, term, w),
                "\x1b[33m"@ + row.entry.name + "\x1b[0m"@,
            ),
        },
{
    let line = plain_row_line(row, term);
    let fill = spaces(w - visible(line).len());
    law_fit_styled_keeps_styles(line, w);
    assert(plain_row(row, term, w) == line + fill);
    let start = "   \x1b[90m["@ + tag_of(row.entry.is_dir, row.entry.extension) + "]\x1b[0m "@;
    if row.line_num > 0 {
        let a = start + "\x1b[33m"@ + row.entry.name + "\x1b[0m  \x1b[90m"@ + row.folder
            + "\x1b[0m  \x1b[36mL"@ + decimal(row.line_num as nat) + "\x1b[0m:"@;
        let m = marked_term(row.line_text, term, "\x1b[1;31m"@, "\x1b[0m"@);
        assert(line + fill =~= a + m + fill);
    } else {
        let m = styled_name(row.entry, term);
        let b = "  \x1b[90m"@ + row.folder + "\x1b[0m  "@ + entry_size(row.entry) + fill;
        assert(line + fill =~= start + m + b);
    }
}

/// A row that is not selected before it is fitted to the width of the terminal.
pub open spec fn plain_row_line(row: RowModel, term: Seq<char>) -> Seq<char> {
    let start = "   \x1b[90m["@ + tag_of(row.entry.is_dir, row.entry.extension) + "]\x1b[0m "@;
    if row.line_num > 0 {
        start + "\x1b[33m"@ + row.entry.name + "\x1b[0m  \x1b[90m"@ + row.folder
            + "\x1b[0m  \x1b[36mL"@ + decimal(row.line_num as nat) + "\x1b[0m:"@ + marked_term(
            row.line_text,
            term,
            "\x1b[1;31m"@,
            "\x1b[0m"@,
        )
    } else {
        start + styled_name(row.entry, term) + "  \x1b[90m"@ + row.folder + "\x1b[0m  "@
            + entry_size(row.entry)
    }
}

/// The selected row is in reverse video from its beginning to its end.
pub proof fn law_selected_row_is_reversed(row: RowModel, w: int)
    requires
        w >= 0,
    ensures
        exists|line: Seq<char>|
            line.len() == w && selected_row(row, w) == #[trigger] ("\x1b[7m"@ + line) + "\x1b[0m"@,
{
    let start = " > ["@ + tag_of(row.entry.is_dir, row.entry.extension) + "] "@ + row.entry.name
        + "  "@ + row.folder + "  "@;
    let line = if row.line_num > 0 {
        start + "L"@ + decimal(row.line_num as nat) + ":"@ + row.line_text
    } else {
        start + entry_size(row.entry)
    };
    assert(selected_row(row, w) == ("\x1b[7m"@ + fitted(line, w)) + "\x1b[0m"@);
}

/// In the preview the line that matches stands out, in a color of its own and with the searched text
/// marked in it, and so do the three lines before and the three lines behind it.
pub proof fn law_preview_colors(
    content: Seq<char>,
    n: int,
    highlight: int,
    term: Seq<char>,
    w: int,
)
    ensures
        ({
            let number = in_four(n as nat);
            let line = preview_line(content, n, highlight, term, w);
            &&& highlight > 0 && n == highlight ==> line == fitted_styled(
                "\x1b[1;33m"@ + number + "\x1b[0m "@ + marked_term(
                    content,
                    term,
                    "\x1b[1;4;93m"@,
                    "\x1b[0m"@,
                ),
                w,
            )
            &&& highlight > 0 && n != highlight && highlight - 3 <= n <= highlight + 3 ==> line
                == fitted_styled("\x1b[36m"@ + number + "\x1b[0m "@ + content, w)
            &&& highlight <= 0 || n < highlight - 3 || n > highlight + 3 ==> line == fitted_styled(
                "\x1b[90m"@ + number + "\x1b[0m \x1b[90m"@ + content + "\x1b[0m"@,
                w,
            )
        }),
{
}

/// The line above the preview shows the name of the file between bars.
pub proof fn law_title_shows_name(name: Seq<char>, w: int)
    requires
        w >= 0,
        !name.contains('\x1b'),
    ensures
        ({
            let room = w - encode_utf8(name).len() - 3;
            visible(preview_title(name, w)) == fitted(
                seq!['\u{2500}', '\u{2500}', ' '] + name + " "@ + Seq::new(
                    if room > 0 {
                        room as nat
                    } else {
                        0
                    },
                    |i: int| '\u{2500}',
                ),
                w,
            )
        }),
{
    let none = Seq::<char>::empty();
    let tail = bars(bars_behind(encode_utf8(name).len() as int, w));
    lemma_row_pieces();
    lemma_plain_shows(name);
    assert(!tail.contains('\x1b'));
    lemma_plain_shows(tail);
    reveal_strlit("\u{2500}\u{2500} \x1b[1m");
    let front = seq!['\u{2500}', '\u{2500}', ' '];
    lemma_sequence_shows(front, seq!['[', '1'], none);
    let a = "\u{2500}\u{2500} \x1b[1m"@;
    assert(a =~= front + seq!['\x1b'] + seq!['[', '1'] + seq!['m'] + none);
    assert(front + none =~= front);
    lemma_shows_concat(a, front, name, name);
    lemma_shows_concat(a + name, front + name, "\x1b[0m "@, " "@);
    lemma_shows_concat(a + name + "\x1b[0m "@, front + name + " "@, tail, tail);
    law_fit_styled_has_width(a + name + "\x1b[0m "@ + tail, w);
    let room = w - encode_utf8(name).len() - 3;
    assert(tail =~= Seq::new(
        if room > 0 {
            room as nat
        } else {
            0
        },
        |i: int| '\u{2500}',
    ));
}

/// A frame shows the header, a blank row, the search line and a row of bars, each as wide as the
/// terminal, and then the rows of results and the preview, with a line above it where there is one.
pub proof fn law_frame(f: Frame<'_>)
    ensures
        ({
            let w = f.width as int;
            let top = fitted(f.header@, w) + spaces(w) + fitted(f.search_line@, w) + Seq::new(
                f.width as nat,
                |i: int| '\u{2500}',
            );
            let results = rows_text(
                row_views(f.rows@),
                f.selected,
                f.term@,
                w,
                f.layout.result_rows as int,
            );
            match f.preview {
                Some(p) if f.layout.preview_rows > 0 => frame_text(f) == top + results + (
                preview_title(p.name@, w) + preview_text(
                    views(p.lines@),
                    preview_start(p.highlight as int, f.layout.preview_rows as int),
                    p.highlight as int,
                    f.term@,
                    w,
                    f.layout.preview_rows as int,
                )),
                _ => frame_text(f) == top + results,
            }
        }),
{
    let w = f.width as int;
    assert(bars(w) =~= Seq::new(f.width as nat, |i: int| '\u{2500}'));
    let all = frame_text(f);
    let top = fitted(f.header@, w) + spaces(w) + fitted(f.search_line@, w) + bars(w);
    let results = rows_text(
        row_views(f.rows@),
        f.selected,
        f.term@,
        w,
        f.layout.result_rows as int,
    );
    assert(top + results + Seq::<char>::empty() =~= top + results);
}

/// The help shows its lines from the first one on the screen on, and blanks behind the last one.
pub proof fn law_help_shows_lines(lines: Seq<Seq<char>>, scroll: int, w: int, n: int)
    requires
        n >= 0,
        scroll >= 0,
    ensures
        help_rows(lines, scroll, w, 0).len() == 0,
        help_rows(lines, scroll, w, n + 1) == help_rows(lines, scroll, w, n) + (if scroll + n
            < lines.len() {
            fitted(lines[scroll + n], w)
        } else {
            spaces(w)
        }),
{
}

/// What files are marked as: source text, pictures, sound, films, archives, programs and office
/// documents as such, and all others as nothing.
pub proof fn law_marks(ext: Seq<char>)
    ensures
        tag_of(false, ext) == "SRC"@ <==> seq![
            "rs"@,
            "py"@,
            "js"@,
            "ts"@,
            "c"@,
            "cpp"@,
            "java"@,
            "go"@,
        ].contains(ext),
        tag_of(false, ext) == "IMG"@ <==> seq![
            "jpg"@,
            "png"@,
            "gif"@,
            "bmp"@,
            "svg"@,
            "webp"@,
        ].contains(ext),
        tag_of(false, ext) == "AUD"@ <==> seq![
            "mp3"@,
            "wav"@,
            "flac"@,
            "ogg"@,
            "m4a"@,
        ].contains(ext),
        tag_of(false, ext) == "VID"@ <==> seq![
            "mp4"@,
            "mkv"@,
            "avi"@,
            "mov"@,
            "webm"@,
        ].contains(ext),
        tag_of(false, ext) == "ZIP"@ <==> seq!["zip"@, "rar"@, "7z"@, "tar"@, "gz"@].contains(ext),
        tag_of(false, ext) == "EXE"@ <==> seq!["exe"@, "msi"@].contains(ext),
        tag_of(false, ext) == "PDF"@ <==> seq!["pdf"@].contains(ext),
        tag_of(false, ext) == "DOC"@ <==> seq!["doc"@, "docx"@].contains(ext),
        tag_of(false, ext) == "XLS"@ <==> seq!["xls"@, "xlsx"@].contains(ext),
{
    lemma_marks_differ();
    lemma_marked_extensions();
    let src = seq!["rs"@, "py"@, "js"@, "ts"@, "c"@, "cpp"@, "java"@, "go"@];
    assert(src[0] == "rs"@ && src[1] == "py"@ && src[2] == "js"@ && src[3] == "ts"@
        && src[4] == "c"@ && src[5] == "cpp"@ && src[6] == "java"@ && src[7] == "go"@);
    let img = seq!["jpg"@, "png"@, "gif"@, "bmp"@, "svg"@, "webp"@];
    assert(img[0] == "jpg"@ && img[1] == "png"@ && img[2] == "gif"@ && img[3] == "bmp"@
        && img[4] == "svg"@ && img[5] == "webp"@);
    let aud = seq!["mp3"@, "wav"@, "flac"@, "ogg"@, "m4a"@];
    assert(aud[0] == "mp3"@ && aud[1] == "wav"@ && aud[2] == "flac"@ && aud[3] == "ogg"@
        && aud[4] == "m4a"@);
    let vid = seq!["mp4"@, "mkv"@, "avi"@, "mov"@, "webm"@];
    assert(vid[0] == "mp4"@ && vid[1] == "mkv"@ && vid[2] == "avi"@ && vid[3] == "mov"@
        && vid[4] == "webm"@);
    let zip = seq!["zip"@, "rar"@, "7z"@, "tar"@, "gz"@];
    assert(zip[0] == "zip"@ && zip[1] == "rar"@ && zip[2] == "7z"@ && zip[3] == "tar"@
        && zip[4] == "gz"@);
    let exe = seq!["exe"@, "msi"@];
    assert(exe[0] == "exe"@ && exe[1] == "msi"@);
    let pdf = seq!["pdf"@];
    assert(pdf[0] == "pdf"@);
    let doc = seq!["doc"@, "docx"@];
    assert(doc[0] == "doc"@ && doc[1] == "docx"@);
    let xls = seq!["xls"@, "xlsx"@];
    assert(xls[0] == "xls"@ && xls[1] == "xlsx"@);
}

proof fn lemma_marks_differ()
    ensures
        "DIR"@ != "SRC"@ && "DIR"@ != "IMG"@ && "DIR"@ != "AUD"@ && "DIR"@ != "VID"@
            && "DIR"@ != "ZIP"@ && "DIR"@ != "EXE"@ && "DIR"@ != "PDF"@ && "DIR"@ != "DOC"@
            && "DIR"@ != "XLS"@ && "DIR"@ != "   "@,
        "SRC"@ != "IMG"@ && "SRC"@ != "AUD"@ && "SRC"@ != "VID"@ && "SRC"@ != "ZIP"@
            && "SRC"@ != "EXE"@ && "SRC"@ != "PDF"@ && "SRC"@ != "DOC"@ && "SRC"@ != "XLS"@
            && "SRC"@ != "   "@,
        "IMG"@ != "AUD"@ && "IMG"@ != "VID"@ && "IMG"@ != "ZIP"@ && "IMG"@ != "EXE"@
            && "IMG"@ != "PDF"@ && "IMG"@ != "DOC"@ && "IMG"@ != "XLS"@ && "IMG"@ != "   "@,
        "AUD"@ != "VID"@ && "AUD"@ != "ZIP"@ && "AUD"@ != "EXE"@ && "AUD"@ != "PDF"@
            && "AUD"@ != "DOC"@ && "AUD"@ != "XLS"@ && "AUD"@ != "   "@,
        "VID"@ != "ZIP"@ && "VID"@ != "EXE"@ && "VID"@ != "PDF"@ && "VID"@ != "DOC"@
            && "VID"@ != "XLS"@ && "VID"@ != "   "@,
        "ZIP"@ != "EXE"@ && "ZIP"@ != "PDF"@ && "ZIP"@ != "DOC"@ && "ZIP"@ != "XLS"@
            && "ZIP"@ != "   "@,
        "EXE"@ != "PDF"@ && "EXE"@ != "DOC"@ && "EXE"@ != "XLS"@ && "EXE"@ != "   "@,
        "PDF"@ != "DOC"@ && "PDF"@ != "XLS"@ && "PDF"@ != "   "@,
        "DOC"@ != "XLS"@ && "DOC"@ != "   "@,
        "XLS"@ != "   "@,
{
    reveal_strlit("DIR");
    reveal_strlit("SRC");
    reveal_strlit("IMG");
    reveal_strlit("AUD");
    reveal_strlit("VID");
    reveal_strlit("ZIP");
    reveal_strlit("EXE");
    reveal_strlit("PDF");
    reveal_strlit("DOC");
    reveal_strlit("XLS");
    reveal_strlit("   ");
    assert("DIR"@[0] == 'D' && "DIR"@[1] == 'I');
    assert("SRC"@[0] == 'S' && "SRC"@[1] == 'R');
    assert("IMG"@[0] == 'I' && "IMG"@[1] == 'M');
    assert("AUD"@[0] == 'A' && "AUD"@[1] == 'U');
    assert("VID"@[0] == 'V' && "VID"@[1] == 'I');
    assert("ZIP"@[0] == 'Z' && "ZIP"@[1] == 'I');
    assert("EXE"@[0] == 'E' && "EXE"@[1] == 'X');
    assert("PDF"@[0] == 'P' && "PDF"@[1] == 'D');
    assert("DOC"@[0] == 'D' && "DOC"@[1] == 'O');
    assert("XLS"@[0] == 'X' && "XLS"@[1] == 'L');
    assert("   "@[0] == ' ' && "   "@[1] == ' ');
}

/// The extensions that are marked differ.
proof fn lemma_marked_extensions()
    ensures
        "rs"@ != "jpg"@ && "rs"@ != "png"@ && "rs"@ != "gif"@ && "rs"@ != "bmp"@
            && "rs"@ != "svg"@ && "rs"@ != "webp"@ && "rs"@ != "mp3"@ && "rs"@ != "wav"@
            && "rs"@ != "flac"@ && "rs"@ != "ogg"@ && "rs"@ != "m4a"@ && "rs"@ != "mp4"@
            && "rs"@ != "mkv"@ && "rs"@ != "avi"@ && "rs"@ != "mov"@ && "rs"@ != "webm"@
            && "rs"@ != "zip"@ && "rs"@ != "rar"@ && "rs"@ != "7z"@ && "rs"@ != "tar"@
            && "rs"@ != "gz"@ && "rs"@ != "exe"@ && "rs"@ != "msi"@ && "rs"@ != "pdf"@
            && "rs"@ != "doc"@ && "rs"@ != "docx"@ && "rs"@ != "xls"@ && "rs"@ != "xlsx"@,
        "py"@ != "jpg"@ && "py"@ != "png"@ && "py"@ != "gif"@ && "py"@ != "bmp"@
            && "py"@ != "svg"@ && "py"@ != "webp"@ && "py"@ != "mp3"@ && "py"@ != "wav"@
            && "py"@ != "flac"@ && "py"@ != "ogg"@ && "py"@ != "m4a"@ && "py"@ != "mp4"@
            && "py"@ != "mkv"@ && "py"@ != "avi"@ && "py"@ != "mov"@ && "py"@ != "webm"@
            && "py"@ != "zip"@ && "py"@ != "rar"@ && "py"@ != "7z"@ && "py"@ != "tar"@
            && "py"@ != "gz"@ && "py"@ != "exe"@ && "py"@ != "msi"@ && "py"@ != "pdf"@
            && "py"@ != "doc"@ && "py"@ != "docx"@ && "py"@ != "xls"@ && "py"@ != "xlsx"@,
        "js"@ != "jpg"@ && "js"@ != "png"@ && "js"@ != "gif"@ && "js"@ != "bmp"@
            && "js"@ != "svg"@ && "js"@ != "webp"@ && "js"@ != "mp3"@ && "js"@ != "wav"@
            && "js"@ != "flac"@ && "js"@ != "ogg"@ && "js"@ != "m4a"@ && "js"@ != "mp4"@
            && "js"@ != "mkv"@ && "js"@ != "avi"@ && "js"@ != "mov"@ && "js"@ != "webm"@
            && "js"@ != "zip"@ && "js"@ != "rar"@ && "js"@ != "7z"@ && "js"@ != "tar"@
            && "js"@ != "gz"@ && "js"@ != "exe"@ && "js"@ != "msi"@ && "js"@ != "pdf"@
            && "js"@ != "doc"@ && "js"@ != "docx"@ && "js"@ != "xls"@ && "js"@ != "xlsx"@,
        "ts"@ != "jpg"@ && "ts"@ != "png"@ && "ts"@ != "gif"@ && "ts"@ != "bmp"@
            && "ts"@ != "svg"@ && "ts"@ != "webp"@ && "ts"@ != "mp3"@ && "ts"@ != "wav"@
            && "ts"@ != "flac"@ && "ts"@ != "ogg"@ && "ts"@ != "m4a"@ && "ts"@ != "mp4"@
            && "ts"@ != "mkv"@ && "ts"@ != "avi"@ && "ts"@ != "mov"@ && "ts"@ != "webm"@
            && "ts"@ != "zip"@ && "ts"@ != "rar"@ && "ts"@ != "7z"@ && "ts"@ != "tar"@
            && "ts"@ != "gz"@ && "ts"@ != "exe"@ && "ts"@ != "msi"@ && "ts"@ != "pdf"@
            && "ts"@ != "doc"@ && "ts"@ != "docx"@ && "ts"@ != "xls"@ && "ts"@ != "xlsx"@,
        "c"@ != "jpg"@ && "c"@ != "png"@ && "c"@ != "gif"@ && "c"@ != "bmp"@ && "c"@ != "svg"@
            && "c"@ != "webp"@ && "c"@ != "mp3"@ && "c"@ != "wav"@ && "c"@ != "flac"@
            && "c"@ != "ogg"@ && "c"@ != "m4a"@ && "c"@ != "mp4"@ && "c"@ != "mkv"@
            && "c"@ != "avi"@ && "c"@ != "mov"@ && "c"@ != "webm"@ && "c"@ != "zip"@
            && "c"@ != "rar"@ && "c"@ != "7z"@ && "c"@ != "tar"@ && "c"@ != "gz"@
            && "c"@ != "exe"@ && "c"@ != "msi"@ && "c"@ != "pdf"@ && "c"@ != "doc"@
            && "c"@ != "docx"@ && "c"@ != "xls"@ && "c"@ != "xlsx"@,
        "cpp"@ != "jpg"@ && "cpp"@ != "png"@ && "cpp"@ != "gif"@ && "cpp"@ != "bmp"@
            && "cpp"@ != "svg"@ && "cpp"@ != "webp"@ && "cpp"@ != "mp3"@ && "cpp"@ != "wav"@
            && "cpp"@ != "flac"@ && "cpp"@ != "ogg"@ && "cpp"@ != "m4a"@ && "cpp"@ != "mp4"@
            && "cpp"@ != "mkv"@ && "cpp"@ != "avi"@ && "cpp"@ != "mov"@ && "cpp"@ != "webm"@
            && "cpp"@ != "zip"@ && "cpp"@ != "rar"@ && "cpp"@ != "7z"@ && "cpp"@ != "tar"@
            && "cpp"@ != "gz"@ && "cpp"@ != "exe"@ && "cpp"@ != "msi"@ && "cpp"@ != "pdf"@
            && "cpp"@ != "doc"@ && "cpp"@ != "docx"@ && "cpp"@ != "xls"@ && "cpp"@ != "xlsx"@,
        "java"@ != "jpg"@ && "java"@ != "png"@ && "java"@ != "gif"@ && "java"@ != "bmp"@
            && "java"@ != "svg"@ && "java"@ != "webp"@ && "java"@ != "mp3"@ && "java"@ != "wav"@
            && "java"@ != "flac"@ && "java"@ != "ogg"@ && "java"@ != "m4a"@ && "java"@ != "mp4"@
            && "java"@ != "mkv"@ && "java"@ != "avi"@ && "java"@ != "mov"@ && "java"@ != "webm"@
            && "java"@ != "zip"@ && "java"@ != "rar"@ && "java"@ != "7z"@ && "java"@ != "tar"@
            && "java"@ != "gz"@ && "java"@ != "exe"@ && "java"@ != "msi"@ && "java"@ != "pdf"@
            && "java"@ != "doc"@ && "java"@ != "docx"@ && "java"@ != "xls"@ && "java"@ != "xlsx"@,
        "go"@ != "jpg"@ && "go"@ != "png"@ && "go"@ != "gif"@ && "go"@ != "bmp"@
            && "go"@ != "svg"@ && "go"@ != "webp"@ && "go"@ != "mp3"@ && "go"@ != "wav"@
            && "go"@ != "flac"@ && "go"@ != "ogg"@ && "go"@ != "m4a"@ && "go"@ != "mp4"@
            && "go"@ != "mkv"@ && "go"@ != "avi"@ && "go"@ != "mov"@ && "go"@ != "webm"@
            && "go"@ != "zip"@ && "go"@ != "rar"@ && "go"@ != "7z"@ && "go"@ != "tar"@
            && "go"@ != "gz"@ && "go"@ != "exe"@ && "go"@ != "msi"@ && "go"@ != "pdf"@
            && "go"@ != "doc"@ && "go"@ != "docx"@ && "go"@ != "xls"@ && "go"@ != "xlsx"@,
        "jpg"@ != "mp3"@ && "jpg"@ != "wav"@ && "jpg"@ != "flac"@ && "jpg"@ != "ogg"@
            && "jpg"@ != "m4a"@ && "jpg"@ != "mp4"@ && "jpg"@ != "mkv"@ && "jpg"@ != "avi"@
            && "jpg"@ != "mov"@ && "jpg"@ != "webm"@ && "jpg"@ != "zip"@ && "jpg"@ != "rar"@
            && "jpg"@ != "7z"@ && "jpg"@ != "tar"@ && "jpg"@ != "gz"@ && "jpg"@ != "exe"@
            && "jpg"@ != "msi"@ && "jpg"@ != "pdf"@ && "jpg"@ != "doc"@ && "jpg"@ != "docx"@
            && "jpg"@ != "xls"@ && "jpg"@ != "xlsx"@,
        "png"@ != "mp3"@ && "png"@ != "wav"@ && "png"@ != "flac"@ && "png"@ != "ogg"@
            && "png"@ != "m4a"@ && "png"@ != "mp4"@ && "png"@ != "mkv"@ && "png"@ != "avi"@
            && "png"@ != "mov"@ && "png"@ != "webm"@ && "png"@ != "zip"@ && "png"@ != "rar"@
            && "png"@ != "7z"@ && "png"@ != "tar"@ && "png"@ != "gz"@ && "png"@ != "exe"@
            && "png"@ != "msi"@ && "png"@ != "pdf"@ && "png"@ != "doc"@ && "png"@ != "docx"@
            && "png"@ != "xls"@ && "png"@ != "xlsx"@,
        "gif"@ != "mp3"@ && "gif"@ != "wav"@ && "gif"@ != "flac"@ && "gif"@ != "ogg"@
            && "gif"@ != "m4a"@ && "gif"@ != "mp4"@ && "gif"@ != "mkv"@ && "gif"@ != "avi"@
            && "gif"@ != "mov"@ && "gif"@ != "webm"@ && "gif"@ != "zip"@ && "gif"@ != "rar"@
            && "gif"@ != "7z"@ && "gif"@ != "tar"@ && "gif"@ != "gz"@ && "gif"@ != "exe"@
            && "gif"@ != "msi"@ && "gif"@ != "pdf"@ && "gif"@ != "doc"@ && "gif"@ != "docx"@
            && "gif"@ != "xls"@ && "gif"@ != "xlsx"@,
        "bmp"@ != "mp3"@ && "bmp"@ != "wav"@ && "bmp"@ != "flac"@ && "bmp"@ != "ogg"@
            && "bmp"@ != "m4a"@ && "bmp"@ != "mp4"@ && "bmp"@ != "mkv"@ && "bmp"@ != "avi"@
            && "bmp"@ != "mov"@ && "bmp"@ != "webm"@ && "bmp"@ != "zip"@ && "bmp"@ != "rar"@
            && "bmp"@ != "7z"@ && "bmp"@ != "tar"@ && "bmp"@ != "gz"@ && "bmp"@ != "exe"@
            && "bmp"@ != "msi"@ && "bmp"@ != "pdf"@ && "bmp"@ != "doc"@ && "bmp"@ != "docx"@
            && "bmp"@ != "xls"@ && "bmp"@ != "xlsx"@,
        "svg"@ != "mp3"@ && "svg"@ != "wav"@ && "svg"@ != "flac"@ && "svg"@ != "ogg"@
            && "svg"@ != "m4a"@ && "svg"@ != "mp4"@ && "svg"@ != "mkv"@ && "svg"@ != "avi"@
            && "svg"@ != "mov"@ && "svg"@ != "webm"@ && "svg"@ != "zip"@ && "svg"@ != "rar"@
            && "svg"@ != "7z"@ && "svg"@ != "tar"@ && "svg"@ != "gz"@ && "svg"@ != "exe"@
            && "svg"@ != "msi"@ && "svg"@ != "pdf"@ && "svg"@ != "doc"@ && "svg"@ != "docx"@
            && "svg"@ != "xls"@ && "svg"@ != "xlsx"@,
        "webp"@ != "mp3"@ && "webp"@ != "wav"@ && "webp"@ != "flac"@ && "webp"@ != "ogg"@
            && "webp"@ != "m4a"@ && "webp"@ != "mp4"@ && "webp"@ != "mkv"@ && "webp"@ != "avi"@
            && "webp"@ != "mov"@ && "webp"@ != "webm"@ && "webp"@ != "zip"@ && "webp"@ != "rar"@
            && "webp"@ != "7z"@ && "webp"@ != "tar"@ && "webp"@ != "gz"@ && "webp"@ != "exe"@
            && "webp"@ != "msi"@ && "webp"@ != "pdf"@ && "webp"@ != "doc"@ && "webp"@ != "docx"@
            && "webp"@ != "xls"@ && "webp"@ != "xlsx"@,
        "mp3"@ != "mp4"@ && "mp3"@ != "mkv"@ && "mp3"@ != "avi"@ && "mp3"@ != "mov"@
            && "mp3"@ != "webm"@ && "mp3"@ != "zip"@ && "mp3"@ != "rar"@ && "mp3"@ != "7z"@
            && "mp3"@ != "tar"@ && "mp3"@ != "gz"@ && "mp3"@ != "exe"@ && "mp3"@ != "msi"@
            && "mp3"@ != "pdf"@ && "mp3"@ != "doc"@ && "mp3"@ != "docx"@ && "mp3"@ != "xls"@
            && "mp3"@ != "xlsx"@,
        "wav"@ != "mp4"@ && "wav"@ != "mkv"@ && "wav"@ != "avi"@ && "wav"@ != "mov"@
            && "wav"@ != "webm"@ && "wav"@ != "zip"@ && "wav"@ != "rar"@ && "wav"@ != "7z"@
            && "wav"@ != "tar"@ && "wav"@ != "gz"@ && "wav"@ != "exe"@ && "wav"@ != "msi"@
            && "wav"@ != "pdf"@ && "wav"@ != "doc"@ && "wav"@ != "docx"@ && "wav"@ != "xls"@
            && "wav"@ != "xlsx"@,
        "flac"@ != "mp4"@ && "flac"@ != "mkv"@ && "flac"@ != "avi"@ && "flac"@ != "mov"@
            && "flac"@ != "webm"@ && "flac"@ != "zip"@ && "flac"@ != "rar"@ && "flac"@ != "7z"@
            && "flac"@ != "tar"@ && "flac"@ != "gz"@ && "flac"@ != "exe"@ && "flac"@ != "msi"@
            && "flac"@ != "pdf"@ && "flac"@ != "doc"@ && "flac"@ != "docx"@ && "flac"@ != "xls"@
            && "flac"@ != "xlsx"@,
        "ogg"@ != "mp4"@ && "ogg"@ != "mkv"@ && "ogg"@ != "avi"@ && "ogg"@ != "mov"@
            && "ogg"@ != "webm"@ && "ogg"@ != "zip"@ && "ogg"@ != "rar"@ && "ogg"@ != "7z"@
            && "ogg"@ != "tar"@ && "ogg"@ != "gz"@ && "ogg"@ != "exe"@ && "ogg"@ != "msi"@
            && "ogg"@ != "pdf"@ && "ogg"@ != "doc"@ && "ogg"@ != "docx"@ && "ogg"@ != "xls"@
            && "ogg"@ != "xlsx"@,
        "m4a"@ != "mp4"@ && "m4a"@ != "mkv"@ && "m4a"@ != "avi"@ && "m4a"@ != "mov"@
            && "m4a"@ != "webm"@ && "m4a"@ != "zip"@ && "m4a"@ != "rar"@ && "m4a"@ != "7z"@
            && "m4a"@ != "tar"@ && "m4a"@ != "gz"@ && "m4a"@ != "exe"@ && "m4a"@ != "msi"@
            && "m4a"@ != "pdf"@ && "m4a"@ != "doc"@ && "m4a"@ != "docx"@ && "m4a"@ != "xls"@
            && "m4a"@ != "xlsx"@,
        "mp4"@ != "zip"@ && "mp4"@ != "rar"@ && "mp4"@ != "7z"@ && "mp4"@ != "tar"@
            && "mp4"@ != "gz"@ && "mp4"@ != "exe"@ && "mp4"@ != "msi"@ && "mp4"@ != "pdf"@
            && "mp4"@ != "doc"@ && "mp4"@ != "docx"@ && "mp4"@ != "xls"@ && "mp4"@ != "xlsx"@,
        "mkv"@ != "zip"@ && "mkv"@ != "rar"@ && "mkv"@ != "7z"@ && "mkv"@ != "tar"@
            && "mkv"@ != "gz"@ && "mkv"@ != "exe"@ && "mkv"@ != "msi"@ && "mkv"@ != "pdf"@
            && "mkv"@ != "doc"@ && "mkv"@ != "docx"@ && "mkv"@ != "xls"@ && "mkv"@ != "xlsx"@,
        "avi"@ != "zip"@ && "avi"@ != "rar"@ && "avi"@ != "7z"@ && "avi"@ != "tar"@
            && "avi"@ != "gz"@ && "avi"@ != "exe"@ && "avi"@ != "msi"@ && "avi"@ != "pdf"@
            && "avi"@ != "doc"@ && "avi"@ != "docx"@ && "avi"@ != "xls"@ && "avi"@ != "xlsx"@,
        "mov"@ != "zip"@ && "mov"@ != "rar"@ && "mov"@ != "7z"@ && "mov"@ != "tar"@
            && "mov"@ != "gz"@ && "mov"@ != "exe"@ && "mov"@ != "msi"@ && "mov"@ != "pdf"@
            && "mov"@ != "doc"@ && "mov"@ != "docx"@ && "mov"@ != "xls"@ && "mov"@ != "xlsx"@,
        "webm"@ != "zip"@ && "webm"@ != "rar"@ && "webm"@ != "7z"@ && "webm"@ != "tar"@
            && "webm"@ != "gz"@ && "webm"@ != "exe"@ && "webm"@ != "msi"@ && "webm"@ != "pdf"@
            && "webm"@ != "doc"@ && "webm"@ != "docx"@ && "webm"@ != "xls"@ && "webm"@ != "xlsx"@,
        "zip"@ != "exe"@ && "zip"@ != "msi"@ && "zip"@ != "pdf"@ && "zip"@ != "doc"@
            && "zip"@ != "docx"@ && "zip"@ != "xls"@ && "zip"@ != "xlsx"@,
        "rar"@ != "exe"@ && "rar"@ != "msi"@ && "rar"@ != "pdf"@ && "rar"@ != "doc"@
            && "rar"@ != "docx"@ && "rar"@ != "xls"@ && "rar"@ != "xlsx"@,
        "7z"@ != "exe"@ && "7z"@ != "msi"@ && "7z"@ != "pdf"@ && "7z"@ != "doc"@
            && "7z"@ != "docx"@ && "7z"@ != "xls"@ && "7z"@ != "xlsx"@,
        "tar"@ != "exe"@ && "tar"@ != "msi"@ && "tar"@ != "pdf"@ && "tar"@ != "doc"@
            && "tar"@ != "docx"@ && "tar"@ != "xls"@ && "tar"@ != "xlsx"@,
        "gz"@ != "exe"@ && "gz"@ != "msi"@ && "gz"@ != "pdf"@ && "gz"@ != "doc"@
            && "gz"@ != "docx"@ && "gz"@ != "xls"@ && "gz"@ != "xlsx"@,
        "exe"@ != "pdf"@ && "exe"@ != "doc"@ && "exe"@ != "docx"@ && "exe"@ != "xls"@
            && "exe"@ != "xlsx"@,
        "msi"@ != "pdf"@ && "msi"@ != "doc"@ && "msi"@ != "docx"@ && "msi"@ != "xls"@
            && "msi"@ != "xlsx"@,
        "pdf"@ != "doc"@ && "pdf"@ != "docx"@ && "pdf"@ != "xls"@ && "pdf"@ != "xlsx"@,
        "doc"@ != "xls"@ && "doc"@ != "xlsx"@,
        "docx"@ != "xls"@ && "docx"@ != "xlsx"@,
{
    reveal_strlit("rs");
    reveal_strlit("py");
    reveal_strlit("js");
    reveal_strlit("ts");
    reveal_strlit("c");
    reveal_strlit("cpp");
    reveal_strlit("java");
    reveal_strlit("go");
    reveal_strlit("jpg");
    reveal_strlit("png");
    reveal_strlit("gif");
    reveal_strlit("bmp");
    reveal_strlit("svg");
    reveal_strlit("webp");
    reveal_strlit("mp3");
    reveal_strlit("wav");
    reveal_strlit("flac");
    reveal_strlit("ogg");
    reveal_strlit("m4a");
    reveal_strlit("mp4");
    reveal_strlit("mkv");
    reveal_strlit("avi");
    reveal_strlit("mov");
    reveal_strlit("webm");
    reveal_strlit("zip");
    reveal_strlit("rar");
    reveal_strlit("7z");
    reveal_strlit("tar");
    reveal_strlit("gz");
    reveal_strlit("exe");
    reveal_strlit("msi");
    reveal_strlit("pdf");
    reveal_strlit("doc");
    reveal_strlit("docx");
    reveal_strlit("xls");
    reveal_strlit("xlsx");
    assert("rs"@.len() == 2 && "rs"@[0] == 'r' && "rs"@[1] == 's');
    assert("py"@.len() == 2 && "py"@[0] == 'p' && "py"@[1] == 'y');
    assert("js"@.len() == 2 && "js"@[0] == 'j' && "js"@[1] == 's');
    assert("ts"@.len() == 2 && "ts"@[0] == 't' && "ts"@[1] == 's');
    assert("c"@.len() == 1 && "c"@[0] == 'c');
    assert("cpp"@.len() == 3 && "cpp"@[0] == 'c' && "cpp"@[1] == 'p' && "cpp"@[2] == 'p');
    assert("java"@.len() == 4 && "java"@[0] == 'j' && "java"@[1] == 'a' && "java"@[2] == 'v'
        && "java"@[3] == 'a');
    assert("go"@.len() == 2 && "go"@[0] == 'g' && "go"@[1] == 'o');
    assert("jpg"@.len() == 3 && "jpg"@[0] == 'j' && "jpg"@[1] == 'p' && "jpg"@[2] == 'g');
    assert("png"@.len() == 3 && "png"@[0] == 'p' && "png"@[1] == 'n' && "png"@[2] == 'g');
    assert("gif"@.len() == 3 && "gif"@[0] == 'g' && "gif"@[1] == 'i' && "gif"@[2] == 'f');
    assert("bmp"@.len() == 3 && "bmp"@[0] == 'b' && "bmp"@[1] == 'm' && "bmp"@[2] == 'p');
    assert("svg"@.len() == 3 && "svg"@[0] == 's' && "svg"@[1] == 'v' && "svg"@[2] == 'g');
    assert("webp"@.len() == 4 && "webp"@[0] == 'w' && "webp"@[1] == 'e' && "webp"@[2] == 'b'
        && "webp"@[3] == 'p');
    assert("mp3"@.len() == 3 && "mp3"@[0] == 'm' && "mp3"@[1] == 'p' && "mp3"@[2] == '3');
    assert("wav"@.len() == 3 && "wav"@[0] == 'w' && "wav"@[1] == 'a' && "wav"@[2] == 'v');
    assert("flac"@.len() == 4 && "flac"@[0] == 'f' && "flac"@[1] == 'l' && "flac"@[2] == 'a'
        && "flac"@[3] == 'c');
    assert("ogg"@.len() == 3 && "ogg"@[0] == 'o' && "ogg"@[1] == 'g' && "ogg"@[2] == 'g');
    assert("m4a"@.len() == 3 && "m4a"@[0] == 'm' && "m4a"@[1] == '4' && "m4a"@[2] == 'a');
    assert("mp4"@.len() == 3 && "mp4"@[0] == 'm' && "mp4"@[1] == 'p' && "mp4"@[2] == '4');
    assert("mkv"@.len() == 3 && "mkv"@[0] == 'm' && "mkv"@[1] == 'k' && "mkv"@[2] == 'v');
    assert("avi"@.len() == 3 && "avi"@[0] == 'a' && "avi"@[1] == 'v' && "avi"@[2] == 'i');
    assert("mov"@.len() == 3 && "mov"@[0] == 'm' && "mov"@[1] == 'o' && "mov"@[2] == 'v');
    assert("webm"@.len() == 4 && "webm"@[0] == 'w' && "webm"@[1] == 'e' && "webm"@[2] == 'b'
        && "webm"@[3] == 'm');
    assert("zip"@.len() == 3 && "zip"@[0] == 'z' && "zip"@[1] == 'i' && "zip"@[2] == 'p');
    assert("rar"@.len() == 3 && "rar"@[0] == 'r' && "rar"@[1] == 'a' && "rar"@[2] == 'r');
    assert("7z"@.len() == 2 && "7z"@[0] == '7' && "7z"@[1] == 'z');
    assert("tar"@.len() == 3 && "tar"@[0] == 't' && "tar"@[1] == 'a' && "tar"@[2] == 'r');
    assert("gz"@.len() == 2 && "gz"@[0] == 'g' && "gz"@[1] == 'z');
    assert("exe"@.len() == 3 && "exe"@[0] == 'e' && "exe"@[1] == 'x' && "exe"@[2] == 'e');
    assert("msi"@.len() == 3 && "msi"@[0] == 'm' && "msi"@[1] == 's' && "msi"@[2] == 'i');
    assert("pdf"@.len() == 3 && "pdf"@[0] == 'p' && "pdf"@[1] == 'd' && "pdf"@[2] == 'f');
    assert("doc"@.len() == 3 && "doc"@[0] == 'd' && "doc"@[1] == 'o' && "doc"@[2] == 'c');
    assert("docx"@.len() == 4 && "docx"@[0] == 'd' && "docx"@[1] == 'o' && "docx"@[2] == 'c'
        && "docx"@[3] == 'x');
    assert("xls"@.len() == 3 && "xls"@[0] == 'x' && "xls"@[1] == 'l' && "xls"@[2] == 's');
    assert("xlsx"@.len() == 4 && "xlsx"@[0] == 'x' && "xlsx"@[1] == 'l' && "xlsx"@[2] == 's'
        && "xlsx"@[3] == 'x');
}

/// The note of a running search is as wide as the terminal. It shows none to three dots in turn, one
/// more with every beat, and behind the room for them how long the search has run: so nothing but
/// the dots moves from one beat to the next.
pub proof fn law_running_search_note(beat: int, millis: Seq<char>, w: int)
    requires
        beat >= 0,
        w >= 0,
    ensures
        searching_text(beat, millis, w).len() == w,
        searching_text(beat + 4, millis, w) == searching_text(beat, millis, w),
        forall|k: int|
            0 <= k < 4 && 11 + k < w ==> #[trigger] searching_text(beat, millis, w)[11 + k] == (if k
                < beat % 4 {
                '.'
            } else {
                ' '
            }),
        17 + millis.len() <= w ==> searching_text(beat, millis, w).subrange(
            17,
            17 + millis.len() as int,
        ) == millis,
        forall|i: int|
            0 <= i < w && !(11 <= i < 15) ==> #[trigger] searching_text(beat, millis, w)[i]
                == searching_text(beat + 1, millis, w)[i],
{
    reveal_strlit("  Searching");
    reveal_strlit(" (");
    reveal_strlit("ms) \u{2014} press Esc to cancel");
    assert("  Searching"@.len() == 11);
    assert(" ("@.len() == 2);
    assert((beat + 4) % 4 == beat % 4);
    let note = searching_text(beat, millis, w);
    if 17 + millis.len() <= w {
        assert(note.subrange(17, 17 + millis.len() as int) =~= millis);
    }
}

/// The footer of the help is as wide as the terminal. It names the keys that scroll, and the place
/// that is shown and the last one, counted from one, exactly where the help can be scrolled.
pub proof fn law_help_footer(scroll: int, most: int, w: int)
    requires
        0 <= scroll <= most,
        w >= 80,
        decimal((scroll + 1) as nat).len() + decimal((most + 1) as nat).len() <= 30,
    ensures
        help_footer_text(scroll, most, w).len() == w,
        ({
            let place = "["@ + decimal((scroll + 1) as nat) + "/"@ + decimal((most + 1) as nat)
                + "]"@;
            most > 0 ==> help_footer_text(scroll, most, w).subrange(42, 42 + place.len() as int)
                == place
        }),
        most == 0 ==> help_footer_text(scroll, most, w).subrange(0, 31)
            == "  Press F1 or Esc to close help"@,
{
    reveal_strlit("  F1/Esc:close | Up/Down/PgUp/PgDn:scroll [");
    reveal_strlit("  Press F1 or Esc to close help");
    reveal_strlit("[");
    reveal_strlit("/");
    reveal_strlit("]");
    let front = "  F1/Esc:close | Up/Down/PgUp/PgDn:scroll ["@;
    assert(front.len() == 43);
    assert(front[42] == '[');
    assert("  Press F1 or Esc to close help"@.len() == 31);
    let shown = help_footer_text(scroll, most, w);
    let place = "["@ + decimal((scroll + 1) as nat) + "/"@ + decimal((most + 1) as nat) + "]"@;
    if most > 0 {
        assert(shown.subrange(42, 42 + place.len() as int) =~= place);
    } else {
        assert(shown.subrange(0, 31) =~= "  Press F1 or Esc to close help"@);
    }
}

} // verus!
