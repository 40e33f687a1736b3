//! What holds of the text that is shown.
use vstd::prelude::*;
use vstd::utf8::*;

use crate::display::{
    cut_after, end_from, fitted, fitted_styled, lemma_piece_from, marked_term, open_after,
    piece_from, safe_char, sanitized, spaces, stands_at, term_split, visible, visible_after,
};
use crate::text::{ascii_letter, ascii_lower, lowercase};
use crate::utf8::{
    first_from, first_occurrence, lemma_first_from, lemma_occurs_iff_found, occurs, occurs_at,
};

verus! {

/// A text fitted to a width has exactly that many characters.
pub proof fn law_fit_has_width(s: Seq<char>, w: int)
    requires
        w >= 0,
    ensures
        fitted(s, w).len() == w,
{
}

/// Nothing that is left of a text after sanitizing could be taken for a command or a line break;
/// sanitizing again changes nothing, and a text of safe characters is left as it is.
pub proof fn law_sanitized_is_safe(s: Seq<char>)
    ensures
        forall|i: int| 0 <= i < sanitized(s).len() ==> safe_char(#[trigger] sanitized(s)[i]),
        sanitized(sanitized(s)) == sanitized(s),
        (forall|i: int| 0 <= i < s.len() ==> safe_char(#[trigger] s[i])) ==> sanitized(s) == s,
{
    let keep = |c: char| safe_char(c);
    assert forall|i: int| 0 <= i < sanitized(s).len() implies safe_char(
        #[trigger] sanitized(s)[i],
    ) by {
        s.lemma_filter_pred(keep, i);
    }
    lemma_all_kept(sanitized(s));
    if forall|i: int| 0 <= i < s.len() ==> safe_char(#[trigger] s[i]) {
        lemma_all_kept(s);
    }
}

proof fn lemma_all_kept(s: Seq<char>)
    requires
        forall|i: int| 0 <= i < s.len() ==> safe_char(#[trigger] s[i]),
    ensures
        sanitized(s) == s,
    decreases s.len(),
{
    reveal(Seq::filter);
    if s.len() > 0 {
        let front = s.drop_last();
        assert forall|i: int| 0 <= i < front.len() implies safe_char(#[trigger] front[i]) by {
            assert(front[i] == s[i]);
        }
        lemma_all_kept(front);
        assert(safe_char(s[s.len() - 1]));
        assert(s =~= front.push(s.last()));
    }
}

/// A sanitized text holds no escape character.
pub proof fn lemma_sanitized_has_no_escape(s: Seq<char>)
    ensures
        !sanitized(s).contains('\x1b'),
{
    law_sanitized_is_safe(s);
    if sanitized(s).contains('\x1b') {
        let i = choose|i: int| 0 <= i < sanitized(s).len() && sanitized(s)[i] == '\x1b';
        assert(safe_char(sanitized(s)[i]));
    }
}

/// What is visible of two texts, one behind the other.
pub proof fn lemma_visible_concat(in_escape: bool, a: Seq<char>, b: Seq<char>)
    ensures
        visible_after(in_escape, a + b) == visible_after(in_escape, a) + visible_after(
            open_after(in_escape, a),
            b,
        ),
        open_after(in_escape, a + b) == open_after(open_after(in_escape, a), b),
    decreases a.len(),
{
    if a.len() == 0 {
        assert(a + b =~= b);
        assert(visible_after(in_escape, a) + visible_after(in_escape, b) =~= visible_after(
            in_escape,
            b,
        ));
    } else {
        let rest = a.drop_first();
        assert((a + b).drop_first() =~= rest + b);
        assert((a + b)[0] == a[0]);
        if in_escape {
            lemma_visible_concat(!ascii_letter(a[0]), rest, b);
        } else if a[0] == '\x1b' {
            lemma_visible_concat(true, rest, b);
        } else {
            lemma_visible_concat(false, rest, b);
            assert(seq![a[0]] + (visible_after(false, rest) + visible_after(
                open_after(false, rest),
                b,
            )) =~= (seq![a[0]] + visible_after(false, rest)) + visible_after(
                open_after(false, rest),
                b,
            ));
        }
    }
}

/// A text without escape characters is visible as it is.
pub proof fn lemma_plain_is_visible(s: Seq<char>)
    requires
        !s.contains('\x1b'),
    ensures
        visible(s) == s,
        !open_after(false, s),
    decreases s.len(),
{
    if s.len() > 0 {
        let rest = s.drop_first();
        assert(s.contains(s[0]));
        assert(!rest.contains('\x1b')) by {
            if rest.contains('\x1b') {
                let k = choose|k: int| 0 <= k < rest.len() && rest[k] == '\x1b';
                assert(s[k + 1] == '\x1b');
            }
        }
        lemma_plain_is_visible(rest);
        assert(seq![s[0]] + rest =~= s);
    }
}

/// Where exactly `left` visible characters are cut off, these are the first ones.
proof fn lemma_cut_visible(in_escape: bool, s: Seq<char>, left: int)
    requires
        0 <= left <= visible_after(in_escape, s).len(),
    ensures
        visible_after(in_escape, cut_after(in_escape, s, left)) == visible_after(
            in_escape,
            s,
        ).take(left),
    decreases s.len(),
{
    if s.len() == 0 {
        assert(visible_after(in_escape, s).take(left) =~= Seq::<char>::empty());
    } else {
        let rest = s.drop_first();
        if in_escape {
            let e = !ascii_letter(s[0]);
            lemma_cut_visible(e, rest, left);
            let cut = seq![s[0]] + cut_after(e, rest, left);
            assert(cut.drop_first() =~= cut_after(e, rest, left));
        } else if s[0] == '\x1b' {
            lemma_cut_visible(true, rest, left);
            let cut = seq![s[0]] + cut_after(true, rest, left);
            assert(cut.drop_first() =~= cut_after(true, rest, left));
        } else if left == 0 {
            assert(visible_after(in_escape, s).take(0) =~= Seq::<char>::empty());
        } else {
            lemma_cut_visible(false, rest, left - 1);
            let cut = seq![s[0]] + cut_after(false, rest, left - 1);
            assert(cut.drop_first() =~= cut_after(false, rest, left - 1));
            assert(visible_after(false, s).take(left) =~= seq![s[0]] + visible_after(
                false,
                rest,
            ).take(left - 1));
        }
    }
}

/// The sequence that resets the style shows nothing and closes what is open.
pub proof fn lemma_reset(in_escape: bool)
    ensures
        visible_after(in_escape, "\x1b[0m"@) == Seq::<char>::empty(),
        !open_after(in_escape, "\x1b[0m"@),
{
    reveal_strlit("\x1b[0m");
    reveal_with_fuel(visible_after, 5);
    reveal_with_fuel(open_after, 5);
    let s = "\x1b[0m"@;
    assert(s =~= seq!['\x1b', '[', '0', 'm']);
    assert(s.drop_first() =~= seq!['[', '0', 'm']);
    assert(s.drop_first().drop_first() =~= seq!['0', 'm']);
    assert(s.drop_first().drop_first().drop_first() =~= seq!['m']);
    assert(s.drop_first().drop_first().drop_first().drop_first() =~= Seq::<char>::empty());
}

/// A styled text fitted to a width shows what the text fitted to that width shows, and so exactly
/// as many characters. A text that is too short and ends within an escape sequence is the
/// exception: what fills it would be read as part of the sequence.
pub proof fn law_fit_styled_has_width(s: Seq<char>, w: int)
    requires
        w >= 0,
        visible(s).len() >= w || !open_after(false, s),
    ensures
        visible(fitted_styled(s, w)) == fitted(visible(s), w),
        visible(fitted_styled(s, w)).len() == w,
{
    if visible(s).len() >= w {
        let cut = cut_after(false, s, w);
        lemma_cut_visible(false, s, w);
        lemma_visible_concat(false, cut, "\x1b[0m"@);
        lemma_reset(open_after(false, cut));
        assert(visible(s).take(w) + Seq::<char>::empty() =~= visible(s).take(w));
    } else {
        let fill = spaces(w - visible(s).len());
        lemma_visible_concat(false, s, fill);
        assert(!fill.contains('\x1b'));
        lemma_plain_is_visible(fill);
    }
}

/// A sequence that sets a style: it shows nothing and leaves no sequence open.
spec fn sets_style(s: Seq<char>) -> bool {
    visible(s) == Seq::<char>::empty() && !open_after(false, s)
}

/// The bold red that marks a term.
proof fn lemma_bold_red()
    ensures
        sets_style("\x1b[1;31m"@),
{
    reveal_strlit("\x1b[1;31m");
    reveal_with_fuel(visible_after, 8);
    reveal_with_fuel(open_after, 8);
    let s0 = "\x1b[1;31m"@;
    let s1 = s0.drop_first();
    let s2 = s1.drop_first();
    let s3 = s2.drop_first();
    let s4 = s3.drop_first();
    let s5 = s4.drop_first();
    let s6 = s5.drop_first();
    assert(s1 =~= seq!['[', '1', ';', '3', '1', 'm']);
    assert(s2 =~= seq!['1', ';', '3', '1', 'm']);
    assert(s3 =~= seq![';', '3', '1', 'm']);
    assert(s4 =~= seq!['3', '1', 'm']);
    assert(s5 =~= seq!['1', 'm']);
    assert(s6 =~= seq!['m']);
    assert(s6.drop_first() =~= Seq::<char>::empty());
}

/// The pieces that a text is cut into make up the text.
pub proof fn lemma_pieces_make_text(text: Seq<char>, term: Seq<char>)
    ensures
        term_split(text, term) matches Some(s) ==> s.before + s.matched + s.after == text,
{
    lemma_piece_from(text, lowercase(term), 0);
    if let Some(s) = term_split(text, term) {
        assert(s.before + s.matched + s.after =~= text);
    }
}

/// Marking a term shows the same text and leaves no style sequence open, where the text holds no
/// escape character.
proof fn lemma_marked_shows_text(text: Seq<char>, term: Seq<char>, on: Seq<char>)
    requires
        !text.contains('\x1b'),
        sets_style(on),
    ensures
        visible(marked_term(text, term, on, "\x1b[0m"@)) == text,
        !open_after(false, marked_term(text, term, on, "\x1b[0m"@)),
{
    lemma_plain_is_visible(text);
    let off = "\x1b[0m"@;
    lemma_pieces_make_text(text, term);
    if term.len() > 0 {
        if let Some(s) = term_split(text, term) {
            assert forall|c: char| s.before.contains(c) || s.matched.contains(c)
                || s.after.contains(c) implies text.contains(c) by {
                lemma_contains_in_pieces(s.before, s.matched, s.after, c);
            }
            lemma_plain_is_visible(s.before);
            lemma_plain_is_visible(s.matched);
            lemma_plain_is_visible(s.after);
            lemma_reset(false);
            lemma_visible_concat(false, s.before, on);
            lemma_visible_concat(false, s.before + on, s.matched);
            lemma_visible_concat(false, s.before + on + s.matched, off);
            lemma_visible_concat(false, s.before + on + s.matched + off, s.after);
            assert(visible(s.before + on + s.matched + off + s.after) =~= s.before + s.matched
                + s.after);
        }
    }
}

proof fn lemma_contains_in_pieces(a: Seq<char>, b: Seq<char>, c: Seq<char>, x: char)
    requires
        a.contains(x) || b.contains(x) || c.contains(x),
    ensures
        (a + b + c).contains(x),
{
    let all = a + b + c;
    if a.contains(x) {
        let i = choose|i: int| 0 <= i < a.len() && a[i] == x;
        assert(all[i] == x);
    } else if b.contains(x) {
        let i = choose|i: int| 0 <= i < b.len() && b[i] == x;
        assert(all[a.len() + i] == x);
    } else {
        let i = choose|i: int| 0 <= i < c.len() && c[i] == x;
        assert(all[a.len() + b.len() + i] == x);
    }
}

/// Highlighting a term changes nothing of what is read: what is visible is the text, where it
/// holds no escape character.
pub proof fn law_highlight_keeps_text(text: Seq<char>, term: Seq<char>)
    requires
        !text.contains('\x1b'),
    ensures
        visible(marked_term(text, term, "\x1b[1;31m"@, "\x1b[0m"@)) == text,
{
    lemma_bold_red();
    lemma_marked_shows_text(text, term, "\x1b[1;31m"@);
}

/// The lowercase form of an ASCII text is ASCII and has as many characters.
proof fn lemma_ascii_lowercase(s: Seq<char>)
    requires
        is_ascii_chars(s),
    ensures
        is_ascii_chars(lowercase(s)),
        lowercase(s).len() == s.len(),
        forall|i: int| 0 <= i < s.len() ==> #[trigger] lowercase(s)[i] == ascii_lower(s[i]),
{
    assert forall|i: int| 0 <= i < lowercase(s).len() implies '\0' <= #[trigger] lowercase(s)[i]
        <= '\u{7f}' by {
        assert('\0' <= s[i] <= '\u{7f}');
    }
}

/// Highlighting finds the first occurrence, whatever the case: what is marked is the term but for
/// the case of its letters, nothing that begins earlier is, nor anything shorter that begins there;
/// and nothing is marked only where the term does not occur.
pub proof fn law_highlight_finds_first(text: Seq<char>, term: Seq<char>)
    ensures
        term_split(text, term) matches Some(s) ==> {
            &&& s.before + s.matched + s.after == text
            &&& lowercase(s.matched) == lowercase(term)
            &&& forall|i: int, j: int|
                stands_at(text, lowercase(term), i, j) ==> s.before.len() < i || (s.before.len()
                    == i && s.before.len() + s.matched.len() <= j)
        },
        term_split(text, term) is None ==> forall|i: int, j: int|
            !stands_at(text, lowercase(term), i, j),
{
    lemma_piece_from(text, lowercase(term), 0);
    lemma_pieces_make_text(text, term);
    if term_split(text, term) is None {
        assert forall|i: int, j: int| !stands_at(text, lowercase(term), i, j) by {
            if i < 0 {
                assert(!stands_at(text, lowercase(term), i, j));
            }
        }
    }
}

/// Where a piece of an ASCII text ends that is a given text in lowercase.
proof fn lemma_ascii_end(text: Seq<char>, lower: Seq<char>, from: int, to: int)
    requires
        is_ascii_chars(text),
        0 <= from <= to <= text.len(),
        to - from <= lower.len(),
    ensures
        end_from(text, lower, from, to) == (if occurs_at(lowercase(text), lower, from) {
            Some(from + lower.len())
        } else {
            None
        }),
    decreases text.len() - to,
{
    let piece = text.subrange(from, to);
    assert(is_ascii_chars(piece));
    lemma_ascii_lowercase(piece);
    lemma_ascii_lowercase(text);
    if to - from == lower.len() {
        assert(lowercase(piece) =~= lowercase(text).subrange(from, to));
        assert(end_from(text, lower, from, to + 1) is None);
    } else if to < text.len() {
        lemma_ascii_end(text, lower, from, to + 1);
    } else {
        assert(end_from(text, lower, from, to + 1) is None);
    }
}

proof fn lemma_ascii_piece(text: Seq<char>, lower: Seq<char>, from: int)
    requires
        is_ascii_chars(text),
        0 <= from <= text.len(),
    ensures
        piece_from(text, lower, from) == (match first_from(lowercase(text), lower, from) {
            Some(at) => Some((at, at + lower.len())),
            None => None,
        }),
    decreases text.len() - from,
{
    lemma_ascii_lowercase(text);
    lemma_ascii_end(text, lower, from, from);
    if from < text.len() {
        lemma_ascii_piece(text, lower, from + 1);
        if from + lower.len() > text.len() {
            lemma_first_from(lowercase(text), lower, from + 1);
        }
    } else {
        assert(piece_from(text, lower, from + 1) is None);
    }
}

/// In an ASCII text, a term is marked where its lowercase form first stands in that of the text, if
/// it stands in it at all.
pub proof fn law_ascii_highlight(text: Seq<char>, term: Seq<char>)
    requires
        is_ascii_chars(text),
    ensures
        term_split(text, term) is Some <==> occurs(lowercase(text), lowercase(term)),
        term_split(text, term) matches Some(s) ==> first_occurrence(
            lowercase(text),
            lowercase(term),
        ) == Some(s.before.len() as int),
{
    let lower = lowercase(term);
    lemma_ascii_lowercase(text);
    lemma_ascii_piece(text, lower, 0);
    lemma_occurs_iff_found(lowercase(text), lower);
    lemma_piece_from(text, lower, 0);
}

/// A text fitted to a width begins with what there is room for of it, and spaces fill the rest.
pub proof fn law_fit_keeps_the_front(s: Seq<char>, w: int, i: int)
    requires
        0 <= i < w,
    ensures
        fitted(s, w)[i] == (if i < s.len() {
            s[i]
        } else {
            ' '
        }),
{
}

/// What a terminal shows of a text: every character as it is, but for escape sequences, which begin
/// with an escape character and end with the next ASCII letter.
pub proof fn law_visible(c: char, inside: Seq<char>, letter: char, rest: Seq<char>)
    requires
        forall|i: int| 0 <= i < inside.len() ==> !ascii_letter(#[trigger] inside[i]),
        'a' <= letter <= 'z' || 'A' <= letter <= 'Z',
    ensures
        visible(Seq::empty()).len() == 0,
        c != '\x1b' ==> visible(seq![c] + rest) == seq![c] + visible(rest),
        visible(seq!['\x1b'] + inside + seq![letter] + rest) == visible(rest),
{
    assert((seq![c] + rest).drop_first() =~= rest);
    let tail = inside + seq![letter] + rest;
    let all = seq!['\x1b'] + inside + seq![letter] + rest;
    assert(all.drop_first() =~= tail);
    assert(visible(all) == visible_after(true, tail));
    lemma_escape_passed(inside, letter, rest);
}

proof fn lemma_escape_passed(inside: Seq<char>, letter: char, rest: Seq<char>)
    requires
        forall|i: int| 0 <= i < inside.len() ==> !ascii_letter(#[trigger] inside[i]),
        ascii_letter(letter),
    ensures
        visible_after(true, inside + seq![letter] + rest) == visible(rest),
    decreases inside.len(),
{
    let all = inside + seq![letter] + rest;
    if inside.len() == 0 {
        assert(all[0] == letter);
        assert(all.drop_first() =~= rest);
    } else {
        let tail = inside.drop_first();
        assert forall|i: int| 0 <= i < tail.len() implies !ascii_letter(#[trigger] tail[i]) by {
            assert(tail[i] == inside[i + 1]);
        }
        lemma_escape_passed(tail, letter, rest);
        assert(all[0] == inside[0]);
        assert(!ascii_letter(inside[0]));
        assert(all.drop_first() =~= tail + seq![letter] + rest);
    }
}

/// Which characters are safe to show: of the ASCII characters those that can be printed; beyond them
/// all but control characters, line and paragraph separators, marks that are not seen or turn the
/// direction of text, and noncharacters.
pub proof fn law_safe_characters(c: char)
    ensures
        c <= '\u{7f}' ==> (safe_char(c) <==> ' ' <= c <= '~'),
        '\u{80}' <= c <= '\u{9f}' ==> !safe_char(c),
        '\u{a0}' <= c <= '\u{1fff}' ==> safe_char(c),
        '\u{200b}' <= c <= '\u{200f}' ==> !safe_char(c),
        '\u{2028}' <= c <= '\u{202e}' ==> !safe_char(c),
        '\u{2060}' <= c <= '\u{2064}' || '\u{2066}' <= c <= '\u{2069}' ==> !safe_char(c),
        '\u{2070}' <= c <= '\u{fdcf}' ==> safe_char(c),
        c == '\u{feff}' || c == '\u{fffe}' || c == '\u{ffff}' ==> !safe_char(c),
        '\u{10000}' <= c <= '\u{1fffd}' ==> safe_char(c),
{
}

/// Sanitizing goes character by character: what is safe stays, in order, and what is not goes.
pub proof fn law_sanitized_character_by_character(a: Seq<char>, c: char)
    ensures
        sanitized(Seq::empty()).len() == 0,
        sanitized(a.push(c)) == (if safe_char(c) {
            sanitized(a).push(c)
        } else {
            sanitized(a)
        }),
{
    reveal(Seq::filter);
    assert(a.push(c).drop_last() =~= a);
}

/// A term is marked where it first occurs, whatever the case of its letters, with what turns the
/// mark on right before it and what turns it off right behind it; a text without it stays as it is.
pub proof fn law_marked_term(text: Seq<char>, term: Seq<char>, on: Seq<char>, off: Seq<char>)
    requires
        is_ascii_chars(text),
        term.len() > 0,
    ensures
        match first_occurrence(lowercase(text), lowercase(term)) {
            Some(at) => {
                let to = at + lowercase(term).len();
                marked_term(text, term, on, off) == text.take(at) + on + text.subrange(at, to) + off
                    + text.skip(to)
            },
            None => marked_term(text, term, on, off) == text,
        },
{
    let lower = lowercase(term);
    lemma_ascii_lowercase(text);
    lemma_ascii_piece(text, lower, 0);
    lemma_first_from(lowercase(text), lower, 0);
}

/// Without a term nothing is marked.
pub proof fn law_nothing_marked(text: Seq<char>, on: Seq<char>, off: Seq<char>)
    ensures
        marked_term(text, Seq::empty(), on, off) == text,
{
}

/// A marked text is the text with the marks in it, around a piece that is the term but for the case
/// of its letters.
pub proof fn law_marks_surround_the_term(
    text: Seq<char>,
    term: Seq<char>,
    on: Seq<char>,
    off: Seq<char>,
)
    ensures
        marked_term(text, term, on, off) == text || exists|a: Seq<char>, m: Seq<char>, b: Seq<char>|
            {
                &&& text == #[trigger] (a + m + b)
                &&& lowercase(m) == lowercase(term)
                &&& marked_term(text, term, on, off) == a + on + m + off + b
            },
{
    law_highlight_finds_first(text, term);
    if term.len() > 0 {
        if let Some(s) = term_split(text, term) {
            assert(text == s.before + s.matched + s.after);
        }
    }
}

/// A styled text that is fitted to a width keeps its escape sequences: where it is too short, spaces
/// stand behind it, and otherwise a first part of it stands there with the style reset behind it.
pub proof fn law_fit_styled_keeps_styles(s: Seq<char>, w: int)
    ensures
        visible(s).len() < w ==> fitted_styled(s, w) == s + spaces(w - visible(s).len()),
        visible(s).len() >= w ==> exists|k: int|
            0 <= k <= s.len() && fitted_styled(s, w) == #[trigger] s.take(k) + "\x1b[0m"@,
{
    if visible(s).len() >= w {
        let k = lemma_cut_is_front(false, s, w);
        assert(fitted_styled(s, w) == s.take(k) + "\x1b[0m"@);
    }
}

proof fn lemma_cut_is_front(in_escape: bool, s: Seq<char>, left: int) -> (k: int)
    ensures
        0 <= k <= s.len(),
        cut_after(in_escape, s, left) == s.take(k),
    decreases s.len(),
{
    if s.len() == 0 {
        assert(s.take(0) =~= Seq::<char>::empty());
        0
    } else {
        let rest = s.drop_first();
        if in_escape {
            let k = lemma_cut_is_front(!ascii_letter(s[0]), rest, left);
            assert(seq![s[0]] + rest.take(k) =~= s.take(k + 1));
            k + 1
        } else if s[0] == '\x1b' {
            let k = lemma_cut_is_front(true, rest, left);
            assert(seq![s[0]] + rest.take(k) =~= s.take(k + 1));
            k + 1
        } else if left <= 0 {
            assert(s.take(0) =~= Seq::<char>::empty());
            0
        } else {
            let k = lemma_cut_is_front(false, rest, left - 1);
            assert(seq![s[0]] + rest.take(k) =~= s.take(k + 1));
            k + 1
        }
    }
}

} // verus!
