//! Text for the terminal: what is safe to show, and fitting text to a width.
use vstd::prelude::*;
use vstd::string::*;
use vstd::utf8::*;

use crate::text::{
    ascii_letter, ascii_lower, chars_of, control, copy_of, is_ascii_letter, is_control, lowercase,
    str_eq, string_of, to_lowercase,
};

verus! {

/// Whether a character can be shown as it is: it is no control character, no hard line
/// separator, no invisible formatting or direction mark, and no Unicode noncharacter.
pub open spec fn safe_char(c: char) -> bool {
    let u = c as u32;
    &&& !control(c)
    &&& u != 0x2028 && u != 0x2029
    &&& !(0x200b <= u <= 0x200f)
    &&& !(0x202a <= u <= 0x202e)
    &&& !(0x2060 <= u <= 0x2064)
    &&& !(0x2066 <= u <= 0x2069)
    &&& u != 0xfeff
    &&& !(0xfdd0 <= u <= 0xfdef)
    &&& u % 0x10000 < 0xfffe
}

/// Whether `c` can be passed through to the terminal.
pub fn is_safe_terminal_char(c: char) -> (r: bool)
    ensures
        r == safe_char(c),
{
    if is_control(c) {
        return false;
    }
    let u: u32 = c as u32;
    if u == 0x2028 || u == 0x2029 {
        return false;
    }
    if (0x200b <= u && u <= 0x200f) || (0x202a <= u && u <= 0x202e) || (0x2060 <= u && u <= 0x2064)
        || (0x2066 <= u && u <= 0x2069) || u == 0xfeff {
        return false;
    }
    if (0xfdd0 <= u && u <= 0xfdef) || u % 0x10000 >= 0xfffe {
        return false;
    }
    true
}

/// A text without the characters that cannot be shown as they are.
pub open spec fn sanitized(s: Seq<char>) -> Seq<char> {
    s.filter(|c: char| safe_char(c))
}

/// Removes what a terminal could take for a command or a line break.
pub fn sanitize_terminal_text(s: &str) -> (r: String)
    ensures
        r@ == sanitized(s@),
{
    let mut out: String = String::new();
    let ghost keep = |c: char| safe_char(c);
    assert(out@ =~= s@.take(0).filter(keep)) by {
        reveal(Seq::filter);
    }
    for c in it: s.chars()
        invariant
            it.seq() == s@,
            keep == (|c: char| safe_char(c)),
            out@ == s@.take(it.index() as int).filter(keep),
    {
        proof {
            reveal(Seq::filter);
            let now = s@.take(it.index() as int + 1);
            assert(now.drop_last() =~= s@.take(it.index() as int));
            assert(now.last() == c);
        }
        if is_safe_terminal_char(c) {
            out.push(c);
        }
    }
    assert(s@.take(s@.len() as int) =~= s@);
    out
}

/// `n` spaces.
pub open spec fn spaces(n: int) -> Seq<char> {
    Seq::new(
        if n >= 0 {
            n as nat
        } else {
            0
        },
        |i: int| ' ',
    )
}

/// `s` cut or filled with spaces to exactly `w` characters.
pub open spec fn fitted(s: Seq<char>, w: int) -> Seq<char> {
    if s.len() >= w {
        s.take(w)
    } else {
        s + spaces(w - s.len())
    }
}

/// Appends `n` spaces.
pub fn push_spaces(out: &mut String, n: usize)
    ensures
        final(out)@ == old(out)@ + spaces(n as int),
{
    let mut i: usize = 0;
    let ghost before = out@;
    assert(before + spaces(0) =~= before);
    while i < n
        invariant
            i <= n,
            out@ == before + spaces(i as int),
        decreases n - i,
    {
        out.push(' ');
        i += 1;
        assert(out@ =~= before + spaces(i as int));
    }
}

/// Cuts or fills `s` to exactly `w` characters, so that every line of a screen has the same
/// width.
pub fn fit(s: &str, w: usize) -> (r: String)
    ensures
        r@ == fitted(s@, w as int),
{
    let mut out: String = String::new();
    let mut n: usize = 0;
    for c in it: s.chars()
        invariant
            it.seq() == s@,
            n <= w,
            n == (if it.index() < w {
                it.index() as int
            } else {
                w as int
            }),
            out@ == s@.take(n as int),
    {
        if n < w {
            out.push(c);
            n += 1;
            assert(s@.take(n as int) =~= s@.take(n - 1).push(c));
        }
    }
    if n < w {
        assert(s@.take(n as int) =~= s@);
        push_spaces(&mut out, w - n);
    }
    out
}

/// The characters of a text that a terminal shows, where `in_escape` says whether an escape
/// sequence is open: one begins with an escape character and ends with an ASCII letter.
pub open spec fn visible_after(in_escape: bool, s: Seq<char>) -> Seq<char>
    decreases s.len(),
{
    if s.len() == 0 {
        Seq::empty()
    } else if in_escape {
        visible_after(!ascii_letter(s[0]), s.drop_first())
    } else if s[0] == '\x1b' {
        visible_after(true, s.drop_first())
    } else {
        seq![s[0]] + visible_after(false, s.drop_first())
    }
}

/// The characters of a text that a terminal shows.
pub open spec fn visible(s: Seq<char>) -> Seq<char> {
    visible_after(false, s)
}

/// Whether an escape sequence is open behind a text.
pub open spec fn open_after(in_escape: bool, s: Seq<char>) -> bool
    decreases s.len(),
{
    if s.len() == 0 {
        in_escape
    } else if in_escape {
        open_after(!ascii_letter(s[0]), s.drop_first())
    } else {
        open_after(s[0] == '\x1b', s.drop_first())
    }
}

/// Counts the characters that a terminal shows.
pub fn visible_len(s: &str) -> (r: usize)
    ensures
        r == visible(s@).len(),
{
    let mut len: usize = 0;
    let mut in_escape: bool = false;
    let bytes: usize = s.as_bytes().len();
    proof {
        lemma_fewer_chars_than_bytes(s@);
        assert(s@.skip(0) =~= s@);
    }
    for c in it: s.chars()
        invariant
            it.seq() == s@,
            s@.len() <= bytes,
            len <= it.index() <= s@.len(),
            visible(s@).len() == len + visible_after(in_escape, s@.skip(it.index() as int)).len(),
    {
        assert(s@.skip(it.index() as int).drop_first() =~= s@.skip(it.index() as int + 1));
        if in_escape {
            if is_ascii_letter(c) {
                in_escape = false;
            }
        } else if c == '\x1b' {
            in_escape = true;
        } else {
            len += 1;
        }
    }
    assert(s@.skip(s@.len() as int) =~= Seq::<char>::empty());
    len
}

/// A text has no more characters than bytes.
pub proof fn lemma_fewer_chars_than_bytes(s: Seq<char>)
    ensures
        s.len() <= encode_utf8(s).len(),
    decreases s.len(),
{
    if s.len() > 0 {
        lemma_fewer_chars_than_bytes(s.drop_first());
    }
}

/// The longest prefix of a text with no more than `left` visible characters.
pub open spec fn cut_after(in_escape: bool, s: Seq<char>, left: int) -> Seq<char>
    decreases s.len(),
{
    if s.len() == 0 {
        Seq::empty()
    } else if in_escape {
        seq![s[0]] + cut_after(!ascii_letter(s[0]), s.drop_first(), left)
    } else if s[0] == '\x1b' {
        seq![s[0]] + cut_after(true, s.drop_first(), left)
    } else if left <= 0 {
        Seq::empty()
    } else {
        seq![s[0]] + cut_after(false, s.drop_first(), left - 1)
    }
}

/// `s` cut to `w` visible characters and reset, or filled with spaces to as many; escape
/// sequences are kept.
pub open spec fn fitted_styled(s: Seq<char>, w: int) -> Seq<char> {
    if visible(s).len() >= w {
        cut_after(false, s, w) + "\x1b[0m"@
    } else {
        s + spaces(w - visible(s).len())
    }
}

/// Appends to `out` the longest prefix of `s` with no more than `w` visible characters.
fn push_cut(out: &mut String, s: &str, w: usize)
    ensures
        final(out)@ == old(out)@ + cut_after(false, s@, w as int),
{
    let mut left: usize = w;
    let mut in_escape: bool = false;
    let ghost goal = out@ + cut_after(false, s@, w as int);
    assert(s@.skip(0) =~= s@);
    for c in it: s.chars()
        invariant
            it.seq() == s@,
            it.index() <= s@.len(),
            goal == old(out)@ + cut_after(false, s@, w as int),
            goal == out@ + cut_after(in_escape, s@.skip(it.index() as int), left as int),
    {
        let ghost rest = s@.skip(it.index() as int);
        let ghost was = out@;
        assert(rest.drop_first() =~= s@.skip(it.index() as int + 1));
        if in_escape {
            out.push(c);
            if is_ascii_letter(c) {
                in_escape = false;
            }
            assert(was + (seq![c] + cut_after(in_escape, rest.drop_first(), left as int)) =~= out@
                + cut_after(in_escape, rest.drop_first(), left as int));
        } else if c == '\x1b' {
            out.push(c);
            in_escape = true;
            assert(was + (seq![c] + cut_after(in_escape, rest.drop_first(), left as int)) =~= out@
                + cut_after(in_escape, rest.drop_first(), left as int));
        } else if left == 0 {
            assert(goal =~= out@);
            return;
        } else {
            out.push(c);
            left -= 1;
            assert(was + (seq![c] + cut_after(in_escape, rest.drop_first(), left as int)) =~= out@
                + cut_after(in_escape, rest.drop_first(), left as int));
        }
    }
    assert(s@.skip(s@.len() as int) =~= Seq::<char>::empty());
    assert(out@ =~= goal);
}

/// Cuts or fills `s` to `w` visible characters, keeping escape sequences.
pub fn fit_styled(s: &str, w: usize) -> (r: String)
    ensures
        r@ == fitted_styled(s@, w as int),
{
    let vis: usize = visible_len(s);
    let mut out: String = String::new();
    if vis >= w {
        push_cut(&mut out, s, w);
        out.append("\x1b[0m");
        assert(out@ =~= cut_after(false, s@, w as int) + "\x1b[0m"@);
    } else {
        out.append(s);
        push_spaces(&mut out, w - vis);
        assert(out@ =~= s@ + spaces(w - vis));
    }
    out
}

/// The piece `from..to` of a text is `lower` in lowercase. Each character has at least one in
/// lowercase, so only pieces that are no longer than `lower` are looked at.
pub open spec fn stands_at(text: Seq<char>, lower: Seq<char>, from: int, to: int) -> bool {
    &&& 0 <= from <= to <= text.len()
    &&& to - from <= lower.len()
    &&& lowercase(text.subrange(from, to)) == lower
}

/// The least end, not below `to`, of a piece that begins at `from` and is `lower` in lowercase.
pub open spec fn end_from(text: Seq<char>, lower: Seq<char>, from: int, to: int) -> Option<int>
    decreases text.len() + 1 - to,
{
    if to > text.len() || to - from > lower.len() {
        None
    } else if stands_at(text, lower, from, to) {
        Some(to)
    } else {
        end_from(text, lower, from, to + 1)
    }
}

/// The first piece, beginning at `from` or behind it, that is `lower` in lowercase.
pub open spec fn piece_from(text: Seq<char>, lower: Seq<char>, from: int) -> Option<(int, int)>
    decreases text.len() + 1 - from,
{
    if from > text.len() {
        None
    } else {
        match end_from(text, lower, from, from) {
            Some(to) => Some((from, to)),
            None => piece_from(text, lower, from + 1),
        }
    }
}

/// A text in three pieces: what stands before a found term, the term, and what stands behind it.
pub struct Split {
    pub before: Seq<char>,
    pub matched: Seq<char>,
    pub after: Seq<char>,
}

/// Where to cut `text` around `term`: around the first piece that is the term but for the case of
/// its letters.
pub open spec fn term_split(text: Seq<char>, term: Seq<char>) -> Option<Split> {
    match piece_from(text, lowercase(term), 0) {
        Some((from, to)) => Some(
            Split {
                before: text.take(from),
                matched: text.subrange(from, to),
                after: text.skip(to),
            },
        ),
        None => None,
    }
}

/// An end that is found is the least there is, and none is found only where there is none.
pub proof fn lemma_end_from(text: Seq<char>, lower: Seq<char>, from: int, to: int)
    requires
        0 <= from <= to,
    ensures
        end_from(text, lower, from, to) matches Some(end) ==> {
            &&& to <= end
            &&& stands_at(text, lower, from, end)
            &&& forall|k: int| to <= k < end ==> !stands_at(text, lower, from, k)
        },
        end_from(text, lower, from, to) is None ==> forall|k: int|
            to <= k ==> !stands_at(text, lower, from, k),
    decreases text.len() + 1 - to,
{
    if to <= text.len() && to - from <= lower.len() && !stands_at(text, lower, from, to) {
        lemma_end_from(text, lower, from, to + 1);
    }
}

/// A piece that is found is the first there is, and none is found only where there is none.
pub proof fn lemma_piece_from(text: Seq<char>, lower: Seq<char>, from: int)
    requires
        0 <= from,
    ensures
        piece_from(text, lower, from) matches Some((a, b)) ==> {
            &&& from <= a
            &&& stands_at(text, lower, a, b)
            &&& forall|i: int, j: int| from <= i < a ==> !stands_at(text, lower, i, j)
            &&& forall|j: int| j < b ==> !stands_at(text, lower, a, j)
        },
        piece_from(text, lower, from) is None ==> forall|i: int, j: int|
            from <= i ==> !stands_at(text, lower, i, j),
    decreases text.len() + 1 - from,
{
    if from <= text.len() {
        lemma_end_from(text, lower, from, from);
        if end_from(text, lower, from, from) is None {
            lemma_piece_from(text, lower, from + 1);
        }
    }
}

/// A text cut in three.
pub struct Pieces {
    pub before: String,
    pub matched: String,
    pub after: String,
}

fn lower_ascii(c: char) -> (r: char)
    requires
        c <= '\u{7f}',
    ensures
        r == ascii_lower(c),
{
    if 'A' <= c && c <= 'Z' {
        (c as u8 + 32) as char
    } else {
        c
    }
}

/// The least end of a piece of `chars` that begins at `from` and is `lower` in lowercase.
fn piece_end(chars: &Vec<char>, lower: &str, lower_chars: &Vec<char>, from: usize) -> (r: Option<
    usize,
>)
    requires
        from <= chars@.len(),
        lower_chars@ == lower@,
    ensures
        match r {
            Some(end) => end_from(chars@, lower@, from as int, from as int) == Some(end as int)
                && from <= end <= chars@.len(),
            None => end_from(chars@, lower@, from as int, from as int) is None,
        },
{
    let n: usize = chars.len();
    let m: usize = lower_chars.len();
    let ghost text = chars@;
    let mut to: usize = from;
    // whether the piece is ASCII, and whether its characters are then the first ones of `lower`
    let mut ascii: bool = true;
    let mut same: bool = true;
    assert(lower@.take(0) =~= text.subrange(from as int, from as int).map_values(
        |c: char| ascii_lower(c),
    ));
    loop
        invariant
            from <= to <= n == chars@.len(),
            to - from <= m == lower@.len(),
            text == chars@,
            lower_chars@ == lower@,
            ascii == is_ascii_chars(text.subrange(from as int, to as int)),
            ascii ==> same == (text.subrange(from as int, to as int).map_values(
                |c: char| ascii_lower(c),
            ) == lower@.take(to - from)),
            end_from(text, lower@, from as int, from as int) == end_from(
                text,
                lower@,
                from as int,
                to as int,
            ),
        decreases n - to,
    {
        let ghost piece = text.subrange(from as int, to as int);
        let found: bool = if ascii {
            assert(lower@.take(m as int) =~= lower@);
            assert(lowercase(piece).len() == piece.len());
            same && to - from == m
        } else {
            let lowered: String = to_lowercase(string_of(chars, from, to).as_str());
            str_eq(lowered.as_str(), lower)
        };
        assert(found == stands_at(text, lower@, from as int, to as int));
        if found {
            return Some(to);
        }
        if to == n || to - from == m {
            assert(end_from(text, lower@, from as int, to + 1) is None);
            return None;
        }
        let c: char = chars[to];
        let at: usize = to - from;
        let ghost longer = text.subrange(from as int, to + 1);
        proof {
            assert(longer =~= piece.push(c));
            lemma_ascii_push(piece, c);
            if ascii && c <= '\u{7f}' {
                lemma_lower_push(piece, c, lower@.take(at as int), lower@[at as int]);
                assert(lower@.take(at + 1) =~= lower@.take(at as int).push(lower@[at as int]));
            }
        }
        if c <= '\u{7f}' {
            same = same && lower_ascii(c) == lower_chars[at];
        } else {
            ascii = false;
        }
        to += 1;
    }
}

proof fn lemma_ascii_push(s: Seq<char>, c: char)
    ensures
        is_ascii_chars(s.push(c)) <==> is_ascii_chars(s) && c <= '\u{7f}',
{
    let t = s.push(c);
    if is_ascii_chars(t) {
        assert forall|i: int| 0 <= i < s.len() implies '\0' <= #[trigger] s[i] <= '\u{7f}' by {
            assert(t[i] == s[i]);
        }
        assert(t[s.len() as int] == c);
    }
    if is_ascii_chars(s) && c <= '\u{7f}' {
        assert forall|i: int| 0 <= i < t.len() implies '\0' <= #[trigger] t[i] <= '\u{7f}' by {
            if i < s.len() {
                assert(t[i] == s[i]);
            }
        }
    }
}

proof fn lemma_lower_push(s: Seq<char>, c: char, front: Seq<char>, last: char)
    requires
        s.len() == front.len(),
    ensures
        s.push(c).map_values(|c: char| ascii_lower(c)) == front.push(last) <==> s.map_values(
            |c: char| ascii_lower(c),
        ) == front && ascii_lower(c) == last,
{
    let a = s.map_values(|c: char| ascii_lower(c));
    let b = s.push(c).map_values(|c: char| ascii_lower(c));
    assert(b =~= a.push(ascii_lower(c)));
    if b == front.push(last) {
        assert(b.drop_last() =~= a);
        assert(front.push(last).drop_last() =~= front);
        assert(b.last() == front.push(last).last());
    }
}

/// Cuts `text` around `term`.
pub fn split_around(text: &str, term: &str) -> (r: Option<Pieces>)
    ensures
        match r {
            Some(p) => term_split(text@, term@) == Some(
                Split { before: p.before@, matched: p.matched@, after: p.after@ },
            ),
            None => term_split(text@, term@) is None,
        },
        r matches Some(p) ==> p.before@ + p.matched@ + p.after@ == text@ && lowercase(p.matched@)
            == lowercase(term@),
{
    let chars: Vec<char> = chars_of(text);
    let lower: String = to_lowercase(term);
    let lower_chars: Vec<char> = chars_of(lower.as_str());
    let n: usize = chars.len();
    let mut from: usize = 0;
    while from <= n
        invariant
            n == chars@.len(),
            chars@ == text@,
            lower@ == lowercase(term@),
            lower_chars@ == lower@,
            from <= n,
            piece_from(text@, lower@, 0) == piece_from(text@, lower@, from as int),
        decreases n - from,
    {
        if let Some(to) = piece_end(&chars, lower.as_str(), &lower_chars, from) {
            proof {
                lemma_end_from(text@, lower@, from as int, from as int);
            }
            let p = Pieces {
                before: string_of(&chars, 0, from),
                matched: string_of(&chars, from, to),
                after: string_of(&chars, to, n),
            };
            assert(p.before@ =~= text@.take(from as int));
            assert(p.after@ =~= text@.skip(to as int));
            assert(p.before@ + p.matched@ + p.after@ =~= text@);
            return Some(p);
        }
        if from == n {
            assert(piece_from(text@, lower@, n + 1) is None);
            return None;
        }
        from += 1;
    }
    None
}

/// `text` with what was found in it between `on` and `off`; as it is where nothing was.
pub open spec fn marked(
    text: Seq<char>,
    split: Option<Split>,
    on: Seq<char>,
    off: Seq<char>,
) -> Seq<char> {
    match split {
        Some(s) => s.before + on + s.matched + off + s.after,
        None => text,
    }
}

/// `text` with the first occurrence of `term` in it between `on` and `off`, whatever the case of
/// its letters.
pub open spec fn marked_term(
    text: Seq<char>,
    term: Seq<char>,
    on: Seq<char>,
    off: Seq<char>,
) -> Seq<char> {
    if term.len() == 0 {
        text
    } else {
        marked(text, term_split(text, term), on, off)
    }
}

/// Puts `on` and `off` around the first occurrence of `term` in `text`, whatever the case of its
/// letters.
pub fn mark_term(text: &str, term: &str, on: &str, off: &str) -> (r: String)
    ensures
        r@ == marked_term(text@, term@, on@, off@),
{
    if term.is_empty() {
        return copy_of(text);
    }
    match split_around(text, term) {
        Some(p) => {
            let mut out: String = p.before;
            out.append(on);
            out.append(p.matched.as_str());
            out.append(off);
            out.append(p.after.as_str());
            out
        },
        None => copy_of(text),
    }
}

/// Highlights the first occurrence of `term` in `text`, whatever the case of its letters, in bold
/// red.
pub fn highlight_term(text: &str, term: &str) -> (r: String)
    ensures
        r@ == marked_term(text@, term@, "\x1b[1;31m"@, "\x1b[0m"@),
{
    mark_term(text, term, "\x1b[1;31m", "\x1b[0m")
}

} // verus!
