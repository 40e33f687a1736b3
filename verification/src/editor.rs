//! The search line: a line of text with a cursor.
use vstd::prelude::*;

use crate::text::{chars_of, string_of};

verus! {

/// Whether a character stands between words of the search line.
pub open spec fn delimiter(c: char) -> bool {
    c == ' ' || c == ':' || c == '\\' || c == '"'
}

fn is_delimiter(c: char) -> (r: bool)
    ensures
        r == delimiter(c),
{
    c == ' ' || c == ':' || c == '\\' || c == '"'
}

/// The first position at or behind `p` at which a delimiter stands, or, where `wanted` is false, a
/// character that is no delimiter; the end of the text where there is none.
pub open spec fn next_of(text: Seq<char>, p: int, wanted: bool) -> int
    decreases text.len() - p,
{
    if 0 <= p < text.len() && delimiter(text[p]) != wanted {
        next_of(text, p + 1, wanted)
    } else {
        p
    }
}

/// The last position at or before `p` with a delimiter right before it, or, where `wanted` is
/// false, a character that is no delimiter; the start of the text where there is none.
pub open spec fn last_of(text: Seq<char>, p: int, wanted: bool) -> int
    decreases p,
{
    if 0 < p <= text.len() && delimiter(text[p - 1]) != wanted {
        last_of(text, p - 1, wanted)
    } else {
        p
    }
}

/// Where the next word begins: behind the rest of this word and the delimiters that follow it.
pub open spec fn next_word(text: Seq<char>, p: int) -> int {
    next_of(text, next_of(text, p, true), false)
}

/// Where the word before `p` begins: delimiters right before `p` are passed over first.
pub open spec fn word_before(text: Seq<char>, p: int) -> int {
    last_of(text, last_of(text, p, false), true)
}

/// A text without the characters `from..to`.
pub open spec fn without_range(text: Seq<char>, from: int, to: int) -> Seq<char> {
    text.subrange(0, from) + text.subrange(to, text.len() as int)
}

/// What is on the search line.
pub struct LineState {
    pub text: Seq<char>,
    pub cursor: int,
}

/// The search line; the cursor stands before the character with its number, or at the end.
pub struct SearchLine {
    chars: Vec<char>,
    cursor: usize,
}

impl View for SearchLine {
    type V = LineState;

    closed spec fn view(&self) -> LineState {
        LineState { text: self.chars@, cursor: self.cursor as int }
    }
}

proof fn lemma_next_of(text: Seq<char>, p: int, wanted: bool)
    requires
        0 <= p <= text.len(),
    ensures
        p <= next_of(text, p, wanted) <= text.len(),
    decreases text.len() - p,
{
    if p < text.len() && delimiter(text[p]) != wanted {
        lemma_next_of(text, p + 1, wanted);
    }
}

proof fn lemma_last_of(text: Seq<char>, p: int, wanted: bool)
    requires
        0 <= p <= text.len(),
    ensures
        0 <= last_of(text, p, wanted) <= p,
    decreases p,
{
    if p > 0 && delimiter(text[p - 1]) != wanted {
        lemma_last_of(text, p - 1, wanted);
    }
}

/// Word jumps stay within the line: forward ones lead forward, backward ones back.
pub proof fn law_word_jumps_in_line(text: Seq<char>, p: int)
    requires
        0 <= p <= text.len(),
    ensures
        p <= next_word(text, p) <= text.len(),
        0 <= word_before(text, p) <= p,
{
    lemma_next_of(text, p, true);
    lemma_next_of(text, next_of(text, p, true), false);
    lemma_last_of(text, p, false);
    lemma_last_of(text, last_of(text, p, false), true);
}

impl SearchLine {
    /// The cursor is on the line.
    #[verifier::type_invariant]
    spec fn inv(self) -> bool {
        self.cursor <= self.chars@.len()
    }

    /// An empty line.
    pub fn new() -> (r: SearchLine)
        ensures
            r@ == (LineState { text: Seq::empty(), cursor: 0 }),
    {
        SearchLine { chars: Vec::new(), cursor: 0 }
    }

    /// A line with a text and the cursor at its end.
    pub fn with_text(text: &str) -> (r: SearchLine)
        ensures
            r@ == (LineState { text: text@, cursor: text@.len() as int }),
    {
        let chars: Vec<char> = chars_of(text);
        let cursor: usize = chars.len();
        SearchLine { chars, cursor }
    }

    /// The text of the line.
    pub fn text(&self) -> (r: String)
        ensures
            r@ == self@.text,
    {
        assert(self.chars@.subrange(0, self.chars@.len() as int) =~= self.chars@);
        string_of(&self.chars, 0, self.chars.len())
    }

    /// The cursor.
    pub fn cursor(&self) -> (r: usize)
        ensures
            r == self@.cursor,
            0 <= self@.cursor <= self@.text.len(),
    {
        proof {
            use_type_invariant(self);
        }
        self.cursor
    }

    /// Whether nothing is on the line.
    pub fn is_empty(&self) -> (r: bool)
        ensures
            r == (self@.text.len() == 0),
    {
        self.chars.len() == 0
    }

    /// The line with the characters `from..to` removed and the cursor at `cursor`.
    fn cut(&self, from: usize, to: usize, cursor: usize) -> (r: SearchLine)
        requires
            from <= to <= self@.text.len(),
            cursor <= from,
        ensures
            r@ == (LineState {
                text: without_range(self@.text, from as int, to as int),
                cursor: cursor as int,
            }),
    {
        let mut chars: Vec<char> = Vec::new();
        let mut i: usize = 0;
        while i < from
            invariant
                i <= from <= self.chars@.len(),
                chars@ == self.chars@.subrange(0, i as int),
            decreases from - i,
        {
            chars.push(self.chars[i]);
            i += 1;
            assert(chars@ =~= self.chars@.subrange(0, i as int));
        }
        let mut j: usize = to;
        while j < self.chars.len()
            invariant
                to <= j <= self.chars@.len(),
                from <= self.chars@.len(),
                chars@ == self.chars@.subrange(0, from as int) + self.chars@.subrange(
                    to as int,
                    j as int,
                ),
            decreases self.chars@.len() - j,
        {
            chars.push(self.chars[j]);
            j += 1;
            assert(chars@ =~= self.chars@.subrange(0, from as int) + self.chars@.subrange(
                to as int,
                j as int,
            ));
        }
        SearchLine { chars, cursor }
    }

    /// Inserts `c` at the cursor.
    pub fn insert(&mut self, c: char)
        requires
            old(self)@.text.len() < usize::MAX,
        ensures
            final(self)@ == (LineState {
                text: old(self)@.text.insert(old(self)@.cursor, c),
                cursor: old(self)@.cursor + 1,
            }),
    {
        proof {
            use_type_invariant(&*self);
        }
        let mut chars: Vec<char> = Vec::new();
        let mut i: usize = 0;
        let at: usize = self.cursor;
        while i < at
            invariant
                i <= at <= self.chars@.len(),
                chars@ == self.chars@.subrange(0, i as int),
            decreases at - i,
        {
            chars.push(self.chars[i]);
            i += 1;
            assert(chars@ =~= self.chars@.subrange(0, i as int));
        }
        chars.push(c);
        assert(chars@ =~= self.chars@.subrange(0, at as int).push(c) + self.chars@.subrange(
            at as int,
            at as int,
        ));
        while i < self.chars.len()
            invariant
                at <= i <= self.chars@.len(),
                chars@ == self.chars@.subrange(0, at as int).push(c) + self.chars@.subrange(
                    at as int,
                    i as int,
                ),
            decreases self.chars@.len() - i,
        {
            chars.push(self.chars[i]);
            i += 1;
            assert(chars@ =~= self.chars@.subrange(0, at as int).push(c) + self.chars@.subrange(
                at as int,
                i as int,
            ));
        }
        assert(chars@ =~= self.chars@.insert(at as int, c));
        *self = SearchLine { chars, cursor: at + 1 };
    }

    /// Deletes the character before the cursor.
    pub fn backspace(&mut self)
        ensures
            final(self)@ == (if old(self)@.cursor > 0 {
                LineState {
                    text: without_range(
                        old(self)@.text,
                        old(self)@.cursor - 1,
                        old(self)@.cursor,
                    ),
                    cursor: old(self)@.cursor - 1,
                }
            } else {
                old(self)@
            }),
    {
        proof {
            use_type_invariant(&*self);
        }
        if self.cursor > 0 {
            let p: usize = self.cursor - 1;
            *self = self.cut(p, p + 1, p);
        }
    }

    /// Deletes the character at the cursor.
    pub fn delete(&mut self)
        ensures
            final(self)@ == (if old(self)@.cursor < old(self)@.text.len() {
                LineState {
                    text: without_range(
                        old(self)@.text,
                        old(self)@.cursor,
                        old(self)@.cursor + 1,
                    ),
                    cursor: old(self)@.cursor,
                }
            } else {
                old(self)@
            }),
    {
        if self.cursor < self.chars.len() {
            let p: usize = self.cursor;
            *self = self.cut(p, p + 1, p);
        }
    }

    /// Where the word before the cursor begins.
    fn start_of_word_before(&self) -> (p: usize)
        ensures
            p == word_before(self@.text, self@.cursor),
            p <= self@.cursor <= self@.text.len(),
    {
        proof {
            use_type_invariant(self);
            law_word_jumps_in_line(self.chars@, self.cursor as int);
        }
        let ghost text = self.chars@;
        let mut p: usize = self.cursor;
        while p > 0 && is_delimiter(self.chars[p - 1])
            invariant
                text == self.chars@,
                p <= self.cursor <= text.len(),
                last_of(text, self.cursor as int, false) == last_of(text, p as int, false),
            decreases p,
        {
            p -= 1;
        }
        let ghost middle = p;
        while p > 0 && !is_delimiter(self.chars[p - 1])
            invariant
                text == self.chars@,
                p <= self.cursor <= text.len(),
                last_of(text, middle as int, true) == last_of(text, p as int, true),
            decreases p,
        {
            p -= 1;
        }
        p
    }

    /// Where the next word begins.
    fn start_of_next_word(&self) -> (p: usize)
        ensures
            p == next_word(self@.text, self@.cursor),
            self@.cursor <= p <= self@.text.len(),
    {
        proof {
            use_type_invariant(self);
            law_word_jumps_in_line(self.chars@, self.cursor as int);
        }
        let ghost text = self.chars@;
        let len: usize = self.chars.len();
        let mut p: usize = self.cursor;
        while p < len && !is_delimiter(self.chars[p])
            invariant
                text == self.chars@,
                len == text.len(),
                self.cursor <= p <= len,
                next_of(text, self.cursor as int, true) == next_of(text, p as int, true),
            decreases len - p,
        {
            p += 1;
        }
        let ghost middle = p;
        while p < len && is_delimiter(self.chars[p])
            invariant
                text == self.chars@,
                len == text.len(),
                self.cursor <= p <= len,
                next_of(text, middle as int, false) == next_of(text, p as int, false),
            decreases len - p,
        {
            p += 1;
        }
        p
    }

    /// Deletes from the beginning of the word before the cursor up to the cursor.
    pub fn delete_word_before(&mut self)
        ensures
            final(self)@ == (LineState {
                text: without_range(
                    old(self)@.text,
                    word_before(old(self)@.text, old(self)@.cursor),
                    old(self)@.cursor,
                ),
                cursor: word_before(old(self)@.text, old(self)@.cursor),
            }),
    {
        let p: usize = self.start_of_word_before();
        *self = self.cut(p, self.cursor, p);
    }

    /// Deletes from the cursor up to the beginning of the next word.
    pub fn delete_word_after(&mut self)
        ensures
            final(self)@ == (LineState {
                text: without_range(
                    old(self)@.text,
                    old(self)@.cursor,
                    next_word(old(self)@.text, old(self)@.cursor),
                ),
                cursor: old(self)@.cursor,
            }),
    {
        let p: usize = self.start_of_next_word();
        *self = self.cut(self.cursor, p, self.cursor);
    }

    /// Deletes everything.
    pub fn clear(&mut self)
        ensures
            final(self)@ == (LineState { text: Seq::empty(), cursor: 0 }),
    {
        *self = SearchLine::new();
    }

    /// Deletes from the cursor to the end of the line.
    pub fn delete_to_end(&mut self)
        ensures
            final(self)@ == (LineState {
                text: old(self)@.text.take(old(self)@.cursor),
                cursor: old(self)@.cursor,
            }),
    {
        proof {
            use_type_invariant(&*self);
        }
        *self = self.cut(self.cursor, self.chars.len(), self.cursor);
        assert(self@.text =~= old(self)@.text.take(old(self)@.cursor));
    }

    /// Moves the cursor one character back.
    pub fn left(&mut self)
        ensures
            final(self)@ == (LineState {
                text: old(self)@.text,
                cursor: if old(self)@.cursor > 0 {
                    old(self)@.cursor - 1
                } else {
                    0
                },
            }),
    {
        proof {
            use_type_invariant(&*self);
        }
        if self.cursor > 0 {
            self.cursor = self.cursor - 1;
        }
    }

    /// Moves the cursor one character on.
    pub fn right(&mut self)
        ensures
            final(self)@ == (LineState {
                text: old(self)@.text,
                cursor: if old(self)@.cursor < old(self)@.text.len() {
                    old(self)@.cursor + 1
                } else {
                    old(self)@.cursor
                },
            }),
    {
        if self.cursor < self.chars.len() {
            self.cursor = self.cursor + 1;
        }
    }

    /// Moves the cursor to the beginning of the word before it.
    pub fn word_left(&mut self)
        ensures
            final(self)@ == (LineState {
                text: old(self)@.text,
                cursor: word_before(old(self)@.text, old(self)@.cursor),
            }),
    {
        let p: usize = self.start_of_word_before();
        self.cursor = p;
    }

    /// Moves the cursor to the beginning of the next word.
    pub fn word_right(&mut self)
        ensures
            final(self)@ == (LineState {
                text: old(self)@.text,
                cursor: next_word(old(self)@.text, old(self)@.cursor),
            }),
    {
        let p: usize = self.start_of_next_word();
        self.cursor = p;
    }

    /// Moves the cursor to the start of the line.
    pub fn to_start(&mut self)
        ensures
            final(self)@ == (LineState { text: old(self)@.text, cursor: 0 }),
    {
        self.cursor = 0;
    }

    /// Moves the cursor to the end of the line.
    pub fn to_end(&mut self)
        ensures
            final(self)@ == (LineState {
                text: old(self)@.text,
                cursor: old(self)@.text.len() as int,
            }),
    {
        self.cursor = self.chars.len();
    }
}

/// Deleting the character before the cursor takes back an insertion.
pub proof fn law_backspace_undoes_insert(text: Seq<char>, cursor: int, c: char)
    requires
        0 <= cursor <= text.len(),
    ensures
        without_range(text.insert(cursor, c), cursor, cursor + 1) == text,
{
    assert(without_range(text.insert(cursor, c), cursor, cursor + 1) =~= text);
}

/// A jump back passes one word: between where it ends and where it began stand the word and then
/// delimiters only, and before the word stands a delimiter or nothing.
pub proof fn law_word_before_is_one_word(text: Seq<char>, p: int)
    requires
        0 <= p <= text.len(),
    ensures
        ({
            let from = word_before(text, p);
            let end = last_of(text, p, false);
            &&& 0 <= from <= end <= p
            &&& forall|k: int| from <= k < end ==> !delimiter(#[trigger] text[k])
            &&& forall|k: int| end <= k < p ==> delimiter(#[trigger] text[k])
            &&& from > 0 ==> delimiter(text[from - 1])
        }),
{
    let end = last_of(text, p, false);
    lemma_last_of(text, p, false);
    lemma_passed_over(text, p, false);
    lemma_last_of(text, end, true);
    lemma_passed_over(text, end, true);
}

/// What `last_of` passes over, and what it stops at.
proof fn lemma_passed_over(text: Seq<char>, p: int, wanted: bool)
    requires
        0 <= p <= text.len(),
    ensures
        forall|k: int|
            last_of(text, p, wanted) <= k < p ==> delimiter(#[trigger] text[k]) != wanted,
        last_of(text, p, wanted) > 0 ==> delimiter(text[last_of(text, p, wanted) - 1]) == wanted,
    decreases p,
{
    if p > 0 && delimiter(text[p - 1]) != wanted {
        lemma_passed_over(text, p - 1, wanted);
    }
}

} // verus!
