//! How Rich Text Format reads, piece by piece.
use vstd::prelude::*;
use vstd::utf8::*;

use crate::documents::{
    digits_end, hex_pair, hex_value, lemma_ends, lemma_piece_end, letters_end,
    number_end, rtf_from, rtf_piece, rtf_text, word_text,
};
use crate::filters::letter_byte;
use crate::text::ascii_letter;
use crate::utf8::{lemma_encode_concat, lemma_encode_injective};

verus! {

/// Where letters and digits end does not depend on what stands before.
proof fn lemma_ends_shift(b: Seq<u8>, i: int, k: int)
    requires
        0 <= i <= i + k <= b.len(),
        0 <= k,
    ensures
        letters_end(b, i + k) == i + letters_end(b.skip(i), k),
        digits_end(b, i + k) == i + digits_end(b.skip(i), k),
    decreases b.len() - i - k,
{
    if i + k < b.len() {
        assert(b.skip(i)[k] == b[i + k]);
        lemma_ends_shift(b, i, k + 1);
    }
}

/// How a piece reads does not depend on what stands before it.
proof fn lemma_piece_shift(b: Seq<u8>, i: int)
    requires
        0 <= i < b.len(),
    ensures
        rtf_piece(b, i).0 == rtf_piece(b.skip(i), 0).0,
        rtf_piece(b, i).1 == i + rtf_piece(b.skip(i), 0).1,
{
    let s = b.skip(i);
    assert(s[0] == b[i]);
    if i + 1 < b.len() {
        assert(s[1] == b[i + 1]);
        if i + 3 < b.len() {
            assert(s[2] == b[i + 2] && s[3] == b[i + 3]);
        }
        lemma_ends_shift(b, i, 1);
        lemma_ends(s, 1);
        let end = letters_end(s, 1);
        assert(b.subrange(i + 1, i + end) =~= s.subrange(1, end));
        lemma_ends_shift(b, i, end);
        if end < s.len() {
            assert(s[end] == b[i + end]);
            lemma_ends_shift(b, i, end + 1);
        }
        lemma_ends(s, end);
        if end < s.len() {
            lemma_ends(s, end + 1);
        }
        let stop = number_end(s, end);
        assert(number_end(b, i + end) == i + stop);
        if stop < s.len() {
            assert(s[stop] == b[i + stop]);
        }
    }
}

/// What is read from a position on does not depend on what stands before it.
proof fn lemma_rtf_shift(b: Seq<u8>, i: int)
    requires
        0 <= i <= b.len(),
    ensures
        rtf_from(b, i) == rtf_from(b.skip(i), 0),
    decreases b.len() - i,
{
    let s = b.skip(i);
    if i == 0 {
        assert(s =~= b);
    } else if i < b.len() {
        lemma_piece_shift(b, i);
        lemma_piece_end(b, i);
        let next = rtf_piece(b, i).1;
        lemma_rtf_shift(b, next);
        lemma_rtf_shift(s, next - i);
        assert(s.skip(next - i) =~= b.skip(next));
    }
}

/// A first piece and what is read behind it.
proof fn lemma_first_piece(b: Seq<u8>, rest: Seq<u8>, n: int)
    requires
        0 < n <= b.len(),
        b.skip(n) == rest,
        rtf_piece(b, 0).1 == n,
    ensures
        rtf_from(b, 0) == rtf_piece(b, 0).0 + rtf_from(rest, 0),
{
    lemma_rtf_shift(b, n);
}

/// The bytes of a text that begins with ASCII characters.
proof fn lemma_ascii_front(front: Seq<char>, rest: Seq<char>)
    requires
        is_ascii_chars(front),
    ensures
        encode_utf8(front + rest).len() == front.len() + encode_utf8(rest).len(),
        encode_utf8(front + rest).skip(front.len() as int) == encode_utf8(rest),
        forall|i: int|
            0 <= i < front.len() ==> #[trigger] encode_utf8(front + rest)[i] == front[i] as u8,
{
    lemma_encode_concat(front, rest);
    is_ascii_chars_encode_utf8(front);
    let b = encode_utf8(front + rest);
    assert(b.skip(front.len() as int) =~= encode_utf8(rest));
    assert forall|i: int| 0 <= i < front.len() implies #[trigger] b[i] == front[i] as u8 by {
        assert(b[i] == encode_utf8(front)[i]);
        assert(front[i] as u8 == encode_utf8(front)[i]);
    }
}

proof fn lemma_not_below_zero(c: char)
    ensures
        '\0' <= c,
{
}

/// A plain character stands for itself.
pub proof fn law_rtf_characters(c: char, rest: Seq<char>)
    requires
        c <= '\u{7f}',
        c != '\\' && c != '{' && c != '}' && c != '\r' && c != '\n',
    ensures
        rtf_text(seq![c] + rest) == seq![c] + rtf_text(rest),
{
    let front = seq![c];
    lemma_ascii_front(front, rest);
    let b = encode_utf8(front + rest);
    assert(b[0] == c as u8);
    assert(c as u8 as char == c);
    lemma_first_piece(b, encode_utf8(rest), 1);
}

/// Braces that group and the line breaks of the file stand for nothing.
pub proof fn law_rtf_groups(c: char, rest: Seq<char>)
    requires
        c == '{' || c == '}' || c == '\r' || c == '\n',
    ensures
        rtf_text(seq![c] + rest) == rtf_text(rest),
{
    let front = seq![c];
    lemma_ascii_front(front, rest);
    let b = encode_utf8(front + rest);
    assert(b[0] == c as u8);
    lemma_first_piece(b, encode_utf8(rest), 1);
    assert(Seq::<char>::empty() + rtf_text(rest) =~= rtf_text(rest));
}

/// Behind a backslash, a backslash and a brace stand for themselves, and a line break for nothing.
pub proof fn law_rtf_escapes(c: char, rest: Seq<char>)
    ensures
        c == '\\' || c == '{' || c == '}' ==> rtf_text(seq!['\\', c] + rest) == seq![c] + rtf_text(
            rest,
        ),
        c == '\r' || c == '\n' ==> rtf_text(seq!['\\', c] + rest) == rtf_text(rest),
{
    let front = seq!['\\', c];
    if c == '\\' || c == '{' || c == '}' || c == '\r' || c == '\n' {
        lemma_ascii_front(front, rest);
        let b = encode_utf8(front + rest);
        assert(b[0] == '\\' as u8);
        assert(b[1] == c as u8);
        assert(c as u8 as char == c);
        lemma_first_piece(b, encode_utf8(rest), 2);
        assert(Seq::<char>::empty() + rtf_text(rest) =~= rtf_text(rest));
    }
}

/// The character that writes a number below sixteen, small or capital.
pub open spec fn hex_digit(n: int, capital: bool) -> char {
    if n < 10 {
        ('0' as u32 + n) as char
    } else if capital {
        ('A' as u32 + n - 10) as char
    } else {
        ('a' as u32 + n - 10) as char
    }
}

proof fn lemma_hex_digit(n: int, capital: bool)
    requires
        0 <= n < 16,
    ensures
        hex_digit(n, capital) <= '\u{7f}',
        hex_value(hex_digit(n, capital) as u8) == Some(n as u8),
{
}

/// Behind a backslash and an apostrophe, two hexadecimal digits stand for the character with that
/// number.
pub proof fn law_rtf_numbered_characters(n: int, capital: bool, rest: Seq<char>)
    requires
        0 <= n < 256,
    ensures
        rtf_text(
            seq!['\\', '\'', hex_digit(n / 16, capital), hex_digit(n % 16, capital)] + rest,
        ) == seq![n as char] + rtf_text(rest),
{
    let x = hex_digit(n / 16, capital);
    let y = hex_digit(n % 16, capital);
    lemma_hex_digit(n / 16, capital);
    lemma_hex_digit(n % 16, capital);
    let front = seq!['\\', '\'', x, y];
    lemma_ascii_front(front, rest);
    let b = encode_utf8(front + rest);
    assert(b[0] == '\\' as u8);
    assert(b[1] == '\'' as u8);
    assert(b[2] == x as u8);
    assert(b[3] == y as u8);
    assert(hex_pair(b[2], b[3]) == Some((16 * (n / 16) + n % 16) as u8));
    assert(16 * (n / 16) + n % 16 == n);
    assert(n as u8 as char == n as char);
    lemma_first_piece(b, encode_utf8(rest), 4);
}

/// The letters of a control word end where it ends.
proof fn lemma_word_end(b: Seq<u8>, from: int, to: int)
    requires
        0 <= from <= to <= b.len(),
        forall|i: int| from <= i < to ==> letter_byte(#[trigger] b[i]),
        to < b.len() ==> !letter_byte(b[to]),
    ensures
        letters_end(b, from) == to,
    decreases to - from,
{
    if from < to {
        lemma_word_end(b, from + 1, to);
    }
}

proof fn lemma_digits_end(b: Seq<u8>, from: int, to: int)
    requires
        0 <= from <= to <= b.len(),
        forall|i: int| from <= i < to ==> 48 <= #[trigger] b[i] <= 57,
        to < b.len() ==> !(48 <= b[to] <= 57),
    ensures
        digits_end(b, from) == to,
    decreases to - from,
{
    if from < to {
        lemma_digits_end(b, from + 1, to);
    }
}

/// What a control word stands for: the end of a paragraph and of a line for a line break, a
/// tabulator for itself, and any other word for nothing.
pub open spec fn control_word(word: Seq<char>) -> Seq<char> {
    if word == "par"@ || word == "line"@ {
        seq!['\n']
    } else if word == "tab"@ {
        seq!['\t']
    } else {
        Seq::empty()
    }
}

proof fn lemma_control_word(word: Seq<char>)
    ensures
        word_text(encode_utf8(word)) == control_word(word),
{
    if encode_utf8(word) == encode_utf8("par"@) {
        lemma_encode_injective(word, "par"@);
    }
    if encode_utf8(word) == encode_utf8("line"@) {
        lemma_encode_injective(word, "line"@);
    }
    if encode_utf8(word) == encode_utf8("tab"@) {
        lemma_encode_injective(word, "tab"@);
    }
}

/// A control word of letters, with a number behind it or without, and with a space behind that,
/// stands for its meaning, and word, number and space for nothing else.
pub proof fn law_rtf_control_words(
    word: Seq<char>,
    minus: bool,
    digits: Seq<char>,
    rest: Seq<char>,
)
    requires
        word.len() > 0,
        forall|i: int| 0 <= i < word.len() ==> ascii_letter(#[trigger] word[i]),
        forall|i: int| 0 <= i < digits.len() ==> '0' <= #[trigger] digits[i] <= '9',
    ensures
        rtf_text(
            seq!['\\'] + word + (if minus {
                seq!['-']
            } else {
                Seq::empty()
            }) + digits + seq![' '] + rest,
        ) == control_word(word) + rtf_text(rest),
{
    let sign: Seq<char> = if minus {
        seq!['-']
    } else {
        Seq::empty()
    };
    let front = seq!['\\'] + word + sign + digits + seq![' '];
    let n = word.len() as int;
    let m = n + 1 + sign.len();
    let d = m + digits.len();
    assert forall|i: int| 0 <= i < front.len() implies '\0' <= #[trigger] front[i]
        <= '\u{7f}' by {
        if 1 <= i <= n {
            assert(front[i] == word[i - 1]);
        } else if m <= i < d {
            assert(front[i] == digits[i - m]);
        }
    }
    lemma_ascii_front(front, rest);
    assert(seq!['\\'] + word + sign + digits + seq![' '] + rest =~= front + rest);
    let b = encode_utf8(front + rest);
    assert(b[0] == '\\' as u8);
    assert forall|i: int| 1 <= i < n + 1 implies letter_byte(#[trigger] b[i]) by {
        assert(b[i] == front[i] as u8);
        assert(front[i] == word[i - 1]);
    }
    assert(letter_byte(b[1]));
    assert(b[n + 1] == front[n + 1] as u8);
    assert(!letter_byte(b[n + 1])) by {
        if !minus && digits.len() > 0 {
            assert(front[n + 1] == digits[0]);
        }
    }
    lemma_word_end(b, 1, n + 1);
    assert forall|i: int| m <= i < d implies 48 <= #[trigger] b[i] <= 57 by {
        assert(b[i] == front[i] as u8);
        assert(front[i] == digits[i - m]);
    }
    assert(b[d] == front[d] as u8);
    assert(front[d] == ' ');
    lemma_digits_end(b, m, d);
    assert(number_end(b, n + 1) == d) by {
        if minus {
            assert(front[n + 1] == '-');
        } else if digits.len() > 0 {
            assert(front[n + 1] == digits[0]);
        }
    }
    assert(b.subrange(1, n + 1) =~= encode_utf8(word)) by {
        assert(is_ascii_chars(word)) by {
            assert forall|i: int| 0 <= i < word.len() implies '\0' <= #[trigger] word[i]
                <= '\u{7f}' by {
                assert(ascii_letter(word[i]));
            }
        }
        is_ascii_chars_encode_utf8(word);
        assert forall|i: int| 0 <= i < n implies b.subrange(1, n + 1)[i] == encode_utf8(
            word,
        )[i] by {
            assert(b[i + 1] == front[i + 1] as u8);
            assert(front[i + 1] == word[i]);
            assert(word[i] as u8 == encode_utf8(word)[i]);
        }
    }
    lemma_control_word(word);
    assert(rtf_piece(b, 0) == (control_word(word), d + 1));
    lemma_first_piece(b, encode_utf8(rest), d + 1);
}

/// A control word that something other than a letter, a digit, a minus sign or a space follows needs
/// no space behind it.
pub proof fn law_rtf_words_end_by_themselves(word: Seq<char>, rest: Seq<char>)
    requires
        word.len() > 0,
        forall|i: int| 0 <= i < word.len() ==> ascii_letter(#[trigger] word[i]),
        rest.len() > 0,
        rest[0] <= '\u{7f}',
        !ascii_letter(rest[0]) && !('0' <= rest[0] <= '9') && rest[0] != '-' && rest[0] != ' ',
    ensures
        rtf_text(seq!['\\'] + word + rest) == control_word(word) + rtf_text(rest),
{
    let front = seq!['\\'] + word;
    let n = word.len() as int;
    assert forall|i: int| 0 <= i < front.len() implies '\0' <= #[trigger] front[i]
        <= '\u{7f}' by {
        if 1 <= i {
            assert(front[i] == word[i - 1]);
        }
    }
    lemma_ascii_front(front, rest);
    let b = encode_utf8(front + rest);
    assert(b[0] == '\\' as u8);
    assert forall|i: int| 1 <= i < n + 1 implies letter_byte(#[trigger] b[i]) by {
        assert(b[i] == front[i] as u8);
        assert(front[i] == word[i - 1]);
    }
    assert(letter_byte(b[1]));
    let first = seq![rest[0]];
    let tail = rest.drop_first();
    assert(rest =~= first + tail);
    assert(is_ascii_chars(first)) by {
        assert forall|i: int| 0 <= i < first.len() implies '\0' <= #[trigger] first[i]
            <= '\u{7f}' by {
            lemma_not_below_zero(rest[0]);
            assert(first[i] == rest[0]);
        }
    }
    lemma_ascii_front(first, tail);
    assert(encode_utf8(rest)[0] == rest[0] as u8);
    assert(b[n + 1] == b.skip(n + 1)[0]);
    lemma_word_end(b, 1, n + 1);
    lemma_digits_end(b, n + 1, n + 1);
    assert(b.subrange(1, n + 1) =~= encode_utf8(word)) by {
        assert(is_ascii_chars(word)) by {
            assert forall|i: int| 0 <= i < word.len() implies '\0' <= #[trigger] word[i]
                <= '\u{7f}' by {
                assert(ascii_letter(word[i]));
            }
        }
        is_ascii_chars_encode_utf8(word);
        assert forall|i: int| 0 <= i < n implies b.subrange(1, n + 1)[i] == encode_utf8(
            word,
        )[i] by {
            assert(b[i + 1] == front[i + 1] as u8);
            assert(front[i + 1] == word[i]);
            assert(word[i] as u8 == encode_utf8(word)[i]);
        }
    }
    lemma_control_word(word);
    assert(rtf_piece(b, 0) == (control_word(word), n + 1));
    lemma_first_piece(b, encode_utf8(rest), n + 1);
}

/// A byte that neither groups, escapes nor breaks lines stands for the character with its number,
/// so each byte of a character beyond ASCII stands for one.
pub proof fn law_rtf_bytes(b: u8, rest: Seq<u8>)
    requires
        b != 92 && b != 123 && b != 125 && b != 13 && b != 10,
    ensures
        rtf_from(seq![b] + rest, 0) == seq![b as char] + rtf_from(rest, 0),
{
    let all = seq![b] + rest;
    assert(all.skip(1) =~= rest);
    lemma_first_piece(all, rest, 1);
}

/// Nothing reads as nothing.
pub proof fn law_rtf_empty()
    ensures
        rtf_text(Seq::empty()) == Seq::<char>::empty(),
{
    assert(encode_utf8(Seq::<char>::empty()) =~= Seq::<u8>::empty());
}

} // verus!
