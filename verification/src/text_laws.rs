//! What the text primitives do, whatever text they are given.
use vstd::prelude::*;
use vstd::utf8::*;

use crate::text::{
    control, decimal, digit, joined, lines_after, lines_of, lowercase, replaced,
    trimmed, trimmed_back, trimmed_front, unicode_lowercase, whitespace, without_return,
};
use crate::utf8::{first_occurrence, lemma_first_from, occurs, occurs_at};

verus! {

/// A part occurs in a text exactly where the text is that part with something, or nothing, before
/// and behind it.
pub proof fn law_occurs(whole: Seq<char>, part: Seq<char>)
    ensures
        occurs(whole, part) <==> exists|a: Seq<char>, b: Seq<char>|
            whole == #[trigger] (a + part + b),
{
    if occurs(whole, part) {
        let at = choose|at: int| occurs_at(whole, part, at);
        let a = whole.take(at);
        let b = whole.skip(at + part.len());
        assert(whole =~= a + part + b);
    }
    if exists|a: Seq<char>, b: Seq<char>| whole == #[trigger] (a + part + b) {
        let (a, b) = choose|a: Seq<char>, b: Seq<char>| whole == #[trigger] (a + part + b);
        assert(whole.subrange(a.len() as int, (a.len() + part.len()) as int) =~= part);
        assert(occurs_at(whole, part, a.len() as int));
    }
}

/// The first occurrence is an occurrence, and none comes before it.
pub proof fn law_first_occurrence(whole: Seq<u8>, part: Seq<u8>)
    ensures
        match first_occurrence(whole, part) {
            Some(at) => {
                &&& 0 <= at <= whole.len() - part.len()
                &&& whole.subrange(at, at + part.len()) == part
                &&& forall|k: int|
                    0 <= k < at ==> #[trigger] whole.subrange(k, k + part.len()) != part
            },
            None => forall|k: int|
                0 <= k <= whole.len() - part.len() ==> #[trigger] whole.subrange(
                    k,
                    k + part.len(),
                ) != part,
        },
{
    lemma_first_from(whole, part, 0);
    match first_occurrence(whole, part) {
        Some(at) => {
            assert forall|k: int| 0 <= k < at implies #[trigger] whole.subrange(k, k + part.len())
                != part by {
                assert(!occurs_at(whole, part, k));
            }
        },
        None => {
            assert forall|k: int|
                0 <= k <= whole.len() - part.len() implies #[trigger] whole.subrange(
                k,
                k + part.len(),
            ) != part by {
                assert(!occurs_at(whole, part, k));
            }
        },
    }
}

/// In lowercase, an ASCII text has small letters for its capital ones and is otherwise the same. It
/// stays so.
pub proof fn law_lowercase(s: Seq<char>)
    ensures
        is_ascii_chars(s) ==> {
            &&& lowercase(s).len() == s.len()
            &&& forall|i: int|
                0 <= i < s.len() ==> {
                    let c = #[trigger] lowercase(s)[i];
                    if 'A' <= s[i] <= 'Z' {
                        c as u32 == s[i] as u32 + 32
                    } else {
                        c == s[i]
                    }
                }
            &&& lowercase(lowercase(s)) == lowercase(s)
        },
        !is_ascii_chars(s) ==> lowercase(s) == unicode_lowercase(s),
{
    if is_ascii_chars(s) {
        let t = lowercase(s);
        assert forall|i: int| 0 <= i < t.len() implies '\0' <= #[trigger] t[i] <= '\u{7f}' by {
            assert('\0' <= s[i] <= '\u{7f}');
        }
        assert(lowercase(t) =~= t) by {
            assert forall|i: int| 0 <= i < t.len() implies #[trigger] lowercase(t)[i] == t[i] by {
                assert('\0' <= s[i] <= '\u{7f}');
            }
        }
    }
}

/// Trimming takes white space off both ends, all of it, and nothing else: what is left stands in the
/// text from `from` to `to`.
pub proof fn law_trimmed(s: Seq<char>) -> (r: (int, int))
    ensures
        0 <= r.0 <= r.1 <= s.len(),
        trimmed(s) == s.subrange(r.0, r.1),
        forall|i: int| 0 <= i < r.0 ==> whitespace(#[trigger] s[i]),
        forall|i: int| r.1 <= i < s.len() ==> whitespace(#[trigger] s[i]),
        r.0 < r.1 ==> !whitespace(s[r.0]) && !whitespace(s[r.1 - 1]),
{
    let from = lemma_trimmed_front(s);
    let t = trimmed_front(s);
    let to = lemma_trimmed_back(t);
    assert(t.take(to) =~= s.subrange(from, from + to));
    assert forall|i: int| from + to <= i < s.len() implies whitespace(#[trigger] s[i]) by {
        assert(t[i - from] == s[i]);
    }
    if to > 0 {
        assert(t[0] == s[from]);
        assert(t[to - 1] == s[from + to - 1]);
    }
    (from, from + to)
}

proof fn lemma_trimmed_front(s: Seq<char>) -> (from: int)
    ensures
        0 <= from <= s.len(),
        trimmed_front(s) == s.skip(from),
        forall|i: int| 0 <= i < from ==> whitespace(#[trigger] s[i]),
        from < s.len() ==> !whitespace(s[from]),
    decreases s.len(),
{
    if s.len() > 0 && whitespace(s[0]) {
        let rest = s.drop_first();
        let k = lemma_trimmed_front(rest);
        assert(rest.skip(k) =~= s.skip(k + 1));
        assert forall|i: int| 0 <= i < k + 1 implies whitespace(#[trigger] s[i]) by {
            if i > 0 {
                assert(rest[i - 1] == s[i]);
            }
        }
        if k < rest.len() {
            assert(rest[k] == s[k + 1]);
        }
        k + 1
    } else {
        assert(s.skip(0) =~= s);
        0
    }
}

proof fn lemma_trimmed_back(s: Seq<char>) -> (to: int)
    ensures
        0 <= to <= s.len(),
        trimmed_back(s) == s.take(to),
        forall|i: int| to <= i < s.len() ==> whitespace(#[trigger] s[i]),
        0 < to ==> !whitespace(s[to - 1]),
    decreases s.len(),
{
    if s.len() > 0 && whitespace(s.last()) {
        let front = s.drop_last();
        let k = lemma_trimmed_back(front);
        assert(front.take(k) =~= s.take(k));
        assert forall|i: int| k <= i < s.len() implies whitespace(#[trigger] s[i]) by {
            if i < front.len() {
                assert(front[i] == s[i]);
            }
        }
        if k > 0 {
            assert(front[k - 1] == s[k - 1]);
        }
        k
    } else {
        assert(s.take(s.len() as int) =~= s);
        s.len() as int
    }
}

/// Among the ASCII characters, white space are the space and the characters from the tabulator to
/// the carriage return; those below the space and the delete character are control characters.
pub proof fn law_ascii_classes(c: char)
    requires
        c <= '\u{7f}',
    ensures
        whitespace(c) <==> c == ' ' || '\t' <= c <= '\r',
        control(c) <==> c < ' ' || c == '\u{7f}',
{
}

/// A line of a text ends at the first line feed, without a carriage return right before it; what
/// stands behind the line feed are the other lines.
pub proof fn law_lines_end_at_line_feeds(line: Seq<char>, rest: Seq<char>)
    requires
        !line.contains('\n'),
    ensures
        line.len() == 0 || line.last() != '\r' ==> lines_of(line + seq!['\n'] + rest) == seq![line]
            + lines_of(rest),
        lines_of(line + seq!['\r', '\n'] + rest) == seq![line] + lines_of(rest),
{
    let none = Seq::<char>::empty();
    assert(none + line =~= line);
    lemma_line_read(none, line, seq!['\n'] + rest);
    assert(line + seq!['\n'] + rest =~= line + (seq!['\n'] + rest));
    assert((seq!['\n'] + rest).drop_first() =~= rest);
    let full = line.push('\r');
    assert(!full.contains('\n')) by {
        assert forall|k: int| 0 <= k < full.len() implies full[k] != '\n' by {
            if k < line.len() {
                assert(line.contains(line[k]));
            }
        }
    }
    assert(none + full =~= full);
    lemma_line_read(none, full, seq!['\n'] + rest);
    assert(line + seq!['\r', '\n'] + rest =~= full + (seq!['\n'] + rest));
    assert(without_return(full) =~= line);
}

/// A text without line feeds is one line, as it is, unless it is empty: then it has none.
pub proof fn law_last_line(line: Seq<char>)
    requires
        !line.contains('\n'),
    ensures
        lines_of(line) == (if line.len() == 0 {
            Seq::<Seq<char>>::empty()
        } else {
            seq![line]
        }),
{
    let none = Seq::<char>::empty();
    assert(none + line =~= line);
    assert(line + none =~= line);
    lemma_line_read(none, line, none);
}

proof fn lemma_line_read(done: Seq<char>, line: Seq<char>, rest: Seq<char>)
    requires
        !line.contains('\n'),
    ensures
        lines_after(done, line + rest) == lines_after(done + line, rest),
    decreases line.len(),
{
    if line.len() == 0 {
        assert(line + rest =~= rest);
        assert(done + line =~= done);
    } else {
        let tail = line.drop_first();
        assert(line.contains(line[0]));
        assert(!tail.contains('\n')) by {
            if tail.contains('\n') {
                let k = choose|k: int| 0 <= k < tail.len() && tail[k] == '\n';
                assert(line[k + 1] == '\n');
            }
        }
        assert((line + rest).drop_first() =~= tail + rest);
        lemma_line_read(done.push(line[0]), tail, rest);
        assert(done.push(line[0]) + tail =~= done + line);
    }
}

/// Joined parts stand one behind the other, in order, with the separator between each two of them.
pub proof fn law_joined(parts: Seq<Seq<char>>, last: Seq<char>, sep: Seq<char>)
    ensures
        joined(seq![last], sep) == last,
        parts.len() > 0 ==> joined(parts.push(last), sep) == joined(parts, sep) + sep + last,
        joined(Seq::empty(), sep).len() == 0,
{
    assert(parts.push(last).drop_last() =~= parts);
}

/// Replacing begins with the first occurrence and goes on behind it: what stands before is kept,
/// and what was put in is not read again.
pub proof fn law_replaced(before: Seq<char>, from: Seq<char>, after: Seq<char>, to: Seq<char>)
    requires
        from.len() > 0,
        forall|at: int| 0 <= at < before.len() ==> !occurs_at(before + from + after, from, at),
    ensures
        replaced(before + from + after, from, to) == before + to + replaced(after, from, to),
    decreases before.len(),
{
    let s = before + from + after;
    if before.len() == 0 {
        assert(s.take(from.len() as int) =~= from);
        assert(s.skip(from.len() as int) =~= after);
        assert(before + to =~= to);
    } else {
        let rest = before.drop_first();
        let t = rest + from + after;
        assert(s.drop_first() =~= t);
        assert(!from.is_prefix_of(s)) by {
            assert(!occurs_at(s, from, 0));
            assert(s.subrange(0, from.len() as int) =~= s.take(from.len() as int));
        }
        assert forall|at: int| 0 <= at < rest.len() implies !occurs_at(t, from, at) by {
            assert(!occurs_at(s, from, at + 1));
            assert(t.subrange(at, at + from.len()) =~= s.subrange(at + 1, at + 1 + from.len()));
        }
        law_replaced(rest, from, after, to);
        assert(seq![s[0]] + (rest + to + replaced(after, from, to)) =~= before + to + replaced(
            after,
            from,
            to,
        ));
    }
}

/// A text in which nothing is to be replaced stays as it is.
pub proof fn law_nothing_replaced(s: Seq<char>, from: Seq<char>, to: Seq<char>)
    requires
        from.len() > 0,
        !occurs(s, from),
    ensures
        replaced(s, from, to) == s,
    decreases s.len(),
{
    if s.len() >= from.len() {
        let rest = s.drop_first();
        assert(!occurs_at(s, from, 0));
        assert(s.subrange(0, from.len() as int) =~= s.take(from.len() as int));
        assert(!occurs(rest, from)) by {
            if occurs(rest, from) {
                let at = choose|at: int| occurs_at(rest, from, at);
                assert(s.subrange(at + 1, at + 1 + from.len()) =~= rest.subrange(
                    at,
                    at + from.len(),
                ));
                assert(occurs_at(s, from, at + 1));
            }
        }
        law_nothing_replaced(rest, from, to);
        assert(seq![s[0]] + rest =~= s);
    }
}

/// The number that decimal digits write.
pub open spec fn number_of(digits: Seq<char>) -> nat
    decreases digits.len(),
{
    if digits.len() == 0 {
        0
    } else {
        10 * number_of(digits.drop_last()) + (digits.last() as u32 - '0' as u32) as nat
    }
}

/// A number is written with the digits that it has: they write that number, and none but zero itself
/// begins with a zero.
pub proof fn law_decimal(n: nat)
    ensures
        number_of(decimal(n)) == n,
        decimal(n).len() > 0,
        forall|i: int| 0 <= i < decimal(n).len() ==> '0' <= #[trigger] decimal(n)[i] <= '9',
        n > 0 ==> decimal(n)[0] != '0',
    decreases n,
{
    let last = digit(n % 10);
    assert(last as u32 == 48 + n % 10);
    reveal_with_fuel(number_of, 2);
    if n < 10 {
        assert(decimal(n).drop_last() =~= Seq::<char>::empty());
        assert(n % 10 == n);
    } else {
        law_decimal(n / 10);
        let front = decimal(n / 10);
        assert(decimal(n).drop_last() =~= front);
        assert forall|i: int| 0 <= i < decimal(n).len() implies '0' <= #[trigger] decimal(n)[i]
            <= '9' by {
            if i < front.len() {
                assert(decimal(n)[i] == front[i]);
            }
        }
        assert(decimal(n)[0] == front[0]);
    }
}

} // verus!
