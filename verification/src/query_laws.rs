//! What holds of the query language as a whole.
use vstd::prelude::*;
use vstd::utf8::*;

use crate::query::{
    completed_query, content_query, content_word_at, extension_value, filters_of, kept_tokens,
    not_in_filter, path_value, query_model, token_list, tokens, tokens_after, typed_in_filter,
    value_behind, with_token, Filters, QueryModel,
};
use crate::text::{ascii_lower, joined, lowercase, replaced, whitespace};

verus! {

/// No token is empty, and no token holds a double quote.
pub proof fn law_tokens_are_words(query: Seq<char>)
    ensures
        forall|i: int|
            0 <= i < tokens(query).len() ==> (#[trigger] tokens(query)[i]).len() > 0
                && !tokens(query)[i].contains('"'),
{
    lemma_tokens_are_words(Seq::empty(), false, query);
}

proof fn lemma_tokens_are_words(part: Seq<char>, in_quote: bool, rest: Seq<char>)
    requires
        !part.contains('"'),
    ensures
        forall|i: int|
            0 <= i < tokens_after(part, in_quote, rest).len() ==> (#[trigger] tokens_after(
                part,
                in_quote,
                rest,
            )[i]).len() > 0 && !tokens_after(part, in_quote, rest)[i].contains('"'),
    decreases rest.len(),
{
    if rest.len() == 0 {
    } else if rest[0] == ' ' && !in_quote {
        lemma_tokens_are_words(Seq::empty(), false, rest.drop_first());
        let tail = tokens_after(Seq::empty(), false, rest.drop_first());
        let all = token_list(part) + tail;
        assert(tokens_after(part, in_quote, rest) == all);
        assert forall|i: int| 0 <= i < all.len() implies (#[trigger] all[i]).len() > 0
            && !all[i].contains('"') by {
            if i >= token_list(part).len() {
                assert(all[i] == tail[i - token_list(part).len()]);
            }
        }
    } else if rest[0] == '"' {
        lemma_tokens_are_words(part, !in_quote, rest.drop_first());
        assert(tokens_after(part, in_quote, rest) == tokens_after(
            part,
            !in_quote,
            rest.drop_first(),
        ));
    } else {
        let longer = part.push(rest[0]);
        assert(!longer.contains('"')) by {
            assert forall|k: int| 0 <= k < longer.len() implies longer[k] != '"' by {
                if k < part.len() {
                    assert(part.contains(part[k]));
                }
            }
        }
        assert(tokens_after(part, in_quote, rest) == tokens_after(
            longer,
            in_quote,
            rest.drop_first(),
        ));
        lemma_tokens_are_words(longer, in_quote, rest.drop_first());
    }
}

/// Characters that are neither spaces nor quotes are read into the current token; inside quotes
/// spaces are too.
pub proof fn lemma_read_word(part: Seq<char>, in_quote: bool, word: Seq<char>, rest: Seq<char>)
    requires
        !word.contains('"'),
        in_quote || !word.contains(' '),
    ensures
        tokens_after(part, in_quote, word + rest) == tokens_after(part + word, in_quote, rest),
    decreases word.len(),
{
    if word.len() == 0 {
        assert(word + rest =~= rest);
        assert(part + word =~= part);
    } else {
        let tail = word.drop_first();
        assert(word.contains(word[0]));
        assert((word + rest).drop_first() =~= tail + rest);
        assert forall|c: char| !word.contains(c) implies !tail.contains(c) by {
            if tail.contains(c) {
                let k = choose|k: int| 0 <= k < tail.len() && tail[k] == c;
                assert(word[k + 1] == c);
            }
        }
        lemma_read_word(part.push(word[0]), in_quote, tail, rest);
        assert(part.push(word[0]) + tail =~= part + word);
    }
}

/// Around a space that no quote encloses, both sides are split on their own.
pub proof fn lemma_split_at_space(part: Seq<char>, left: Seq<char>, right: Seq<char>)
    requires
        !left.contains('"'),
    ensures
        tokens_after(part, false, left + seq![' '] + right) == tokens_after(part, false, left)
            + tokens(right),
    decreases left.len(),
{
    let all = left + seq![' '] + right;
    if left.len() == 0 {
        assert(all[0] == ' ');
        assert(all.drop_first() =~= right);
    } else {
        let tail = left.drop_first();
        assert(left.contains(left[0]));
        assert(!tail.contains('"')) by {
            if tail.contains('"') {
                let k = choose|k: int| 0 <= k < tail.len() && tail[k] == '"';
                assert(left[k + 1] == '"');
            }
        }
        assert(all[0] == left[0]);
        assert(all.drop_first() =~= tail + seq![' '] + right);
        if left[0] == ' ' {
            lemma_split_at_space(Seq::empty(), tail, right);
            let mid = tokens_after(Seq::empty(), false, tail);
            assert(token_list(part) + (mid + tokens(right)) =~= (token_list(part) + mid) + tokens(
                right,
            ));
        } else {
            lemma_split_at_space(part.push(left[0]), tail, right);
        }
    }
}

/// Two queries typed one behind the other, with a space between, have the tokens of both, where
/// the first holds no quote that could reach into the second.
pub proof fn law_tokens_add_up(left: Seq<char>, right: Seq<char>)
    requires
        !left.contains('"'),
    ensures
        tokens(left + seq![' '] + right) == tokens(left) + tokens(right),
{
    lemma_split_at_space(Seq::empty(), left, right);
}

/// A text that holds no quote anywhere in any of its parts holds none once they are joined.
pub proof fn lemma_joined_unquoted(parts: Seq<Seq<char>>)
    requires
        forall|i: int| 0 <= i < parts.len() ==> !(#[trigger] parts[i]).contains('"'),
    ensures
        !joined(parts, " "@).contains('"'),
    decreases parts.len(),
{
    if parts.len() > 1 {
        reveal_strlit(" ");
        let front = parts.drop_last();
        assert forall|i: int| 0 <= i < front.len() implies !(#[trigger] front[i]).contains(
            '"',
        ) by {
            assert(front[i] == parts[i]);
        }
        lemma_joined_unquoted(front);
        let a = joined(front, " "@);
        let all = a + " "@ + parts.last();
        assert forall|k: int| 0 <= k < all.len() implies all[k] != '"' by {
            if k < a.len() {
                assert(a.contains(a[k]));
            } else if k > a.len() {
                assert(parts.last().contains(parts.last()[k - a.len() - 1]));
                assert(!parts[parts.len() - 1].contains('"'));
            }
        }
    }
}

/// Words joined with spaces split into these words again: nothing is lost where no word holds a
/// space or a quote.
pub proof fn law_joined_words_split_again(words: Seq<Seq<char>>)
    requires
        forall|i: int|
            0 <= i < words.len() ==> (#[trigger] words[i]).len() > 0 && !words[i].contains('"')
                && !words[i].contains(' '),
    ensures
        tokens(joined(words, " "@)) == words,
    decreases words.len(),
{
    reveal_strlit(" ");
    assert(" "@ =~= seq![' ']);
    if words.len() == 0 {
        assert(tokens(joined(words, " "@)) =~= words);
    } else {
        let last = words[words.len() - 1];
        assert(tokens(last) == seq![last]) by {
            lemma_read_word(Seq::empty(), false, last, Seq::empty());
            assert(last + Seq::<char>::empty() =~= last);
            assert(Seq::<char>::empty() + last =~= last);
        }
        if words.len() == 1 {
            assert(tokens(joined(words, " "@)) =~= words);
        } else {
            let front = words.drop_last();
            assert forall|i: int| 0 <= i < front.len() implies (#[trigger] front[i]).len() > 0
                && !front[i].contains('"') && !front[i].contains(' ') by {
                assert(front[i] == words[i]);
            }
            law_joined_words_split_again(front);
            lemma_joined_unquoted(front);
            lemma_split_at_space(Seq::empty(), joined(front, " "@), last);
            assert(front + seq![last] =~= words);
        }
    }
}

/// Filling in the `in:` filter leaves the path as one token, spaces and all, in front of the
/// tokens that were no `in:` filter.
///
/// A path with a double quote in it cannot be typed, and a kept token with a space in it has lost
/// the quotes around it.
pub proof fn law_completion_keeps_tokens(query: Seq<char>, path: Seq<char>)
    requires
        !path.contains('"'),
        forall|i: int|
            0 <= i < kept_tokens(query).len() ==> !(#[trigger] kept_tokens(query)[i]).contains(
                ' ',
            ),
    ensures
        tokens(completed_query(query, path)) == seq!["in:"@ + path] + kept_tokens(query),
{
    reveal_strlit("in:");
    reveal_strlit("in:\"");
    reveal_strlit("\"");
    reveal_strlit(" ");
    let kept = kept_tokens(query);
    let first = "in:"@ + path;
    let typed = typed_in_filter(path);
    law_tokens_are_words(query);
    assert forall|i: int| 0 <= i < kept.len() implies (#[trigger] kept[i]).len() > 0
        && !kept[i].contains('"') && !kept[i].contains(' ') by {
        let pred = |p: Seq<char>| not_in_filter(p);
        tokens(query).lemma_filter_contains_rev(pred, kept[i]);
        let j = choose|j: int| 0 <= j < tokens(query).len() && tokens(query)[j] == kept[i];
        assert(tokens(query)[j].len() > 0);
    }
    law_joined_words_split_again(kept);
    let tail: Seq<char> = if kept.len() > 0 {
        seq![' '] + joined(kept, " "@)
    } else {
        Seq::empty()
    };
    assert(completed_query(query, path) =~= typed + tail) by {
        assert(" "@ =~= seq![' ']);
    }
    assert(tokens(typed + tail) == tokens_after(first, false, tail)) by {
        if path.contains(' ') {
            let start = "in:"@;
            let from_path = path + (seq!['"'] + tail);
            assert(typed + tail =~= start + (seq!['"'] + from_path)) by {
                assert("in:\""@ =~= start + seq!['"']);
                assert("\""@ =~= seq!['"']);
            }
            assert(!start.contains('"') && !start.contains(' '));
            lemma_read_word(Seq::empty(), false, start, seq!['"'] + from_path);
            assert(Seq::<char>::empty() + start =~= start);
            assert((seq!['"'] + from_path).drop_first() =~= from_path);
            lemma_read_word(start, true, path, seq!['"'] + tail);
            assert((seq!['"'] + tail).drop_first() =~= tail);
        } else {
            assert(!first.contains('"') && !first.contains(' ')) by {
                assert forall|k: int| 0 <= k < first.len() implies first[k] != '"' && first[k]
                    != ' ' by {
                    if k >= 3 {
                        assert(path.contains(path[k - 3]));
                    }
                }
            }
            lemma_read_word(Seq::empty(), false, first, tail);
            assert(Seq::<char>::empty() + first =~= first);
        }
    }
    if kept.len() > 0 {
        assert(tail[0] == ' ');
        assert(tail.drop_first() =~= joined(kept, " "@));
    } else {
        assert(seq![first] + kept =~= seq![first]);
    }
}

/// Reading an `in:` token changes the path filter and nothing else.
proof fn lemma_in_token_changes_path_only(f: Filters, part: Seq<char>)
    requires
        "in:"@.is_prefix_of(part),
    ensures
        with_token(f, part) == (Filters { path: with_token(f, part).path, ..f }),
{
    reveal_strlit("in:");
    reveal_strlit("ext:");
    if "ext:"@.is_prefix_of(part) {
        assert("ext:"@[0] == part[0]) by {
            assert("ext:"@ == part.take(4));
        }
        assert("in:"@[0] == part[0]) by {
            assert("in:"@ == part.take(3));
        }
    }
}

/// Two states that agree on all but the path filter agree on all but the path filter once the
/// same token has been read; on a token that is no `in:` filter each keeps its own path filter.
proof fn lemma_other_tokens_keep_path(f: Filters, g: Filters, part: Seq<char>)
    requires
        f == (Filters { path: f.path, ..g }),
        not_in_filter(part),
    ensures
        with_token(f, part) == (Filters { path: f.path, ..with_token(g, part) }),
{
}

/// The filters of the tokens without the `in:` filters are those of all tokens but for the path.
proof fn lemma_filters_without_in(parts: Seq<Seq<char>>)
    ensures
        filters_of(parts.filter(|p: Seq<char>| not_in_filter(p))) == (Filters {
            path: None,
            ..filters_of(parts)
        }),
    decreases parts.len(),
{
    reveal(Seq::filter);
    let keep = |p: Seq<char>| not_in_filter(p);
    if parts.len() == 0 {
        assert(parts.filter(keep) =~= Seq::<Seq<char>>::empty());
    } else {
        let front = parts.drop_last();
        let last = parts.last();
        lemma_filters_without_in(front);
        if keep(last) {
            let kept = front.filter(keep).push(last);
            assert(kept.drop_last() =~= front.filter(keep));
            assert(parts.filter(keep) == kept);
            lemma_other_tokens_keep_path(
                filters_of(front.filter(keep)),
                filters_of(front),
                last,
            );
        } else {
            lemma_in_token_changes_path_only(filters_of(front), last);
        }
    }
}

/// Reading one more token in front changes nothing but the path filter where that token is an
/// `in:` filter and no other is.
proof fn lemma_leading_in_filter(first: Seq<char>, rest: Seq<Seq<char>>)
    requires
        "in:"@.is_prefix_of(first),
        forall|i: int| 0 <= i < rest.len() ==> not_in_filter(#[trigger] rest[i]),
    ensures
        filters_of(seq![first] + rest) == (Filters {
            path: with_token(filters_of(Seq::empty()), first).path,
            ..filters_of(rest)
        }),
    decreases rest.len(),
{
    let all = seq![first] + rest;
    if rest.len() == 0 {
        assert(all =~= seq![first]);
        assert(all.drop_last() =~= Seq::<Seq<char>>::empty());
        lemma_in_token_changes_path_only(filters_of(Seq::empty()), first);
    } else {
        let front = rest.drop_last();
        assert(all.drop_last() =~= seq![first] + front);
        assert forall|i: int| 0 <= i < front.len() implies not_in_filter(#[trigger] front[i]) by {
            assert(front[i] == rest[i]);
        }
        lemma_leading_in_filter(first, front);
        assert(not_in_filter(rest[rest.len() - 1]));
        lemma_other_tokens_keep_path(
            filters_of(seq![first] + front),
            filters_of(front),
            rest.last(),
        );
    }
}

/// Filling in the `in:` filter sets the path filter to the path and leaves everything else that
/// the query says as it was.
pub proof fn law_completion_sets_path_only(query: Seq<char>, path: Seq<char>)
    requires
        path.len() > 0,
        !path.contains('"'),
        forall|i: int|
            0 <= i < kept_tokens(query).len() ==> !(#[trigger] kept_tokens(query)[i]).contains(
                ' ',
            ),
    ensures
        query_model(completed_query(query, path)) == (QueryModel {
            path: Some(path_value(path)),
            ..query_model(query)
        }),
{
    let kept = kept_tokens(query);
    let first = "in:"@ + path;
    law_completion_keeps_tokens(query, path);
    lemma_filters_without_in(tokens(query));
    assert("in:"@.is_prefix_of(first)) by {
        assert(first.take("in:"@.len() as int) =~= "in:"@);
    }
    assert forall|i: int| 0 <= i < kept.len() implies not_in_filter(#[trigger] kept[i]) by {
        let keep = |p: Seq<char>| not_in_filter(p);
        tokens(query).lemma_filter_pred(keep, i);
    }
    lemma_leading_in_filter(first, kept);
    assert(first.skip("in:"@.len() as int) =~= path);
    reveal_strlit("in:");
    reveal_strlit("ext:");
    assert(first[0] == 'i');
    assert(!"ext:"@.is_prefix_of(first)) by {
        if "ext:"@.is_prefix_of(first) {
            assert("ext:"@[0] == first.take(4)[0]);
        }
    }
}

/// `content:` is another name for `grep:`.
pub proof fn law_content_is_grep(f: Filters, value: Seq<char>)
    ensures
        with_token(f, "content:"@ + value) == with_token(f, "grep:"@ + value),
{
    let a = "content:"@ + value;
    let b = "grep:"@ + value;
    assert(a.take("content:"@.len() as int) =~= "content:"@);
    assert(b.take("grep:"@.len() as int) =~= "grep:"@);
    assert(a.skip("content:"@.len() as int) =~= value);
    assert(b.skip("grep:"@.len() as int) =~= value);
    lemma_first_letters();
    lemma_other_first_letter(a, "ext:"@);
    lemma_other_first_letter(b, "ext:"@);
    lemma_other_first_letter(a, "in:"@);
    lemma_other_first_letter(b, "in:"@);
    lemma_other_first_letter(a, "re:"@);
    lemma_other_first_letter(b, "re:"@);
    lemma_other_first_letter(a, "regex:"@);
    lemma_other_first_letter(b, "regex:"@);
    lemma_other_first_letter(a, "grep:"@);
    assert(a[0] == 'c' && b[0] == 'g');
}

/// `folder:` is another name for `dir:`.
pub proof fn law_folder_is_dir(f: Filters)
    ensures
        with_token(f, "folder:"@) == with_token(f, "dir:"@),
{
    lemma_first_letters();
    lemma_other_first_letter("folder:"@, "ext:"@);
    lemma_other_first_letter("folder:"@, "in:"@);
    lemma_other_first_letter("dir:"@, "ext:"@);
    lemma_other_first_letter("dir:"@, "in:"@);
}

/// `re:` is another name for `regex:`.
pub proof fn law_re_is_regex(f: Filters, value: Seq<char>)
    ensures
        with_token(f, "re:"@ + value) == with_token(f, "regex:"@ + value),
{
    let a = "re:"@ + value;
    let b = "regex:"@ + value;
    assert(a.take("re:"@.len() as int) =~= "re:"@);
    assert(b.take("regex:"@.len() as int) =~= "regex:"@);
    assert(a.skip("re:"@.len() as int) =~= value);
    assert(b.skip("regex:"@.len() as int) =~= value);
    lemma_first_letters();
    lemma_other_first_letter(a, "ext:"@);
    lemma_other_first_letter(b, "ext:"@);
    lemma_other_first_letter(a, "in:"@);
    lemma_other_first_letter(b, "in:"@);
    assert(a[0] == 'r' && b[0] == 'r');
    assert(!"re:"@.is_prefix_of(b)) by {
        if "re:"@.is_prefix_of(b) {
            assert("re:"@[2] == b.take(3)[2]);
            assert(b[2] == 'g');
        }
    }
}

/// The letters that the filter names begin with.
pub proof fn lemma_first_letters()
    ensures
        "ext:"@.len() == 4 && "ext:"@[0] == 'e',
        "in:"@.len() == 3 && "in:"@[0] == 'i',
        "dir:"@.len() == 4 && "dir:"@[0] == 'd',
        "folder:"@.len() == 7 && "folder:"@[0] == 'f',
        "re:"@.len() == 3 && "re:"@[0] == 'r' && "re:"@[2] == ':',
        "regex:"@.len() == 6 && "regex:"@[0] == 'r' && "regex:"@[2] == 'g',
        "grep:"@.len() == 5 && "grep:"@[0] == 'g',
        "content:"@.len() == 8 && "content:"@[0] == 'c',
{
    reveal_strlit("ext:");
    reveal_strlit("in:");
    reveal_strlit("dir:");
    reveal_strlit("folder:");
    reveal_strlit("re:");
    reveal_strlit("regex:");
    reveal_strlit("grep:");
    reveal_strlit("content:");
}

/// A text does not begin with a name whose first letter is another.
pub proof fn lemma_other_first_letter(text: Seq<char>, name: Seq<char>)
    ensures
        text.len() > 0 && name.len() > 0 && text[0] != name[0] ==> !name.is_prefix_of(text),
{
    if text.len() > 0 && name.len() > 0 && name.is_prefix_of(text) {
        assert(name[0] == text.take(name.len() as int)[0]);
    }
}

/// A word that asks for a search of contents.
spec fn content_word(word: Seq<char>) -> bool {
    "grep:"@.is_prefix_of(word) || "content:"@.is_prefix_of(word)
}

/// A list of tokens asks for a search of contents where one of them does.
proof fn lemma_content_tokens(parts: Seq<Seq<char>>)
    ensures
        filters_of(parts).content_search <==> has_content_token(parts),
    decreases parts.len(),
{
    if parts.len() > 0 {
        let front = parts.drop_last();
        let last = parts.last();
        lemma_content_tokens(front);
        lemma_first_letters();
        lemma_same_first_letter(last, "grep:"@);
        lemma_same_first_letter(last, "content:"@);
        lemma_same_first_letter(last, "ext:"@);
        lemma_same_first_letter(last, "in:"@);
        lemma_same_first_letter(last, "re:"@);
        lemma_same_first_letter(last, "regex:"@);
        assert(parts =~= front + seq![last]);
        lemma_content_token_in_either(front, seq![last]);
        if content_word(last) {
            assert(seq![last][0] == last);
        }
    }
}

pub proof fn lemma_same_first_letter(text: Seq<char>, name: Seq<char>)
    ensures
        name.len() > 0 && name.is_prefix_of(text) ==> text.len() > 0 && text[0] == name[0],
{
    if name.len() > 0 && name.is_prefix_of(text) {
        assert(name[0] == text.take(name.len() as int)[0]);
    }
}

/// A name without spaces begins a text where it begins what stands before the first space.
proof fn lemma_prefix_stops_at_space(name: Seq<char>, word: Seq<char>, rest: Seq<char>)
    requires
        !name.contains(' '),
    ensures
        name.is_prefix_of(word + (seq![' '] + rest)) <==> name.is_prefix_of(word),
{
    let all = word + (seq![' '] + rest);
    if name.is_prefix_of(word) {
        assert(all.take(name.len() as int) =~= word.take(name.len() as int));
    }
    if name.is_prefix_of(all) {
        if name.len() > word.len() {
            assert(all.take(name.len() as int)[word.len() as int] == ' ');
            assert(name[word.len() as int] == ' ');
        } else {
            assert(word.take(name.len() as int) =~= all.take(name.len() as int));
        }
    }
}

/// Some token of a list asks for a search of contents.
spec fn has_content_token(parts: Seq<Seq<char>>) -> bool {
    exists|i: int| 0 <= i < parts.len() && content_word(#[trigger] parts[i])
}

/// Some word of a query that begins at `from` or behind it asks for a search of contents.
spec fn has_content_word(query: Seq<char>, from: int) -> bool {
    exists|at: int| from <= at && content_word_at(query, at)
}

proof fn lemma_content_token_in_either(a: Seq<Seq<char>>, b: Seq<Seq<char>>)
    ensures
        has_content_token(a + b) <==> has_content_token(a) || has_content_token(b),
{
    let all = a + b;
    if has_content_token(a) {
        let i = choose|i: int| 0 <= i < a.len() && content_word(#[trigger] a[i]);
        assert(content_word(all[i]));
    }
    if has_content_token(b) {
        let i = choose|i: int| 0 <= i < b.len() && content_word(#[trigger] b[i]);
        assert(content_word(all[a.len() + i]));
    }
    if has_content_token(all) {
        let i = choose|i: int| 0 <= i < all.len() && content_word(#[trigger] all[i]);
        if i < a.len() {
            assert(content_word(a[i]));
        } else {
            assert(content_word(b[i - a.len()]));
        }
    }
}

proof fn lemma_content_names()
    ensures
        "grep:"@.len() == 5,
        "content:"@.len() == 8,
        !"grep:"@.contains(' '),
        !"content:"@.contains(' '),
{
    reveal_strlit("grep:");
    reveal_strlit("content:");
}

/// The token that a finished part gives asks for a search of contents where the part does.
proof fn lemma_content_part(part: Seq<char>)
    ensures
        has_content_token(token_list(part)) <==> content_word(part),
{
    lemma_content_names();
    if content_word(part) {
        assert(token_list(part)[0] == part);
    }
}

/// Between the beginning of a word and the space behind it, no other word begins.
proof fn lemma_no_word_within(query: Seq<char>, from: int, to: int)
    requires
        0 <= from <= to <= query.len(),
        forall|i: int| 0 <= i < query.len() && whitespace(#[trigger] query[i]) ==> query[i] == ' ',
        forall|i: int| from <= i < to ==> query[i] != ' ',
    ensures
        has_content_word(query, from) <==> content_word_at(query, from) || has_content_word(
            query,
            to + 1,
        ),
{
    if has_content_word(query, to + 1) {
        let at = choose|at: int| to + 1 <= at && content_word_at(query, at);
        assert(from <= at && content_word_at(query, at));
    }
    if has_content_word(query, from) {
        let at = choose|at: int| from <= at && content_word_at(query, at);
        if from < at <= to {
            assert(whitespace(query[at - 1]));
        }
    }
}

/// What is left to read of a query asks for a search of contents where one of its words does;
/// `done` has been read up to a space, and `part` of the word behind it.
proof fn lemma_content_words(query: Seq<char>, done: Seq<char>, part: Seq<char>, rest: Seq<char>)
    requires
        query == done + part + rest,
        !query.contains('"'),
        forall|i: int| 0 <= i < query.len() && whitespace(#[trigger] query[i]) ==> query[i] == ' ',
        !part.contains(' '),
        done.len() == 0 || done.last() == ' ',
    ensures
        has_content_token(tokens_after(part, false, rest)) <==> has_content_word(
            query,
            done.len() as int,
        ),
    decreases rest.len(),
{
    let n = done.len() as int;
    let to = n + part.len();
    assert(query.skip(n) =~= part + rest);
    assert(n == 0 || query[n - 1] == ' ');
    assert forall|i: int| n <= i < to implies query[i] != ' ' by {
        assert(query[i] == part[i - n]);
        assert(part.contains(part[i - n]));
    }
    if rest.len() == 0 {
        assert(part + rest =~= part);
        lemma_content_part(part);
        lemma_no_word_within(query, n, to);
        assert(!has_content_word(query, to + 1));
    } else {
        let tail = rest.drop_first();
        assert(query[to] == rest[0]);
        if rest[0] == '"' {
            assert(query.contains('"'));
        } else if rest[0] == ' ' {
            let next = done + part + seq![' '];
            assert(next + Seq::<char>::empty() + tail =~= query);
            lemma_content_words(query, next, Seq::empty(), tail);
            assert(rest =~= seq![' '] + tail);
            lemma_content_names();
            lemma_prefix_stops_at_space("grep:"@, part, tail);
            lemma_prefix_stops_at_space("content:"@, part, tail);
            assert(content_word_at(query, n) <==> content_word(part));
            lemma_no_word_within(query, n, to);
            lemma_content_part(part);
            lemma_content_token_in_either(
                token_list(part),
                tokens_after(Seq::empty(), false, tail),
            );
        } else {
            let longer = part.push(rest[0]);
            assert(!longer.contains(' ')) by {
                assert forall|k: int| 0 <= k < longer.len() implies longer[k] != ' ' by {
                    if k < part.len() {
                        assert(part.contains(part[k]));
                    }
                }
            }
            assert(done + longer + tail =~= query);
            lemma_content_words(query, done, longer, tail);
        }
    }
}

/// A query is searched for by contents on request exactly where that is what it asks for.
///
/// Quotes and white space other than spaces are the exception: they part the words of a query but
/// not its tokens, or the other way round.
pub proof fn law_content_queries_agree(query: Seq<char>)
    requires
        !query.contains('"'),
        forall|i: int| 0 <= i < query.len() && whitespace(#[trigger] query[i]) ==> query[i] == ' ',
    ensures
        content_query(query) <==> query_model(query).content_search,
{
    assert(Seq::<char>::empty() + Seq::<char>::empty() + query =~= query);
    lemma_content_words(query, Seq::empty(), Seq::empty(), query);
    lemma_content_tokens(tokens(query));
    if content_query(query) {
        let at = choose|at: int| content_word_at(query, at);
        assert(0 <= at && content_word_at(query, at));
        assert(has_content_word(query, 0));
    }
}

/// An extension as it is compared: in lowercase and without dots.
pub open spec fn bare_extension(value: Seq<char>) -> Seq<char> {
    value.map_values(|c: char| ascii_lower(c)).filter(|c: char| c != '.')
}

/// Two values of `ext:` name one extension: they are the same in lowercase, or they are in ASCII
/// and differ in dots and in the case of letters only, or what is left of both in lowercase without
/// the dots is the same, whatever they are.
pub open spec fn same_extension(x: Seq<char>, y: Seq<char>) -> bool {
    ||| lowercase(x) == lowercase(y)
    ||| is_ascii_chars(x) && is_ascii_chars(y) && bare_extension(x) == bare_extension(y)
    ||| extension_value(x) == extension_value(y)
}

/// A character of a path as it is compared: in lowercase, and a backslash for a slash.
pub open spec fn path_char(c: char) -> char {
    if c == '/' {
        '\\'
    } else {
        ascii_lower(c)
    }
}

/// Two values of `in:` name one path: they are the same in lowercase, or they are in ASCII and
/// differ in the case of letters and the direction of slashes only, or they are the same once in
/// lowercase and with the slashes turned, whatever they are.
pub open spec fn same_path(x: Seq<char>, y: Seq<char>) -> bool {
    &&& x.len() == 0 <==> y.len() == 0
    &&& lowercase(x) == lowercase(y) || (is_ascii_chars(x) && is_ascii_chars(y) && x.map_values(
        |c: char| path_char(c),
    ) == y.map_values(|c: char| path_char(c))) || path_value(x) == path_value(y)
}

/// A token that asks for directories only.
pub open spec fn dir_token(part: Seq<char>) -> bool {
    part == "dir:"@ || part == "folder:"@
}

/// Two tokens are two spellings of one: `grep:` and `content:`, `re:` and `regex:`, or `dir:` and
/// `folder:` in place of each other, or one extension or path spelled in two ways.
pub open spec fn spelled_alike(p: Seq<char>, q: Seq<char>) -> bool {
    ||| p == q
    ||| value_behind(p, "grep:"@, "content:"@) is Some && value_behind(p, "grep:"@, "content:"@)
        == value_behind(q, "grep:"@, "content:"@)
    ||| value_behind(p, "re:"@, "regex:"@) is Some && value_behind(p, "re:"@, "regex:"@)
        == value_behind(q, "re:"@, "regex:"@)
    ||| dir_token(p) && dir_token(q)
    ||| "ext:"@.is_prefix_of(p) && "ext:"@.is_prefix_of(q) && same_extension(
        p.skip("ext:"@.len() as int),
        q.skip("ext:"@.len() as int),
    )
    ||| "in:"@.is_prefix_of(p) && "in:"@.is_prefix_of(q) && same_path(
        p.skip("in:"@.len() as int),
        q.skip("in:"@.len() as int),
    )
}

/// A dot in front of an extension, and the case of its ASCII letters, change nothing.
pub proof fn law_extension_spellings(x: Seq<char>, y: Seq<char>)
    requires
        is_ascii_chars(x),
        is_ascii_chars(y),
        x.len() == y.len(),
        forall|i: int| 0 <= i < x.len() ==> ascii_lower(#[trigger] x[i]) == ascii_lower(y[i]),
    ensures
        same_extension(x, y),
        same_extension(x, seq!['.'] + y),
{
    let dotted = seq!['.'] + y;
    let keep = |c: char| c != '.';
    let lower = |c: char| ascii_lower(c);
    assert(x.map_values(lower) =~= y.map_values(lower));
    assert(dotted.map_values(lower) =~= seq!['.'] + y.map_values(lower));
    lemma_filter_front(y.map_values(lower), '.', keep);
    assert forall|i: int| 0 <= i < dotted.len() implies '\0' <= #[trigger] dotted[i]
        <= '\u{7f}' by {
        if i > 0 {
            assert(dotted[i] == y[i - 1]);
        }
    }
}

/// The direction of slashes in a path, and the case of its ASCII letters, change nothing.
pub proof fn law_path_spellings(x: Seq<char>, y: Seq<char>)
    requires
        is_ascii_chars(x),
        is_ascii_chars(y),
        x.len() == y.len(),
        forall|i: int| 0 <= i < x.len() ==> path_char(#[trigger] x[i]) == path_char(y[i]),
    ensures
        same_path(x, y),
{
    assert(x.map_values(|c: char| path_char(c)) =~= y.map_values(|c: char| path_char(c)));
}

proof fn lemma_filter_front(s: Seq<char>, c: char, keep: spec_fn(char) -> bool)
    requires
        !keep(c),
    ensures
        (seq![c] + s).filter(keep) == s.filter(keep),
    decreases s.len(),
{
    reveal(Seq::filter);
    let all = seq![c] + s;
    if s.len() == 0 {
        assert(all.drop_last() =~= s);
        assert(all.last() == c);
        assert(all.filter(keep) =~= s.filter(keep));
    } else {
        assert(all.drop_last() =~= seq![c] + s.drop_last());
        lemma_filter_front(s.drop_last(), c, keep);
    }
}

/// Taking the dots out of a text leaves the other characters.
pub proof fn lemma_dots_taken(s: Seq<char>)
    ensures
        replaced(s, "."@, ""@) == s.filter(|c: char| c != '.'),
    decreases s.len(),
{
    reveal_strlit(".");
    reveal_strlit("");
    let keep = |c: char| c != '.';
    if s.len() == 0 {
        reveal(Seq::filter);
        assert(s.filter(keep) =~= s);
    } else {
        let rest = s.drop_first();
        lemma_dots_taken(rest);
        assert(s =~= seq![s[0]] + rest);
        assert(s.take(1) =~= seq![s[0]]);
        assert("."@ =~= seq!['.']);
        if s[0] == '.' {
            lemma_filter_front(rest, s[0], keep);
            assert(s.skip(1) =~= rest);
            assert(""@ + replaced(rest, "."@, ""@) =~= replaced(rest, "."@, ""@));
        } else {
            assert("."@[0] != s.take(1)[0]);
            lemma_filter_kept_front(rest, s[0], keep);
        }
    }
}

proof fn lemma_filter_kept_front(s: Seq<char>, c: char, keep: spec_fn(char) -> bool)
    requires
        keep(c),
    ensures
        (seq![c] + s).filter(keep) == seq![c] + s.filter(keep),
    decreases s.len(),
{
    reveal(Seq::filter);
    let all = seq![c] + s;
    if s.len() == 0 {
        assert(all.drop_last() =~= Seq::<char>::empty());
        assert(Seq::<char>::empty().filter(keep) =~= Seq::<char>::empty());
        assert(all.filter(keep) =~= seq![c] + s.filter(keep));
    } else {
        assert(all.drop_last() =~= seq![c] + s.drop_last());
        lemma_filter_kept_front(s.drop_last(), c, keep);
        assert(all.filter(keep) =~= seq![c] + s.filter(keep));
    }
}

/// Turning the slashes of a text leaves the other characters.
pub proof fn lemma_slashes_turned(s: Seq<char>)
    ensures
        replaced(s, "/"@, "\\"@) == s.map_values(
            |c: char|
                if c == '/' {
                    '\\'
                } else {
                    c
                },
        ),
    decreases s.len(),
{
    reveal_strlit("/");
    reveal_strlit("\\");
    let turn = |c: char|
        if c == '/' {
            '\\'
        } else {
            c
        };
    if s.len() > 0 {
        let rest = s.drop_first();
        lemma_slashes_turned(rest);
        assert(s.take(1) =~= seq![s[0]]);
        assert("/"@ =~= seq!['/']);
        assert("\\"@ =~= seq!['\\']);
        if s[0] == '/' {
            assert(s.skip(1) =~= rest);
        } else {
            assert("/"@[0] != s.take(1)[0]);
        }
        assert(replaced(s, "/"@, "\\"@) =~= s.map_values(turn));
    } else {
        assert(s.map_values(turn) =~= s);
    }
}

/// Two spellings of an extension are read as one.
proof fn lemma_same_extension(x: Seq<char>, y: Seq<char>)
    requires
        same_extension(x, y),
    ensures
        extension_value(x) == extension_value(y),
{
    lemma_dots_taken(lowercase(x));
    lemma_dots_taken(lowercase(y));
}

/// Two spellings of a path are read as one.
proof fn lemma_same_path(x: Seq<char>, y: Seq<char>)
    requires
        same_path(x, y),
    ensures
        path_value(x) == path_value(y),
{
    if lowercase(x) != lowercase(y) && path_value(x) != path_value(y) {
        let pc = |c: char| path_char(c);
        lemma_slashes_turned(lowercase(x));
        lemma_slashes_turned(lowercase(y));
        assert(path_value(x) =~= x.map_values(pc));
        assert(path_value(y) =~= y.map_values(pc));
    }
}

/// Two spellings of a token say the same.
pub proof fn law_spellings_say_the_same(f: Filters, p: Seq<char>, q: Seq<char>)
    requires
        spelled_alike(p, q),
    ensures
        with_token(f, p) == with_token(f, q),
{
    lemma_first_letters();
    lemma_token_kinds(p);
    lemma_token_kinds(q);
    if "ext:"@.is_prefix_of(p) && "ext:"@.is_prefix_of(q) && same_extension(
        p.skip("ext:"@.len() as int),
        q.skip("ext:"@.len() as int),
    ) {
        lemma_same_extension(p.skip("ext:"@.len() as int), q.skip("ext:"@.len() as int));
    }
    if "in:"@.is_prefix_of(p) && "in:"@.is_prefix_of(q) && same_path(
        p.skip("in:"@.len() as int),
        q.skip("in:"@.len() as int),
    ) {
        lemma_same_path(p.skip("in:"@.len() as int), q.skip("in:"@.len() as int));
    }
}

/// What a token begins with tells it from the other kinds.
pub proof fn lemma_token_kinds(p: Seq<char>)
    ensures
        value_behind(p, "grep:"@, "content:"@) is Some ==> !"ext:"@.is_prefix_of(p)
            && !"in:"@.is_prefix_of(p) && !dir_token(p) && value_behind(p, "re:"@, "regex:"@)
            is None,
        value_behind(p, "re:"@, "regex:"@) is Some ==> !"ext:"@.is_prefix_of(p)
            && !"in:"@.is_prefix_of(p) && !dir_token(p),
        dir_token(p) ==> !"ext:"@.is_prefix_of(p) && !"in:"@.is_prefix_of(p),
        "in:"@.is_prefix_of(p) ==> !"ext:"@.is_prefix_of(p),
{
    lemma_first_letters();
    lemma_same_first_letter(p, "grep:"@);
    lemma_same_first_letter(p, "content:"@);
    lemma_same_first_letter(p, "ext:"@);
    lemma_same_first_letter(p, "in:"@);
    lemma_same_first_letter(p, "re:"@);
    lemma_same_first_letter(p, "regex:"@);
}

/// Two lists of tokens whose tokens are pairwise spelled alike.
pub open spec fn all_spelled_alike(ps: Seq<Seq<char>>, qs: Seq<Seq<char>>) -> bool {
    &&& ps.len() == qs.len()
    &&& forall|i: int| 0 <= i < ps.len() ==> spelled_alike(#[trigger] ps[i], qs[i])
}

proof fn lemma_same_filters(ps: Seq<Seq<char>>, qs: Seq<Seq<char>>)
    requires
        all_spelled_alike(ps, qs),
    ensures
        filters_of(ps) == filters_of(qs),
    decreases ps.len(),
{
    if ps.len() > 0 {
        let pf = ps.drop_last();
        let qf = qs.drop_last();
        assert forall|i: int| 0 <= i < pf.len() implies spelled_alike(#[trigger] pf[i], qf[i]) by {
            assert(pf[i] == ps[i]);
        }
        lemma_same_filters(pf, qf);
        assert(spelled_alike(ps[ps.len() - 1], qs[qs.len() - 1]));
        law_spellings_say_the_same(filters_of(pf), ps.last(), qs.last());
    }
}

/// Two queries whose tokens are pairwise spelled alike ask for the same.
pub proof fn law_spelled_queries_ask_the_same(query: Seq<char>, other: Seq<char>)
    requires
        all_spelled_alike(tokens(query), tokens(other)),
    ensures
        query_model(query) == query_model(other),
{
    lemma_same_filters(tokens(query), tokens(other));
}

} // verus!
