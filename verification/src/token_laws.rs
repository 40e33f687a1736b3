//! What each token of a query does, whatever stands before it.
use vstd::prelude::*;

use crate::query::{
    filters_of, last_grep_value, plain_token, query_model, search_term, search_text, token_list,
    tokens, tokens_after, value_behind, with_token, Filters, QueryModel,
};
use crate::query_laws::{
    law_joined_words_split_again, law_tokens_add_up, law_tokens_are_words, lemma_dots_taken,
    lemma_first_letters, lemma_joined_unquoted, lemma_other_first_letter, lemma_read_word,
    lemma_slashes_turned, lemma_token_kinds,
};
use crate::text::{joined, lowercase};

verus! {

/// A word that can be typed as one token: it is not empty, and neither spaces nor quotes are in it.
pub open spec fn one_word(w: Seq<char>) -> bool {
    w.len() > 0 && !w.contains(' ') && !w.contains('"')
}

/// A word that is no filter.
pub open spec fn ordinary_word(w: Seq<char>) -> bool {
    &&& one_word(w)
    &&& !"ext:"@.is_prefix_of(w)
    &&& !"in:"@.is_prefix_of(w)
    &&& !"re:"@.is_prefix_of(w)
    &&& !"regex:"@.is_prefix_of(w)
    &&& !"grep:"@.is_prefix_of(w)
    &&& !"content:"@.is_prefix_of(w)
    &&& w != "dir:"@
    &&& w != "folder:"@
}

/// A single word is a token.
proof fn lemma_word_is_token(w: Seq<char>)
    requires
        one_word(w),
    ensures
        tokens(w) == seq![w],
{
    lemma_read_word(Seq::empty(), false, w, Seq::empty());
    assert(w + Seq::<char>::empty() =~= w);
    assert(Seq::<char>::empty() + w =~= w);
    assert(tokens(w) =~= seq![w]);
}

/// A word behind a query without quotes is one more token.
proof fn lemma_token_added(left: Seq<char>, w: Seq<char>)
    requires
        !left.contains('"'),
        one_word(w),
    ensures
        tokens(left + seq![' '] + w) == tokens(left).push(w),
        filters_of(tokens(left + seq![' '] + w)) == with_token(filters_of(tokens(left)), w),
{
    law_tokens_add_up(left, w);
    lemma_word_is_token(w);
    assert(tokens(left) + seq![w] =~= tokens(left).push(w));
    assert(tokens(left).push(w).drop_last() =~= tokens(left));
}

/// A name with a value behind it is one word.
proof fn lemma_named_word(name: Seq<char>, v: Seq<char>)
    requires
        one_word(name),
        !v.contains(' '),
        !v.contains('"'),
    ensures
        one_word(name + v),
        name.is_prefix_of(name + v),
        (name + v).skip(name.len() as int) == v,
        (name + v)[0] == name[0],
{
    let w = name + v;
    assert forall|k: int| 0 <= k < w.len() implies w[k] != ' ' && w[k] != '"' by {
        if k < name.len() {
            assert(name.contains(name[k]));
        } else {
            assert(v.contains(v[k - name.len()]));
        }
    }
    assert(w.take(name.len() as int) =~= name);
    assert(w.skip(name.len() as int) =~= v);
}

/// The names of filters are words.
proof fn lemma_names_are_words()
    ensures
        one_word("ext:"@),
        one_word("in:"@),
        one_word("dir:"@),
        one_word("folder:"@),
        one_word("re:"@),
        one_word("regex:"@),
        one_word("grep:"@),
        one_word("content:"@),
        " "@ == seq![' '],
{
    reveal_strlit("ext:");
    reveal_strlit("in:");
    reveal_strlit("dir:");
    reveal_strlit("folder:");
    reveal_strlit("re:");
    reveal_strlit("regex:");
    reveal_strlit("grep:");
    reveal_strlit("content:");
    reveal_strlit(" ");
    assert(" "@ =~= seq![' ']);
}

/// A filter that is typed behind a query.
proof fn lemma_typed_behind(left: Seq<char>, spaced: Seq<char>, name: Seq<char>, v: Seq<char>)
    requires
        spaced == seq![' '] + name,
    ensures
        left + spaced + v == left + seq![' '] + (name + v),
{
    assert(left + spaced + v =~= left + seq![' '] + (name + v));
}

/// The names of filters with a space in front.
proof fn lemma_spaced_names()
    ensures
        " ext:"@ == seq![' '] + "ext:"@,
        " in:"@ == seq![' '] + "in:"@,
        " re:"@ == seq![' '] + "re:"@,
        " regex:"@ == seq![' '] + "regex:"@,
        " grep:"@ == seq![' '] + "grep:"@,
        " content:"@ == seq![' '] + "content:"@,
{
    reveal_strlit(" ext:");
    reveal_strlit("ext:");
    reveal_strlit(" in:");
    reveal_strlit("in:");
    reveal_strlit(" re:");
    reveal_strlit("re:");
    reveal_strlit(" regex:");
    reveal_strlit("regex:");
    reveal_strlit(" grep:");
    reveal_strlit("grep:");
    reveal_strlit(" content:");
    reveal_strlit("content:");
    assert(" ext:"@ =~= seq![' '] + "ext:"@);
    assert(" in:"@ =~= seq![' '] + "in:"@);
    assert(" re:"@ =~= seq![' '] + "re:"@);
    assert(" regex:"@ =~= seq![' '] + "regex:"@);
    assert(" grep:"@ =~= seq![' '] + "grep:"@);
    assert(" content:"@ =~= seq![' '] + "content:"@);
}

/// No term of a list of words is empty, and the terms are nothing only where there are none.
proof fn lemma_terms(parts: Seq<Seq<char>>)
    requires
        forall|i: int| 0 <= i < parts.len() ==> (#[trigger] parts[i]).len() > 0,
    ensures
        forall|i: int|
            0 <= i < filters_of(parts).terms.len() ==> (#[trigger] filters_of(parts).terms[i]).len()
                > 0,
        joined(filters_of(parts).terms, " "@).len() == 0 <==> filters_of(parts).terms.len() == 0,
    decreases parts.len(),
{
    if parts.len() > 0 {
        let front = parts.drop_last();
        assert forall|i: int| 0 <= i < front.len() implies (#[trigger] front[i]).len() > 0 by {
            assert(front[i] == parts[i]);
        }
        lemma_terms(front);
        let before = filters_of(front).terms;
        let now = filters_of(parts).terms;
        assert(parts[parts.len() - 1].len() > 0);
        assert forall|i: int| 0 <= i < now.len() implies (#[trigger] now[i]).len() > 0 by {
            if i < before.len() {
                assert(now[i] == before[i]);
            }
        }
    }
    let terms = filters_of(parts).terms;
    if terms.len() > 0 {
        assert(terms[terms.len() - 1].len() > 0);
    }
}

/// The text that is searched for once a term has been read too.
proof fn lemma_term_added(f: Filters, w: Seq<char>)
    requires
        w.len() > 0,
        joined(f.terms, " "@).len() == 0 <==> f.terms.len() == 0,
    ensures
        search_text(Filters { terms: f.terms.push(w), ..f }) == (if search_text(f).len() == 0 {
            w
        } else {
            search_text(f) + seq![' '] + w
        }),
{
    lemma_names_are_words();
    let more = f.terms.push(w);
    assert(more.drop_last() =~= f.terms);
    assert(more.last() == w);
    if f.terms.len() == 0 {
        assert(joined(more, " "@) == w);
    } else {
        assert(joined(more, " "@) == joined(f.terms, " "@) + " "@ + w);
    }
    assert(search_text(Filters { terms: more, ..f }) =~= (if search_text(f).len() == 0 {
        w
    } else {
        search_text(f) + seq![' '] + w
    }));
}

/// Nothing typed asks for nothing.
pub proof fn law_empty_query_asks_nothing()
    ensures
        query_model(Seq::empty()) == (QueryModel {
            ext: None,
            dir_only: false,
            use_regex: false,
            content_search: false,
            path: None,
            search: Seq::empty(),
        }),
        search_term(Seq::empty()).len() == 0,
{
    let none = Seq::<Seq<char>>::empty();
    assert(tokens(Seq::empty()) =~= none);
    reveal(Seq::filter);
    assert(none.filter(|p: Seq<char>| plain_token(p)) =~= none);
}

/// A word that is no filter is searched for, behind what is searched for already, and changes
/// nothing else.
pub proof fn law_word_is_searched_for(left: Seq<char>, w: Seq<char>)
    requires
        !left.contains('"'),
        ordinary_word(w),
    ensures
        query_model(left + seq![' '] + w) == (QueryModel {
            search: if query_model(left).search.len() == 0 {
                w
            } else {
                query_model(left).search + seq![' '] + w
            },
            ..query_model(left)
        }),
{
    lemma_token_added(left, w);
    law_tokens_are_words(left);
    lemma_terms(tokens(left));
    lemma_term_added(filters_of(tokens(left)), w);
}

/// `ext:` asks for the extension behind it, in lowercase and without dots, and changes nothing
/// else.
pub proof fn law_ext_sets_extension(left: Seq<char>, v: Seq<char>)
    requires
        !left.contains('"'),
        !v.contains(' '),
        !v.contains('"'),
    ensures
        query_model(left + " ext:"@ + v) == (QueryModel {
            ext: Some(lowercase(v).filter(|c: char| c != '.')),
            ..query_model(left)
        }),
{
    lemma_names_are_words();
    lemma_named_word("ext:"@, v);
    lemma_spaced_names();
    lemma_typed_behind(left, " ext:"@, "ext:"@, v);
    lemma_token_added(left, "ext:"@ + v);
    lemma_dots_taken(lowercase(v));
}

/// `in:` asks for the path behind it, in lowercase and with backslashes for slashes, and changes
/// nothing else; with nothing behind it, it changes nothing.
pub proof fn law_in_sets_path(left: Seq<char>, v: Seq<char>)
    requires
        !left.contains('"'),
        !v.contains(' '),
        !v.contains('"'),
    ensures
        v.len() > 0 ==> query_model(left + " in:"@ + v) == (QueryModel {
            path: Some(
                lowercase(v).map_values(
                    |c: char|
                        if c == '/' {
                            '\\'
                        } else {
                            c
                        },
                ),
            ),
            ..query_model(left)
        }),
        v.len() == 0 ==> query_model(left + " in:"@ + v) == query_model(left),
{
    let w = "in:"@ + v;
    lemma_names_are_words();
    lemma_named_word("in:"@, v);
    lemma_spaced_names();
    lemma_typed_behind(left, " in:"@, "in:"@, v);
    lemma_token_added(left, w);
    lemma_token_kinds(w);
    lemma_slashes_turned(lowercase(v));
}

/// `dir:` and `folder:` ask for directories only and change nothing else.
pub proof fn law_dir_asks_for_directories(left: Seq<char>)
    requires
        !left.contains('"'),
    ensures
        query_model(left + " dir:"@) == (QueryModel { dir_only: true, ..query_model(left) }),
        query_model(left + " folder:"@) == (QueryModel { dir_only: true, ..query_model(left) }),
{
    lemma_names_are_words();
    lemma_first_letters();
    reveal_strlit(" dir:");
    reveal_strlit(" folder:");
    reveal_strlit("dir:");
    reveal_strlit("folder:");
    assert(left + " dir:"@ =~= left + seq![' '] + "dir:"@);
    assert(left + " folder:"@ =~= left + seq![' '] + "folder:"@);
    lemma_token_added(left, "dir:"@);
    lemma_token_added(left, "folder:"@);
    lemma_token_kinds("dir:"@);
    lemma_token_kinds("folder:"@);
}

/// What a token that turns regular expressions on does.
proof fn lemma_regex_token(left: Seq<char>, name: Seq<char>, v: Seq<char>)
    requires
        !left.contains('"'),
        !v.contains(' '),
        !v.contains('"'),
        name == "re:"@ || name == "regex:"@,
    ensures
        query_model(left + seq![' '] + (name + v)) == (QueryModel {
            use_regex: true,
            search: if v.len() == 0 {
                query_model(left).search
            } else if query_model(left).search.len() == 0 {
                v
            } else {
                query_model(left).search + seq![' '] + v
            },
            ..query_model(left)
        }),
{
    let w = name + v;
    lemma_names_are_words();
    lemma_first_letters();
    lemma_named_word(name, v);
    lemma_token_added(left, w);
    lemma_token_kinds(w);
    if name == "regex:"@ {
        assert(!"re:"@.is_prefix_of(w)) by {
            if "re:"@.is_prefix_of(w) {
                assert("re:"@[2] == w.take(3)[2]);
                assert(w[2] == 'g');
            }
        }
    }
    law_tokens_are_words(left);
    lemma_terms(tokens(left));
    let f = filters_of(tokens(left));
    assert(value_behind(w, "re:"@, "regex:"@) == Some(v));
    if v.len() > 0 {
        lemma_term_added(Filters { use_regex: true, ..f }, v);
    }
}

/// `re:` and `regex:` ask for regular expressions; what stands behind one is searched for, behind
/// what is searched for already, and nothing else changes.
pub proof fn law_regex_is_searched_for(left: Seq<char>, v: Seq<char>)
    requires
        !left.contains('"'),
        !v.contains(' '),
        !v.contains('"'),
    ensures
        query_model(left + " regex:"@ + v) == (QueryModel {
            use_regex: true,
            search: if v.len() == 0 {
                query_model(left).search
            } else if query_model(left).search.len() == 0 {
                v
            } else {
                query_model(left).search + seq![' '] + v
            },
            ..query_model(left)
        }),
        query_model(left + " re:"@ + v) == query_model(left + " regex:"@ + v),
{
    lemma_spaced_names();
    lemma_typed_behind(left, " re:"@, "re:"@, v);
    lemma_typed_behind(left, " regex:"@, "regex:"@, v);
    lemma_regex_token(left, "re:"@, v);
    lemma_regex_token(left, "regex:"@, v);
}

/// The tokens that ask for no search of contents say what all tokens say but for that.
proof fn lemma_filters_without_content(parts: Seq<Seq<char>>)
    ensures
        filters_of(
            parts.filter(|p: Seq<char>| !"grep:"@.is_prefix_of(p) && !"content:"@.is_prefix_of(p)),
        ) == (Filters {
            content_search: false,
            grep_term: Seq::empty(),
            ..filters_of(parts)
        }),
    decreases parts.len(),
{
    reveal(Seq::filter);
    let keep = |p: Seq<char>| !"grep:"@.is_prefix_of(p) && !"content:"@.is_prefix_of(p);
    if parts.len() == 0 {
        assert(parts.filter(keep) =~= Seq::<Seq<char>>::empty());
    } else {
        let front = parts.drop_last();
        let last = parts.last();
        lemma_filters_without_content(front);
        lemma_token_kinds(last);
        if keep(last) {
            let kept = front.filter(keep).push(last);
            assert(kept.drop_last() =~= front.filter(keep));
            assert(parts.filter(keep) == kept);
        }
    }
}

/// The tokens of a query without quotes hold no spaces.
proof fn lemma_tokens_unspaced(part: Seq<char>, rest: Seq<char>)
    requires
        !part.contains(' '),
        !rest.contains('"'),
    ensures
        forall|i: int|
            0 <= i < tokens_after(part, false, rest).len() ==> !(#[trigger] tokens_after(
                part,
                false,
                rest,
            )[i]).contains(' '),
    decreases rest.len(),
{
    if rest.len() > 0 {
        let tail = rest.drop_first();
        assert(rest.contains(rest[0]));
        assert(!tail.contains('"')) by {
            if tail.contains('"') {
                let k = choose|k: int| 0 <= k < tail.len() && tail[k] == '"';
                assert(rest[k + 1] == '"');
            }
        }
        if rest[0] == ' ' {
            lemma_tokens_unspaced(Seq::empty(), tail);
            let more = tokens_after(Seq::empty(), false, tail);
            let all = token_list(part) + more;
            assert(tokens_after(part, false, rest) == all);
            assert forall|i: int| 0 <= i < all.len() implies !(#[trigger] all[i]).contains(
                ' ',
            ) by {
                if i >= token_list(part).len() {
                    assert(all[i] == more[i - token_list(part).len()]);
                }
            }
        } else {
            let longer = part.push(rest[0]);
            assert(!longer.contains(' ')) by {
                assert forall|k: int| 0 <= k < longer.len() implies longer[k] != ' ' by {
                    if k < part.len() {
                        assert(part.contains(part[k]));
                    }
                }
            }
            lemma_tokens_unspaced(longer, tail);
            assert(tokens_after(part, false, rest) == tokens_after(longer, false, tail));
        }
    }
}

/// What a token that asks for a search of contents does.
proof fn lemma_content_token(left: Seq<char>, name: Seq<char>, v: Seq<char>)
    requires
        !left.contains('"'),
        !v.contains(' '),
        !v.contains('"'),
        name == "grep:"@ || name == "content:"@,
    ensures
        ({
            let rest = tokens(left).filter(
                |p: Seq<char>| !"grep:"@.is_prefix_of(p) && !"content:"@.is_prefix_of(p),
            );
            let others = query_model(joined(rest, " "@)).search;
            query_model(left + seq![' '] + (name + v)) == (QueryModel {
                content_search: true,
                search: if v.len() == 0 {
                    query_model(left).search
                } else if others.len() == 0 {
                    v
                } else {
                    v + seq![' '] + others
                },
                ..query_model(left)
            })
        }),
{
    let keep = |p: Seq<char>| !"grep:"@.is_prefix_of(p) && !"content:"@.is_prefix_of(p);
    let rest = tokens(left).filter(keep);
    let w = name + v;
    lemma_names_are_words();
    lemma_first_letters();
    lemma_named_word(name, v);
    lemma_token_added(left, w);
    lemma_token_kinds(w);
    lemma_other_first_letter(w, "grep:"@);
    law_tokens_are_words(left);
    lemma_tokens_unspaced(Seq::empty(), left);
    assert forall|i: int| 0 <= i < rest.len() implies (#[trigger] rest[i]).len() > 0
        && !rest[i].contains('"') && !rest[i].contains(' ') by {
        tokens(left).lemma_filter_contains_rev(keep, rest[i]);
        let j = choose|j: int| 0 <= j < tokens(left).len() && tokens(left)[j] == rest[i];
        assert(tokens(left)[j].len() > 0);
    }
    law_joined_words_split_again(rest);
    lemma_filters_without_content(tokens(left));
    lemma_terms(tokens(left));
    let f = filters_of(tokens(left));
    assert(value_behind(w, "grep:"@, "content:"@) == Some(v));
    assert(query_model(joined(rest, " "@)).search == joined(f.terms, " "@));
    if v.len() == 0 && f.grep_term.len() > 0 {
        lemma_grep_term_asks(tokens(left));
    }
}

/// A value for a search of contents comes with one.
proof fn lemma_grep_term_asks(parts: Seq<Seq<char>>)
    ensures
        filters_of(parts).grep_term.len() > 0 ==> filters_of(parts).content_search,
    decreases parts.len(),
{
    if parts.len() > 0 {
        lemma_grep_term_asks(parts.drop_last());
    }
}

/// `grep:` and `content:` ask for a search of contents. What stands behind one is searched for,
/// followed by all that is searched for besides such values: of several the last counts. Nothing
/// else changes.
pub proof fn law_grep_searches_contents(left: Seq<char>, v: Seq<char>)
    requires
        !left.contains('"'),
        !v.contains(' '),
        !v.contains('"'),
    ensures
        ({
            let rest = tokens(left).filter(
                |p: Seq<char>| !"grep:"@.is_prefix_of(p) && !"content:"@.is_prefix_of(p),
            );
            let others = query_model(joined(rest, " "@)).search;
            query_model(left + " grep:"@ + v) == (QueryModel {
                content_search: true,
                search: if v.len() == 0 {
                    query_model(left).search
                } else if others.len() == 0 {
                    v
                } else {
                    v + seq![' '] + others
                },
                ..query_model(left)
            })
        }),
        query_model(left + " content:"@ + v) == query_model(left + " grep:"@ + v),
{
    lemma_spaced_names();
    lemma_typed_behind(left, " grep:"@, "grep:"@, v);
    lemma_typed_behind(left, " content:"@, "content:"@, v);
    lemma_content_token(left, "grep:"@, v);
    lemma_content_token(left, "content:"@, v);
}

/// A space in front of a query changes nothing.
proof fn lemma_leading_space(query: Seq<char>)
    ensures
        tokens(seq![' '] + query) == tokens(query),
{
    law_tokens_add_up(Seq::empty(), query);
    assert(Seq::<char>::empty() + seq![' '] + query =~= seq![' '] + query);
    assert(tokens(Seq::empty()) + tokens(query) =~= tokens(query));
}

/// What joined words are once one more is joined to them.
proof fn lemma_joined_push(words: Seq<Seq<char>>)
    requires
        words.len() > 1,
    ensures
        joined(words, " "@) == joined(words.drop_last(), " "@) + seq![' '] + words.last(),
{
    lemma_names_are_words();
}

/// Words that are no filters are searched for as they are typed, by name and fuzzily: none is lost,
/// and they stay in order.
pub proof fn law_words_are_searched_for(words: Seq<Seq<char>>)
    requires
        forall|i: int| 0 <= i < words.len() ==> ordinary_word(#[trigger] words[i]),
    ensures
        query_model(joined(words, " "@)) == (QueryModel {
            ext: None,
            dir_only: false,
            use_regex: false,
            content_search: false,
            path: None,
            search: joined(words, " "@),
        }),
    decreases words.len(),
{
    law_empty_query_asks_nothing();
    if words.len() > 0 {
        let front = words.drop_last();
        let last = words.last();
        assert(ordinary_word(words[words.len() - 1]));
        assert forall|i: int| 0 <= i < front.len() implies ordinary_word(#[trigger] front[i]) by {
            assert(front[i] == words[i]);
        }
        law_words_are_searched_for(front);
        lemma_joined_unquoted(front);
        law_word_is_searched_for(joined(front, " "@), last);
        if words.len() == 1 {
            assert(Seq::<char>::empty() + seq![' '] + last =~= seq![' '] + last);
            lemma_leading_space(last);
            assert(joined(front, " "@) =~= Seq::<char>::empty());
        } else {
            lemma_joined_push(words);
            assert(ordinary_word(front[0]));
            lemma_joined_some(front);
        }
    }
}

/// Words that are joined are not nothing.
proof fn lemma_joined_some(words: Seq<Seq<char>>)
    requires
        words.len() > 0,
        forall|i: int| 0 <= i < words.len() ==> (#[trigger] words[i]).len() > 0,
    ensures
        joined(words, " "@).len() > 0,
{
    assert(words[0].len() > 0);
    assert(words[words.len() - 1].len() > 0);
}

/// No word of a search of contents is lost: the text that is searched for is what stands behind
/// `grep:` or `content:` to the end, word for word and in order.
pub proof fn law_content_words_are_searched_for(words: Seq<Seq<char>>)
    requires
        words.len() > 0,
        one_word(words[0]),
        forall|i: int| 1 <= i < words.len() ==> ordinary_word(#[trigger] words[i]),
    ensures
        query_model("grep:"@ + joined(words, " "@)) == (QueryModel {
            ext: None,
            dir_only: false,
            use_regex: false,
            content_search: true,
            path: None,
            search: joined(words, " "@),
        }),
        query_model("content:"@ + joined(words, " "@)) == query_model(
            "grep:"@ + joined(words, " "@),
        ),
    decreases words.len(),
{
    lemma_names_are_words();
    if words.len() == 1 {
        let v = words[0];
        let none = Seq::<char>::empty();
        law_grep_searches_contents(none, v);
        law_empty_query_asks_nothing();
        reveal_strlit(" grep:");
        reveal_strlit("grep:");
        reveal_strlit(" content:");
        reveal_strlit("content:");
        assert(none + " grep:"@ + v =~= seq![' '] + ("grep:"@ + v));
        assert(none + " content:"@ + v =~= seq![' '] + ("content:"@ + v));
        lemma_leading_space("grep:"@ + v);
        lemma_leading_space("content:"@ + v);
        reveal(Seq::filter);
        let keep = |p: Seq<char>| !"grep:"@.is_prefix_of(p) && !"content:"@.is_prefix_of(p);
        assert(tokens(none) =~= Seq::<Seq<char>>::empty());
        assert(tokens(none).filter(keep) =~= Seq::<Seq<char>>::empty());
        assert(joined(tokens(none).filter(keep), " "@) =~= none);
    } else {
        let front = words.drop_last();
        let last = words.last();
        assert(ordinary_word(words[words.len() - 1]));
        assert forall|i: int| 1 <= i < front.len() implies ordinary_word(#[trigger] front[i]) by {
            assert(front[i] == words[i]);
        }
        assert forall|i: int| 0 <= i < front.len() implies (#[trigger] front[i]).len() > 0
            && !front[i].contains('"') by {
            if i > 0 {
                assert(ordinary_word(words[i]));
            }
        }
        law_content_words_are_searched_for(front);
        lemma_joined_unquoted(front);
        lemma_joined_some(front);
        lemma_joined_push(words);
        let typed = joined(front, " "@);
        lemma_unquoted_behind("grep:"@, typed);
        lemma_unquoted_behind("content:"@, typed);
        law_word_is_searched_for("grep:"@ + typed, last);
        law_word_is_searched_for("content:"@ + typed, last);
        assert("grep:"@ + joined(words, " "@) =~= "grep:"@ + typed + seq![' '] + last);
        assert("content:"@ + joined(words, " "@) =~= "content:"@ + typed + seq![' '] + last);
    }
}

proof fn lemma_unquoted_behind(name: Seq<char>, v: Seq<char>)
    requires
        !name.contains('"'),
        !v.contains('"'),
    ensures
        !(name + v).contains('"'),
{
    let w = name + v;
    assert forall|k: int| 0 <= k < w.len() implies w[k] != '"' by {
        if k < name.len() {
            assert(name.contains(name[k]));
        } else {
            assert(v.contains(v[k - name.len()]));
        }
    }
}

/// Quotes keep a value together, spaces and all, and are dropped; what stands behind them is read on
/// its own. A quote that is not closed reaches to the end.
pub proof fn law_quotes_keep_values_together(name: Seq<char>, v: Seq<char>, right: Seq<char>)
    requires
        !name.contains(' '),
        !name.contains('"'),
        !v.contains('"'),
        name.len() + v.len() > 0,
    ensures
        tokens(name + seq!['"'] + v + seq!['"', ' '] + right) == seq![name + v] + tokens(right),
        tokens(name + seq!['"'] + v + seq!['"']) == seq![name + v],
        tokens(name + seq!['"'] + v) == seq![name + v],
{
    let none = Seq::<char>::empty();
    assert(none + name =~= name);
    assert(v + none =~= v);
    // with something behind the quotes
    let tail = seq!['"', ' '] + right;
    let all = name + seq!['"'] + v + seq!['"', ' '] + right;
    assert(all =~= name + (seq!['"'] + (v + tail)));
    lemma_read_word(none, false, name, seq!['"'] + (v + tail));
    assert((seq!['"'] + (v + tail)).drop_first() =~= v + tail);
    lemma_read_word(name, true, v, tail);
    assert(tail.drop_first() =~= seq![' '] + right);
    assert((seq![' '] + right).drop_first() =~= right);
    assert(tokens(all) == tokens_after(name, false, seq!['"'] + (v + tail)));
    assert(tokens_after(name, false, seq!['"'] + (v + tail)) == tokens_after(name, true, v + tail));
    assert(tokens_after(name + v, true, tail) == tokens_after(
        name + v,
        false,
        seq![' '] + right,
    ));
    assert(tokens(all) == token_list(name + v) + tokens(right));
    // with nothing behind them
    let closed = name + seq!['"'] + v + seq!['"'];
    assert(closed =~= name + (seq!['"'] + (v + seq!['"'])));
    lemma_read_word(none, false, name, seq!['"'] + (v + seq!['"']));
    assert((seq!['"'] + (v + seq!['"'])).drop_first() =~= v + seq!['"']);
    lemma_read_word(name, true, v, seq!['"']);
    assert(seq!['"'].drop_first() =~= none);
    assert(tokens(closed) == tokens_after(name, false, seq!['"'] + (v + seq!['"'])));
    assert(tokens_after(name, false, seq!['"'] + (v + seq!['"'])) == tokens_after(
        name,
        true,
        v + seq!['"'],
    ));
    assert(tokens_after(name + v, true, seq!['"']) == tokens_after(name + v, false, none));
    assert(tokens(closed) == token_list(name + v));
    // without the second quote
    let open = name + seq!['"'] + v;
    assert(open =~= name + (seq!['"'] + v));
    lemma_read_word(none, false, name, seq!['"'] + v);
    assert((seq!['"'] + v).drop_first() =~= v);
    lemma_read_word(name, true, v, none);
    assert(tokens(open) == tokens_after(name, false, seq!['"'] + v));
    assert(tokens_after(name, false, seq!['"'] + v) == tokens_after(name, true, v));
    assert(tokens(open) == token_list(name + v));
}

/// What a query asks for, and what of it is highlighted, depends on its tokens alone.
pub proof fn law_tokens_say_it_all(a: Seq<char>, b: Seq<char>)
    requires
        tokens(a) == tokens(b),
    ensures
        query_model(a) == query_model(b),
        search_term(a) == search_term(b),
{
}

/// What is highlighted once one more token has been read.
proof fn lemma_highlight_added(left: Seq<char>, w: Seq<char>)
    requires
        !left.contains('"'),
        one_word(w),
    ensures
        ({
            let all = tokens(left + seq![' '] + w);
            &&& last_grep_value(all) == (match value_behind(w, "grep:"@, "content:"@) {
                Some(v) => if v.len() > 0 {
                    v
                } else {
                    last_grep_value(tokens(left))
                },
                None => last_grep_value(tokens(left)),
            })
            &&& all.filter(|p: Seq<char>| plain_token(p)) == (if plain_token(w) {
                tokens(left).filter(|p: Seq<char>| plain_token(p)).push(w)
            } else {
                tokens(left).filter(|p: Seq<char>| plain_token(p))
            })
        }),
{
    lemma_token_added(left, w);
    let all = tokens(left).push(w);
    assert(all.drop_last() =~= tokens(left));
    reveal(Seq::filter);
}

/// The value of the last `grep:` or `content:` is what is highlighted.
pub proof fn law_grep_value_is_highlighted(left: Seq<char>, v: Seq<char>)
    requires
        !left.contains('"'),
        one_word(v),
    ensures
        search_term(left + " grep:"@ + v) == v,
        search_term(left + " content:"@ + v) == v,
{
    lemma_names_are_words();
    lemma_first_letters();
    lemma_named_word("grep:"@, v);
    lemma_named_word("content:"@, v);
    lemma_spaced_names();
    lemma_typed_behind(left, " grep:"@, "grep:"@, v);
    lemma_typed_behind(left, " content:"@, "content:"@, v);
    lemma_other_first_letter("content:"@ + v, "grep:"@);
    lemma_highlight_added(left, "grep:"@ + v);
    lemma_highlight_added(left, "content:"@ + v);
}

/// Some token of a list has a value for a search of contents.
pub open spec fn has_content_value(parts: Seq<Seq<char>>) -> bool {
    exists|i: int|
        0 <= i < parts.len() && {
            let p = #[trigger] parts[i];
            ("grep:"@.is_prefix_of(p) && p != "grep:"@) || ("content:"@.is_prefix_of(p) && p
                != "content:"@)
        }
}

proof fn lemma_content_value(parts: Seq<Seq<char>>)
    ensures
        last_grep_value(parts).len() > 0 <==> has_content_value(parts),
    decreases parts.len(),
{
    if parts.len() > 0 {
        let front = parts.drop_last();
        let last = parts.last();
        lemma_content_value(front);
        lemma_first_letters();
        lemma_whole_prefix("grep:"@, last);
        lemma_whole_prefix("content:"@, last);
        lemma_other_first_letter(last, "grep:"@);
        lemma_other_first_letter(last, "content:"@);
        if has_content_value(front) {
            let i = choose|i: int|
                0 <= i < front.len() && {
                    let p = #[trigger] front[i];
                    ("grep:"@.is_prefix_of(p) && p != "grep:"@) || ("content:"@.is_prefix_of(p) && p
                        != "content:"@)
                };
            assert(parts[i] == front[i]);
        }
        if has_content_value(parts) {
            let i = choose|i: int|
                0 <= i < parts.len() && {
                    let p = #[trigger] parts[i];
                    ("grep:"@.is_prefix_of(p) && p != "grep:"@) || ("content:"@.is_prefix_of(p) && p
                        != "content:"@)
                };
            if i < front.len() {
                assert(front[i] == parts[i]);
            }
        }
        assert(parts[parts.len() - 1] == last);
    }
}

proof fn lemma_whole_prefix(name: Seq<char>, w: Seq<char>)
    ensures
        name.is_prefix_of(w) ==> (w == name <==> w.skip(name.len() as int).len() == 0),
{
    if name.is_prefix_of(w) && w.len() == name.len() {
        assert(w.take(name.len() as int) =~= w);
    }
}

/// In a query without a value for a search of contents, the words that are no filters are
/// highlighted, in order; filters are not.
pub proof fn law_words_are_highlighted(left: Seq<char>, w: Seq<char>)
    requires
        !left.contains('"'),
        one_word(w),
        !has_content_value(tokens(left)),
        !"grep:"@.is_prefix_of(w),
        !"content:"@.is_prefix_of(w),
    ensures
        search_term(left + seq![' '] + w) == (if !ordinary_word(w) {
            search_term(left)
        } else if search_term(left).len() == 0 {
            w
        } else {
            search_term(left) + seq![' '] + w
        }),
{
    lemma_names_are_words();
    lemma_content_value(tokens(left));
    lemma_highlight_added(left, w);
    law_tokens_are_words(left);
    let keep = |p: Seq<char>| plain_token(p);
    let kept = tokens(left).filter(keep);
    assert forall|i: int| 0 <= i < kept.len() implies (#[trigger] kept[i]).len() > 0 by {
        tokens(left).lemma_filter_contains_rev(keep, kept[i]);
        let j = choose|j: int| 0 <= j < tokens(left).len() && tokens(left)[j] == kept[i];
        assert(tokens(left)[j].len() > 0);
    }
    if kept.len() > 0 {
        lemma_joined_some(kept);
        assert(kept.push(w).drop_last() =~= kept);
        lemma_joined_push(kept.push(w));
    } else {
        assert(joined(kept.push(w), " "@) =~= w);
    }
}

/// Once there is a value for a search of contents, nothing but another one changes what is
/// highlighted.
pub proof fn law_only_grep_value_is_highlighted(left: Seq<char>, w: Seq<char>)
    requires
        !left.contains('"'),
        one_word(w),
        has_content_value(tokens(left)),
        !"grep:"@.is_prefix_of(w),
        !"content:"@.is_prefix_of(w),
    ensures
        search_term(left + seq![' '] + w) == search_term(left),
{
    lemma_content_value(tokens(left));
    lemma_highlight_added(left, w);
}

/// What a query says once it has one more token, however that was typed.
proof fn lemma_token_read(left: Seq<char>, query: Seq<char>, w: Seq<char>)
    requires
        tokens(query) == tokens(left).push(w),
    ensures
        filters_of(tokens(query)) == with_token(filters_of(tokens(left)), w),
{
    assert(tokens(left).push(w).drop_last() =~= tokens(left));
}

/// A name with a value behind it.
proof fn lemma_value_behind_name(name: Seq<char>, v: Seq<char>)
    requires
        name.len() > 0,
    ensures
        name.is_prefix_of(name + v),
        (name + v).skip(name.len() as int) == v,
        (name + v)[0] == name[0],
{
    let w = name + v;
    assert(w.take(name.len() as int) =~= name);
    assert(w.skip(name.len() as int) =~= v);
}

/// A value of `ext:` or `in:` counts as a whole, with the spaces that quotes kept in it.
pub proof fn law_whole_filter_values_count(left: Seq<char>, query: Seq<char>, v: Seq<char>)
    ensures
        tokens(query) == tokens(left).push("ext:"@ + v) ==> query_model(query) == (QueryModel {
            ext: Some(lowercase(v).filter(|c: char| c != '.')),
            ..query_model(left)
        }),
        tokens(query) == tokens(left).push("in:"@ + v) && v.len() > 0 ==> query_model(query) == (
        QueryModel {
            path: Some(
                lowercase(v).map_values(
                    |c: char|
                        if c == '/' {
                            '\\'
                        } else {
                            c
                        },
                ),
            ),
            ..query_model(left)
        }),
{
    lemma_first_letters();
    lemma_value_behind_name("ext:"@, v);
    lemma_value_behind_name("in:"@, v);
    lemma_dots_taken(lowercase(v));
    lemma_slashes_turned(lowercase(v));
    lemma_token_kinds("in:"@ + v);
    if tokens(query) == tokens(left).push("ext:"@ + v) {
        lemma_token_read(left, query, "ext:"@ + v);
    }
    if tokens(query) == tokens(left).push("in:"@ + v) && v.len() > 0 {
        lemma_token_read(left, query, "in:"@ + v);
    }
}

/// A text that is searched for counts as a whole, with the spaces that quotes kept in it: a word, or
/// what stands behind `regex:`.
pub proof fn law_whole_words_are_searched_for(left: Seq<char>, query: Seq<char>, v: Seq<char>)
    requires
        v.len() > 0,
        !"ext:"@.is_prefix_of(v) && !"in:"@.is_prefix_of(v) && !"re:"@.is_prefix_of(v),
        !"regex:"@.is_prefix_of(v) && !"grep:"@.is_prefix_of(v) && !"content:"@.is_prefix_of(v),
        v != "dir:"@ && v != "folder:"@,
    ensures
        ({
            let before = query_model(left).search;
            let search = if before.len() == 0 {
                v
            } else {
                before + seq![' '] + v
            };
            &&& tokens(query) == tokens(left).push(v) ==> query_model(query) == (QueryModel {
                search,
                ..query_model(left)
            })
            &&& tokens(query) == tokens(left).push("regex:"@ + v) ==> query_model(query) == (
            QueryModel { search, use_regex: true, ..query_model(left) })
        }),
{
    let f = filters_of(tokens(left));
    let w = "regex:"@ + v;
    law_tokens_are_words(left);
    lemma_terms(tokens(left));
    lemma_term_added(f, v);
    lemma_term_added(Filters { use_regex: true, ..f }, v);
    lemma_first_letters();
    lemma_value_behind_name("regex:"@, v);
    lemma_token_kinds(w);
    assert(!"re:"@.is_prefix_of(w)) by {
        if "re:"@.is_prefix_of(w) {
            assert("re:"@[2] == w.take(3)[2]);
            assert(w[2] == 'g');
        }
    }
    if tokens(query) == tokens(left).push(v) {
        lemma_token_read(left, query, v);
    }
    if tokens(query) == tokens(left).push(w) {
        lemma_token_read(left, query, w);
    }
}

/// What stands behind `grep:` or `content:` is searched for as a whole, with the spaces that quotes
/// kept in it, in front of all that `rest` searches for: a query that has the other tokens but for
/// such values.
pub proof fn law_whole_content_values_are_searched_for(
    left: Seq<char>,
    query: Seq<char>,
    rest: Seq<char>,
    v: Seq<char>,
)
    requires
        v.len() > 0,
        tokens(query) == tokens(left).push("grep:"@ + v) || tokens(query) == tokens(left).push(
            "content:"@ + v,
        ),
        tokens(rest) == tokens(left).filter(
            |p: Seq<char>| !"grep:"@.is_prefix_of(p) && !"content:"@.is_prefix_of(p),
        ),
    ensures
        query_model(query) == (QueryModel {
            content_search: true,
            search: if query_model(rest).search.len() == 0 {
                v
            } else {
                v + seq![' '] + query_model(rest).search
            },
            ..query_model(left)
        }),
{
    let name = if tokens(query) == tokens(left).push("grep:"@ + v) {
        "grep:"@
    } else {
        "content:"@
    };
    let w = name + v;
    let f = filters_of(tokens(left));
    lemma_names_are_words();
    lemma_first_letters();
    lemma_value_behind_name(name, v);
    lemma_token_kinds(w);
    lemma_other_first_letter(w, "grep:"@);
    lemma_token_read(left, query, w);
    law_tokens_are_words(left);
    lemma_terms(tokens(left));
    lemma_filters_without_content(tokens(left));
    assert(value_behind(w, "grep:"@, "content:"@) == Some(v));
    assert(query_model(rest).search == joined(f.terms, " "@));
}

/// What stands behind `grep:` or `content:` is highlighted as a whole.
pub proof fn law_whole_content_values_are_highlighted(
    left: Seq<char>,
    query: Seq<char>,
    v: Seq<char>,
)
    requires
        v.len() > 0,
        tokens(query) == tokens(left).push("grep:"@ + v) || tokens(query) == tokens(left).push(
            "content:"@ + v,
        ),
    ensures
        search_term(query) == v,
{
    let name = if tokens(query) == tokens(left).push("grep:"@ + v) {
        "grep:"@
    } else {
        "content:"@
    };
    let w = name + v;
    lemma_first_letters();
    lemma_value_behind_name(name, v);
    lemma_other_first_letter(w, "grep:"@);
    assert(tokens(left).push(w).drop_last() =~= tokens(left));
}

} // verus!
