//! The query language: tokens, filters, and the text that is searched for.
use vstd::prelude::*;
use vstd::string::*;

use crate::text::{
    chars_at, chars_of, copy_of, has_char, is_whitespace, join, joined, lowercase, opt_view,
    replace, replaced, starts_with, str_eq, strip_prefix, to_lowercase, views, whitespace,
};

verus! {

/// The token list that one finished part gives: nothing where it is empty.
pub open spec fn token_list(part: Seq<char>) -> Seq<Seq<char>> {
    if part.len() == 0 {
        Seq::empty()
    } else {
        seq![part]
    }
}

/// The tokens of `rest`, where `part` has been read of the current token and `in_quote` says
/// whether a quote is open.
///
/// A space outside quotes ends a token; a double quote opens or closes a quote and is itself
/// dropped; the end of the query ends the last token, open quote or not. Empty tokens are dropped.
pub open spec fn tokens_after(part: Seq<char>, in_quote: bool, rest: Seq<char>) -> Seq<Seq<char>>
    decreases rest.len(),
{
    if rest.len() == 0 {
        token_list(part)
    } else if rest[0] == ' ' && !in_quote {
        token_list(part) + tokens_after(Seq::empty(), false, rest.drop_first())
    } else if rest[0] == '"' {
        tokens_after(part, !in_quote, rest.drop_first())
    } else {
        tokens_after(part.push(rest[0]), in_quote, rest.drop_first())
    }
}

/// The tokens of a query.
pub open spec fn tokens(query: Seq<char>) -> Seq<Seq<char>> {
    tokens_after(Seq::empty(), false, query)
}

/// Splits a query into tokens at spaces, keeping double-quoted values together
/// (`in:"path with spaces"`).
pub fn split_query(query: &str) -> (r: Vec<String>)
    ensures
        views(r@) == tokens(query@),
{
    let mut parts: Vec<String> = Vec::new();
    let mut part: String = String::new();
    let mut in_quote: bool = false;
    assert(query@.skip(0) =~= query@);
    assert(views(parts@) + tokens(query@) =~= tokens(query@));
    for c in it: query.chars()
        invariant
            it.seq() == query@,
            it.index() <= query@.len(),
            tokens(query@) == views(parts@) + tokens_after(
                part@,
                in_quote,
                query@.skip(it.index() as int),
            ),
    {
        let ghost rest = query@.skip(it.index() as int);
        let ghost before = views(parts@);
        assert(rest.drop_first() =~= query@.skip(it.index() as int + 1));
        if c == ' ' && !in_quote {
            let ghost tail = tokens_after(Seq::empty(), false, rest.drop_first());
            let ghost done = part@;
            if !part.as_str().is_empty() {
                parts.push(part);
                assert(views(parts@) =~= before.push(done));
            }
            assert(views(parts@) =~= before + token_list(done));
            assert(before + (token_list(done) + tail) =~= views(parts@) + tail);
            part = String::new();
        } else if c == '"' {
            in_quote = !in_quote;
        } else {
            part.push(c);
        }
    }
    assert(query@.skip(query@.len() as int) =~= Seq::<char>::empty());
    if !part.as_str().is_empty() {
        let ghost before = views(parts@);
        let ghost done = part@;
        parts.push(part);
        assert(views(parts@) =~= before + token_list(done));
    }
    assert(views(parts@) =~= tokens(query@));
    parts
}

/// What a list of tokens says, field by field.
pub struct Filters {
    /// The value of the last `ext:`, in lowercase and without dots.
    pub ext: Option<Seq<char>>,
    /// Whether a `dir:` or `folder:` was given.
    pub dir_only: bool,
    /// Whether a `re:` or `regex:` was given.
    pub use_regex: bool,
    /// Whether a `grep:` or `content:` was given.
    pub content_search: bool,
    /// The last value given to `grep:` or `content:` that is not empty.
    pub grep_term: Seq<char>,
    /// The last value given to `in:` that is not empty, in lowercase and with backslashes.
    pub path: Option<Seq<char>>,
    /// The tokens that are no filter, and the values of `re:` and `regex:`.
    pub terms: Seq<Seq<char>>,
}

/// What no token says.
pub open spec fn no_filters() -> Filters {
    Filters {
        ext: None,
        dir_only: false,
        use_regex: false,
        content_search: false,
        grep_term: Seq::empty(),
        path: None,
        terms: Seq::empty(),
    }
}

/// The value of a token behind the first of two prefixes that it begins with.
pub open spec fn value_behind(part: Seq<char>, a: Seq<char>, b: Seq<char>) -> Option<Seq<char>> {
    if a.is_prefix_of(part) {
        Some(part.skip(a.len() as int))
    } else if b.is_prefix_of(part) {
        Some(part.skip(b.len() as int))
    } else {
        None
    }
}

/// The extension that the value of an `ext:` names.
pub open spec fn extension_value(value: Seq<char>) -> Seq<char> {
    replaced(lowercase(value), "."@, ""@)
}

/// The path filter that the value of an `in:` names.
pub open spec fn path_value(value: Seq<char>) -> Seq<char> {
    replaced(lowercase(value), "/"@, "\\"@)
}

/// What `f` says once the token `part` has been read too.
pub open spec fn with_token(f: Filters, part: Seq<char>) -> Filters {
    if "ext:"@.is_prefix_of(part) {
        Filters { ext: Some(extension_value(part.skip("ext:"@.len() as int))), ..f }
    } else if "in:"@.is_prefix_of(part) {
        if part.len() == "in:"@.len() {
            f
        } else {
            Filters { path: Some(path_value(part.skip("in:"@.len() as int))), ..f }
        }
    } else if part == "dir:"@ || part == "folder:"@ {
        Filters { dir_only: true, ..f }
    } else {
        match value_behind(part, "re:"@, "regex:"@) {
            Some(value) => Filters {
                use_regex: true,
                terms: if value.len() == 0 {
                    f.terms
                } else {
                    f.terms.push(value)
                },
                ..f
            },
            None => match value_behind(part, "grep:"@, "content:"@) {
                Some(value) => Filters {
                    content_search: true,
                    grep_term: if value.len() == 0 {
                        f.grep_term
                    } else {
                        value
                    },
                    ..f
                },
                None => Filters { terms: f.terms.push(part), ..f },
            },
        }
    }
}

/// What a list of tokens says, read from the first to the last.
pub open spec fn filters_of(parts: Seq<Seq<char>>) -> Filters
    decreases parts.len(),
{
    if parts.len() == 0 {
        no_filters()
    } else {
        with_token(filters_of(parts.drop_last()), parts.last())
    }
}

/// The text that the filters leave to search for: the terms, behind the `grep:` value where a
/// content search has one.
pub open spec fn search_text(f: Filters) -> Seq<char> {
    if f.content_search && f.grep_term.len() > 0 {
        if f.terms.len() > 0 {
            f.grep_term + " "@ + joined(f.terms, " "@)
        } else {
            f.grep_term
        }
    } else {
        joined(f.terms, " "@)
    }
}

/// A query, parsed.
pub struct ParsedQuery {
    pub ext_filter: Option<String>,
    pub dir_only: bool,
    pub use_regex: bool,
    pub content_search: bool,
    pub path_filter: Option<String>,
    pub search_query: String,
}

/// What a parsed query says.
pub struct QueryModel {
    pub ext: Option<Seq<char>>,
    pub dir_only: bool,
    pub use_regex: bool,
    pub content_search: bool,
    pub path: Option<Seq<char>>,
    pub search: Seq<char>,
}

impl View for ParsedQuery {
    type V = QueryModel;

    open spec fn view(&self) -> QueryModel {
        QueryModel {
            ext: opt_view(self.ext_filter),
            dir_only: self.dir_only,
            use_regex: self.use_regex,
            content_search: self.content_search,
            path: opt_view(self.path_filter),
            search: self.search_query@,
        }
    }
}

/// What a query says.
pub open spec fn query_model(query: Seq<char>) -> QueryModel {
    let f = filters_of(tokens(query));
    QueryModel {
        ext: f.ext,
        dir_only: f.dir_only,
        use_regex: f.use_regex,
        content_search: f.content_search,
        path: f.path,
        search: search_text(f),
    }
}

/// The value of `part` behind the first of two prefixes that it begins with.
fn value_behind_either<'a>(part: &'a str, a: &str, b: &str) -> (r: Option<&'a str>)
    ensures
        match r {
            Some(value) => value_behind(part@, a@, b@) == Some(value@),
            None => value_behind(part@, a@, b@) is None,
        },
{
    match strip_prefix(part, a) {
        Some(value) => Some(value),
        None => strip_prefix(part, b),
    }
}

/// Parses a query into filters and the text to search for.
pub fn parse_query(query: &str) -> (r: ParsedQuery)
    ensures
        r@ == query_model(query@),
{
    let parts: Vec<String> = split_query(query);
    let mut ext_filter: Option<String> = None;
    let mut dir_only: bool = false;
    let mut use_regex: bool = false;
    let mut content_search: bool = false;
    let mut grep_term: String = String::new();
    let mut path_filter: Option<String> = None;
    let mut search_terms: Vec<String> = Vec::new();
    let ghost all = tokens(query@);
    proof {
        reveal_strlit(".");
        reveal_strlit("/");
    }
    assert(views(search_terms@) =~= Seq::<Seq<char>>::empty());
    let mut i: usize = 0;
    while i < parts.len()
        invariant
            i <= parts@.len(),
            views(parts@) == all,
            "."@.len() == 1,
            "/"@.len() == 1,
            filters_of(all.take(i as int)) == (Filters {
                ext: opt_view(ext_filter),
                dir_only,
                use_regex,
                content_search,
                grep_term: grep_term@,
                path: opt_view(path_filter),
                terms: views(search_terms@),
            }),
        decreases parts@.len() - i,
    {
        let part: &str = parts[i].as_str();
        let ghost before = views(search_terms@);
        proof {
            assert(all[i as int] == part@);
            assert(all.take(i + 1).drop_last() =~= all.take(i as int));
            assert(all.take(i + 1).last() == part@);
        }
        match strip_prefix(part, "ext:") {
            Some(ext) => {
                ext_filter = Some(replace(to_lowercase(ext).as_str(), ".", ""));
            },
            None => {
                match strip_prefix(part, "in:") {
                    Some(p) => {
                        if !p.is_empty() {
                            path_filter = Some(replace(to_lowercase(p).as_str(), "/", "\\"));
                        }
                    },
                    None => {
                        if str_eq(part, "dir:") || str_eq(part, "folder:") {
                            dir_only = true;
                        } else {
                            match value_behind_either(part, "re:", "regex:") {
                                Some(rest) => {
                                    use_regex = true;
                                    if !rest.is_empty() {
                                        search_terms.push(copy_of(rest));
                                        assert(views(search_terms@) =~= before.push(rest@));
                                    }
                                },
                                None => {
                                    match value_behind_either(part, "grep:", "content:") {
                                        Some(term) => {
                                            content_search = true;
                                            if !term.is_empty() {
                                                grep_term = copy_of(term);
                                            }
                                        },
                                        None => {
                                            search_terms.push(copy_of(part));
                                            assert(views(search_terms@) =~= before.push(part@));
                                        },
                                    }
                                },
                            }
                        }
                    },
                }
            },
        }
        i += 1;
    }
    assert(all.take(i as int) =~= all);
    let ghost f = filters_of(all);
    let search_query: String = if content_search && !grep_term.as_str().is_empty() {
        let mut q: String = grep_term;
        if search_terms.len() > 0 {
            q.append(" ");
            q.append(join(&search_terms, " ").as_str());
        }
        q
    } else {
        join(&search_terms, " ")
    };
    assert(search_query@ =~= search_text(f));
    ParsedQuery { ext_filter, dir_only, use_regex, content_search, path_filter, search_query }
}

/// A word of the query begins at position `at` with `grep:` or `content:`.
pub open spec fn content_word_at(query: Seq<char>, at: int) -> bool {
    &&& 0 <= at <= query.len()
    &&& at == 0 || whitespace(query[at - 1])
    &&& "grep:"@.is_prefix_of(query.skip(at)) || "content:"@.is_prefix_of(query.skip(at))
}

/// Whether some word of a query begins with `grep:` or `content:`.
pub open spec fn content_query(query: Seq<char>) -> bool {
    exists|at: int| content_word_at(query, at)
}

/// Whether the query asks for a search of file contents, so that it runs on request only.
pub fn is_content_query(query: &str) -> (r: bool)
    ensures
        r == content_query(query@),
{
    let chars: Vec<char> = chars_of(query);
    let grep: Vec<char> = chars_of("grep:");
    let content: Vec<char> = chars_of("content:");
    let mut i: usize = 0;
    while i < chars.len()
        invariant
            i <= chars@.len(),
            chars@ == query@,
            grep@ == "grep:"@,
            content@ == "content:"@,
            forall|at: int| 0 <= at < i ==> !content_word_at(query@, at),
        decreases chars@.len() - i,
    {
        if (i == 0 || is_whitespace(chars[i - 1])) && (chars_at(&chars, &grep, i) || chars_at(
            &chars,
            &content,
            i,
        )) {
            assert(content_word_at(query@, i as int));
            return true;
        }
        i += 1;
    }
    proof {
        reveal_strlit("grep:");
        reveal_strlit("content:");
        assert forall|at: int| !content_word_at(query@, at) by {
            if i <= at <= query@.len() {
                assert(query@.skip(at).len() <= 0);
            }
        }
    }
    false
}

/// The last value given to `grep:` or `content:` that is not empty.
pub open spec fn last_grep_value(parts: Seq<Seq<char>>) -> Seq<char>
    decreases parts.len(),
{
    if parts.len() == 0 {
        Seq::empty()
    } else {
        match value_behind(parts.last(), "grep:"@, "content:"@) {
            Some(value) => if value.len() > 0 {
                value
            } else {
                last_grep_value(parts.drop_last())
            },
            None => last_grep_value(parts.drop_last()),
        }
    }
}

/// Whether a token is no filter at all.
pub open spec fn plain_token(part: Seq<char>) -> bool {
    &&& value_behind(part, "grep:"@, "content:"@) is None
    &&& !"ext:"@.is_prefix_of(part)
    &&& !"in:"@.is_prefix_of(part)
    &&& part != "dir:"@
    &&& part != "folder:"@
    &&& value_behind(part, "re:"@, "regex:"@) is None
}

/// The text of a query that is highlighted in what it found.
pub open spec fn search_term(query: Seq<char>) -> Seq<char> {
    let parts = tokens(query);
    if last_grep_value(parts).len() > 0 {
        last_grep_value(parts)
    } else {
        joined(parts.filter(|p: Seq<char>| plain_token(p)), " "@)
    }
}

/// Extracts the text to highlight from a query: its `grep:` value where it has one, else its
/// tokens without the filters.
pub fn extract_search_term(query: &str) -> (r: String)
    ensures
        r@ == search_term(query@),
{
    let parts: Vec<String> = split_query(query);
    let ghost all = tokens(query@);
    let ghost plain = |p: Seq<char>| plain_token(p);
    let mut grep_term: String = String::new();
    let mut extra: Vec<String> = Vec::new();
    let mut i: usize = 0;
    assert(views(extra@) =~= all.take(0).filter(plain)) by {
        reveal(Seq::filter);
    }
    while i < parts.len()
        invariant
            i <= parts@.len(),
            views(parts@) == all,
            plain == (|p: Seq<char>| plain_token(p)),
            grep_term@ == last_grep_value(all.take(i as int)),
            views(extra@) == all.take(i as int).filter(plain),
        decreases parts@.len() - i,
    {
        let part: &str = parts[i].as_str();
        let ghost before = views(extra@);
        proof {
            reveal(Seq::filter);
            assert(all[i as int] == part@);
            assert(all.take(i + 1).drop_last() =~= all.take(i as int));
            assert(all.take(i + 1).last() == part@);
        }
        match value_behind_either(part, "grep:", "content:") {
            Some(value) => {
                if !value.is_empty() {
                    grep_term = copy_of(value);
                }
            },
            None => {
                if !starts_with(part, "ext:") && !starts_with(part, "in:") && !str_eq(part, "dir:")
                    && !str_eq(part, "folder:") && !starts_with(part, "re:") && !starts_with(
                    part,
                    "regex:",
                ) {
                    extra.push(copy_of(part));
                    assert(views(extra@) =~= before.push(part@));
                }
            },
        }
        i += 1;
    }
    assert(all.take(i as int) =~= all);
    if !grep_term.as_str().is_empty() {
        grep_term
    } else {
        join(&extra, " ")
    }
}

/// Whether a token is no `in:` filter.
pub open spec fn not_in_filter(part: Seq<char>) -> bool {
    !"in:"@.is_prefix_of(part)
}

/// The `in:` filter for a path, as it is typed: quoted where the path holds a space.
pub open spec fn typed_in_filter(path: Seq<char>) -> Seq<char> {
    if path.contains(' ') {
        "in:\""@ + path + "\""@
    } else {
        "in:"@ + path
    }
}

/// The tokens of a query that are kept when its `in:` filter is filled in.
pub open spec fn kept_tokens(query: Seq<char>) -> Seq<Seq<char>> {
    tokens(query).filter(|p: Seq<char>| not_in_filter(p))
}

/// A query with its `in:` filter filled in: the filter for `path`, then the other tokens.
pub open spec fn completed_query(query: Seq<char>, path: Seq<char>) -> Seq<char> {
    if kept_tokens(query).len() > 0 {
        typed_in_filter(path) + " "@ + joined(kept_tokens(query), " "@)
    } else {
        typed_in_filter(path)
    }
}

/// Fills in the `in:` filter of `query` with `path`.
pub fn complete_in_filter(query: &str, path: &str) -> (r: String)
    ensures
        r@ == completed_query(query@, path@),
{
    let parts: Vec<String> = split_query(query);
    let ghost all = tokens(query@);
    let ghost keep = |p: Seq<char>| not_in_filter(p);
    let mut kept: Vec<String> = Vec::new();
    let mut i: usize = 0;
    assert(views(kept@) =~= all.take(0).filter(keep)) by {
        reveal(Seq::filter);
    }
    while i < parts.len()
        invariant
            i <= parts@.len(),
            views(parts@) == all,
            keep == (|p: Seq<char>| not_in_filter(p)),
            views(kept@) == all.take(i as int).filter(keep),
        decreases parts@.len() - i,
    {
        let part: &str = parts[i].as_str();
        let ghost before = views(kept@);
        proof {
            reveal(Seq::filter);
            assert(all[i as int] == part@);
            assert(all.take(i + 1).drop_last() =~= all.take(i as int));
            assert(all.take(i + 1).last() == part@);
        }
        if !starts_with(part, "in:") {
            kept.push(copy_of(part));
            assert(views(kept@) =~= before.push(part@));
        }
        i += 1;
    }
    assert(all.take(i as int) =~= all);
    let mut out: String = String::new();
    if has_char(path, ' ') {
        out.append("in:\"");
        out.append(path);
        out.append("\"");
    } else {
        out.append("in:");
        out.append(path);
    }
    assert(out@ =~= typed_in_filter(path@));
    if kept.len() > 0 {
        out.append(" ");
        out.append(join(&kept, " ").as_str());
    }
    out
}

} // verus!
