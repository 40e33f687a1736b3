//! What a search of contents finds, in terms of the entries, their texts and the query.
use vstd::prelude::*;
use vstd::utf8::*;

use crate::contents::{
    all_positions, by_place, bytes_at_most, can_find, candidates_of, is_candidate,
    lemma_matching_lines_grow, lemma_same_positions, line_hit, line_matches, lines_found,
    lines_of_files, lines_per_file, matching_lines, shown_line, LineModel,
};
use crate::display::{safe_char, sanitized};
use crate::ext_map::listed;
use crate::filters::{binary_extension, document_extension, path_passes};
use crate::index::{lists_own, rising, EntryModel};
use crate::names::first_of;
use crate::order::{law_stable_positions, stable_positions, stable_sorted};
use crate::pattern::{regex_compiles, regex_finds};
use crate::query::{query_model, QueryModel};
use crate::search::search_results;
use crate::search_laws::{is_named, law_name_results_match, lemma_lines_of_candidate};
use crate::text::{lines_of, lowercase, trimmed};
use crate::token_laws::{law_dir_asks_for_directories, law_ext_sets_extension, law_in_sets_path};
use crate::utf8::occurs;

verus! {

/// Among the first `n` lines, as many match as `matching_lines` lists.
proof fn lemma_matching_count(
    position: usize,
    all: Seq<Seq<char>>,
    n: int,
    query: Seq<char>,
    use_regex: bool,
)
    requires
        0 <= n <= all.len(),
    ensures
        matching_lines(position, all, n, query, use_regex).len() == Seq::new(
            n as nat,
            |i: int| i,
        ).filter(|i: int| line_matches(all[i], query, use_regex)).len(),
    decreases n,
{
    reveal(Seq::filter);
    let keep = |i: int| line_matches(all[i], query, use_regex);
    let upto = Seq::new(n as nat, |i: int| i);
    if n > 0 {
        lemma_matching_count(position, all, n - 1, query, use_regex);
        assert(upto.drop_last() =~= Seq::new((n - 1) as nat, |i: int| i));
        assert(upto.last() == n - 1);
    }
}

/// A matching line stands behind the matching lines before it.
proof fn lemma_matching_at(
    position: usize,
    all: Seq<Seq<char>>,
    n: int,
    k: int,
    query: Seq<char>,
    use_regex: bool,
)
    requires
        0 <= k < n <= all.len() <= usize::MAX,
        line_matches(all[k], query, use_regex),
    ensures
        ({
            let before = matching_lines(position, all, k, query, use_regex).len() as int;
            let found = matching_lines(position, all, n, query, use_regex);
            &&& before < found.len()
            &&& found[before] == (LineModel {
                position,
                line_num: (k + 1) as usize,
                line_text: shown_line(all[k]),
            })
        }),
{
    let upto = matching_lines(position, all, k + 1, query, use_regex);
    let found = matching_lines(position, all, n, query, use_regex);
    lemma_matching_lines_grow(position, all, k + 1, n, query, use_regex);
    assert(upto.last() == found.take(upto.len() as int)[upto.len() - 1]);
}

/// Each of the matching lines is a line that matches, with as many matching lines before it as
/// stand before it in the list.
proof fn lemma_matching_back(
    position: usize,
    all: Seq<Seq<char>>,
    n: int,
    j: int,
    query: Seq<char>,
    use_regex: bool,
) -> (k: int)
    requires
        0 <= n <= all.len() <= usize::MAX,
        0 <= j < matching_lines(position, all, n, query, use_regex).len(),
    ensures
        0 <= k < n,
        line_matches(all[k], query, use_regex),
        matching_lines(position, all, k, query, use_regex).len() == j,
        matching_lines(position, all, n, query, use_regex)[j] == (LineModel {
            position,
            line_num: (k + 1) as usize,
            line_text: shown_line(all[k]),
        }),
    decreases n,
{
    let before = matching_lines(position, all, n - 1, query, use_regex);
    if j < before.len() {
        lemma_matching_back(position, all, n - 1, j, query, use_regex)
    } else {
        n - 1
    }
}

/// A line of a file is shown exactly where it matches and fewer lines before it do than are shown.
proof fn lemma_lines_found(
    position: usize,
    text: Seq<char>,
    query: Seq<char>,
    use_regex: bool,
    limit: int,
)
    requires
        lines_of(text).len() <= usize::MAX,
        limit >= 0,
    ensures
        forall|k: int|
            0 <= k < lines_of(text).len() && line_matches(
                #[trigger] lines_of(text)[k],
                query,
                use_regex,
            ) && matching_lines(position, lines_of(text), k, query, use_regex).len() < limit
                ==> lines_found(position, text, query, use_regex, limit).contains(
                LineModel {
                    position,
                    line_num: (k + 1) as usize,
                    line_text: shown_line(lines_of(text)[k]),
                },
            ),
        forall|j: int|
            0 <= j < lines_found(position, text, query, use_regex, limit).len() ==> {
                let h = #[trigger] lines_found(position, text, query, use_regex, limit)[j];
                &&& h.position == position
                &&& 1 <= h.line_num <= lines_of(text).len()
                &&& line_matches(lines_of(text)[h.line_num - 1], query, use_regex)
                &&& h.line_text == shown_line(lines_of(text)[h.line_num - 1])
                &&& matching_lines(
                    position,
                    lines_of(text),
                    h.line_num - 1,
                    query,
                    use_regex,
                ).len() == j
                &&& j < limit
            },
{
    let all = lines_of(text);
    let n = all.len() as int;
    let found = matching_lines(position, all, n, query, use_regex);
    let shown = lines_found(position, text, query, use_regex, limit);
    assert forall|k: int|
        0 <= k < n && line_matches(#[trigger] all[k], query, use_regex) && matching_lines(
            position,
            all,
            k,
            query,
            use_regex,
        ).len() < limit implies shown.contains(
        LineModel { position, line_num: (k + 1) as usize, line_text: shown_line(all[k]) },
    ) by {
        lemma_matching_at(position, all, n, k, query, use_regex);
        let before = matching_lines(position, all, k, query, use_regex).len() as int;
        assert(shown[before] == found[before]);
    }
    assert forall|j: int| 0 <= j < shown.len() implies {
        let h = #[trigger] shown[j];
        &&& h.position == position
        &&& 1 <= h.line_num <= n
        &&& line_matches(all[h.line_num - 1], query, use_regex)
        &&& h.line_text == shown_line(all[h.line_num - 1])
        &&& matching_lines(position, all, h.line_num - 1, query, use_regex).len() == j
        &&& j < limit
    } by {
        let k = lemma_matching_back(position, all, n, j, query, use_regex);
        assert(shown[j] == found[j]);
    }
}

/// The lines of all files are those of candidates, each once.
proof fn lemma_lines_of_files(
    candidates: Seq<usize>,
    n: int,
    texts: Seq<Option<Seq<char>>>,
    query: Seq<char>,
    use_regex: bool,
)
    requires
        0 <= n <= candidates.len(),
        candidates.no_duplicates(),
        forall|p: int|
            0 <= p < texts.len() ==> (#[trigger] texts[p] matches Some(t) ==> lines_of(t).len()
                <= usize::MAX),
        forall|k: int| 0 <= k < candidates.len() ==> #[trigger] candidates[k] < texts.len(),
    ensures
        forall|i: int|
            0 <= i < lines_of_files(candidates, n, texts, query, use_regex).len() ==> {
                let h = #[trigger] lines_of_files(candidates, n, texts, query, use_regex)[i];
                &&& candidates.take(n).contains(h.position)
                &&& texts[h.position as int] matches Some(text)
                &&& lines_found(
                    h.position,
                    text,
                    query,
                    use_regex,
                    lines_per_file(candidates.len()),
                ).contains(h)
            },
        forall|i: int, j: int|
            0 <= i < j < lines_of_files(candidates, n, texts, query, use_regex).len() ==> {
                let a = #[trigger] lines_of_files(candidates, n, texts, query, use_regex)[i];
                let b = #[trigger] lines_of_files(candidates, n, texts, query, use_regex)[j];
                a.position != b.position || a.line_num != b.line_num
            },
    decreases n,
{
    if n > 0 {
        lemma_lines_of_files(candidates, n - 1, texts, query, use_regex);
        let before = lines_of_files(candidates, n - 1, texts, query, use_regex);
        let now = lines_of_files(candidates, n, texts, query, use_regex);
        let p = candidates[n - 1];
        let limit = lines_per_file(candidates.len());
        let mine = match texts[p as int] {
            Some(text) => lines_found(p, text, query, use_regex, limit),
            None => Seq::empty(),
        };
        assert(now == before + mine);
        if let Some(text) = texts[p as int] {
            lemma_lines_found(p, text, query, use_regex, limit);
        }
        assert(candidates.take(n) =~= candidates.take(n - 1).push(p));
        assert forall|i: int| 0 <= i < now.len() implies {
            let h = #[trigger] now[i];
            &&& candidates.take(n).contains(h.position)
            &&& texts[h.position as int] matches Some(text)
            &&& lines_found(h.position, text, query, use_regex, limit).contains(h)
        } by {
            if i < before.len() {
                let h = before[i];
                assert(now[i] == h);
                let front = candidates.take(n - 1);
                let m = choose|m: int| 0 <= m < front.len() && front[m] == h.position;
                assert(candidates.take(n)[m] == h.position);
            } else {
                let h = mine[i - before.len()];
                assert(now[i] == h);
                assert(candidates.take(n)[n - 1] == p);
            }
        }
        assert forall|i: int, j: int| 0 <= i < j < now.len() implies {
            let a = #[trigger] now[i];
            let b = #[trigger] now[j];
            a.position != b.position || a.line_num != b.line_num
        } by {
            if j < before.len() {
                assert(now[i] == before[i] && now[j] == before[j]);
            } else {
                let b = mine[j - before.len()];
                assert(now[j] == b);
                if i < before.len() {
                    let a = before[i];
                    assert(now[i] == a);
                    let front = candidates.take(n - 1);
                    let m = choose|m: int| 0 <= m < front.len() && front[m] == a.position;
                    assert(candidates[m] != candidates[n - 1]);
                } else {
                    let a = mine[i - before.len()];
                    assert(now[i] == a);
                    if a.line_num == b.line_num {
                        assert(i - before.len() == j - before.len());
                    }
                }
            }
        }
    }
}

/// The candidates are the positions of the entries that are asked for, each once.
proof fn lemma_candidates(
    entries: Seq<EntryModel>,
    table: Map<Seq<char>, Seq<usize>>,
    ext: Option<Seq<char>>,
    path: Option<Seq<char>>,
)
    requires
        entries.len() <= usize::MAX,
        lists_own(entries, table),
    ensures
        candidates_of(entries, table, ext, path).no_duplicates(),
        forall|p: usize| #[trigger]
            candidates_of(entries, table, ext, path).contains(p) <==> {
                &&& p < entries.len()
                &&& ext matches Some(x) ==> x.len() > 0 && entries[p as int].extension == x
                &&& is_candidate(entries[p as int], ext is Some, path)
            },
{
    let from = match ext {
        Some(x) => listed(table, x),
        None => all_positions(entries.len()),
    };
    let keep = |p: usize| is_candidate(entries[p as int], ext is Some, path);
    let all = candidates_of(entries, table, ext, path);
    assert(rising(from)) by {
        if let Some(x) = ext {
            assert(rising(listed(table, x)));
        }
    }
    assert(from.no_duplicates()) by {
        assert forall|i: int, j: int|
            0 <= i < from.len() && 0 <= j < from.len() && i != j implies from[i] != from[j] by {
            if i < j {
                assert(from[i] < from[j]);
            } else {
                assert(from[j] < from[i]);
            }
        }
    }
    lemma_filter_distinct(from, keep);
    assert forall|p: usize| #[trigger] all.contains(p) <==> {
        &&& p < entries.len()
        &&& ext matches Some(x) ==> x.len() > 0 && entries[p as int].extension == x
        &&& is_candidate(entries[p as int], ext is Some, path)
    } by {
        assert(from.contains(p) <==> p < entries.len() && (ext matches Some(x) ==> x.len() > 0
            && entries[p as int].extension == x)) by {
            if let Some(x) = ext {
                assert(listed(table, x).contains(p) <==> p < entries.len() && x.len() > 0
                    && entries[p as int].extension == x);
            } else {
                if p < entries.len() {
                    assert(from[p as int] == p);
                }
            }
        }
        if all.contains(p) {
            let i = choose|i: int| 0 <= i < all.len() && all[i] == p;
            from.lemma_filter_pred(keep, i);
            from.lemma_filter_contains_rev(keep, p);
        }
        if from.contains(p) && keep(p) {
            let i = choose|i: int| 0 <= i < from.len() && from[i] == p;
            from.lemma_filter_contains(keep, i);
        }
    }
}

proof fn lemma_filter_distinct(s: Seq<usize>, keep: spec_fn(usize) -> bool)
    requires
        s.no_duplicates(),
    ensures
        s.filter(keep).no_duplicates(),
    decreases s.len(),
{
    reveal(Seq::filter);
    if s.len() > 0 {
        let front = s.drop_last();
        assert(front.no_duplicates());
        lemma_filter_distinct(front, keep);
        let kept = front.filter(keep);
        if keep(s.last()) {
            assert(!kept.contains(s.last())) by {
                if kept.contains(s.last()) {
                    front.lemma_filter_contains_rev(keep, s.last());
                    let i = choose|i: int| 0 <= i < front.len() && front[i] == s.last();
                    assert(s[i] == s[s.len() - 1]);
                }
            }
            let more = kept.push(s.last());
            assert forall|i: int, j: int|
                0 <= i < more.len() && 0 <= j < more.len() && i != j implies more[i] != more[j] by {
                if i == kept.len() {
                    assert(kept.contains(kept[j]));
                } else if j == kept.len() {
                    assert(kept.contains(kept[i]));
                }
            }
        }
    }
}

/// Whether the contents of a file are asked for: it is no directory, holds something but no more
/// than 10 MB, has the extension and lies on the path that are asked for, and is text, or a document
/// where an extension or a path is asked for.
pub open spec fn file_asked_for(e: EntryModel, q: QueryModel) -> bool {
    &&& !e.is_dir
    &&& 0 < e.size <= 10 * 1024 * 1024
    &&& q.ext matches Some(x) ==> x.len() > 0 && e.extension == x
    &&& q.path matches Some(pf) ==> path_passes(e.path_lower, pf)
    &&& !binary_extension(e.extension) || (document_extension(e.extension) && (q.ext is Some
        || q.path is Some))
}

/// Whether a line is asked for: the regular expression finds a match in it as it stands in the file,
/// or, without one, the text occurs in it, whatever the case of letters.
pub open spec fn line_asked_for(line: Seq<char>, q: QueryModel) -> bool {
    if q.use_regex {
        regex_finds(q.search, true, line)
    } else {
        occurs(lowercase(line), lowercase(q.search))
    }
}

/// How many of the first `k` lines are asked for.
pub open spec fn lines_before(all: Seq<Seq<char>>, k: int, q: QueryModel) -> nat {
    Seq::new(k as nat, |i: int| i).filter(|i: int| line_asked_for(all[i], q)).len()
}

/// The number of a line in `all` is asked for, and it is shown: it is among the first five of its
/// file, or no other file is asked for.
pub open spec fn line_shown(
    entries: Seq<EntryModel>,
    texts: Seq<Option<Seq<char>>>,
    q: QueryModel,
    p: int,
    k: int,
) -> bool {
    &&& 0 <= p < entries.len()
    &&& file_asked_for(entries[p], q)
    &&& texts[p] matches Some(text)
    &&& 0 <= k < lines_of(text).len()
    &&& line_asked_for(lines_of(text)[k], q)
    &&& lines_before(lines_of(text), k, q) < 5 || forall|other: int|
        0 <= other < entries.len() && file_asked_for(#[trigger] entries[other], q) ==> other == p
}

/// As many lines are asked for as match.
proof fn lemma_lines_before(position: usize, all: Seq<Seq<char>>, k: int, q: QueryModel)
    requires
        0 <= k <= all.len(),
    ensures
        lines_before(all, k, q) == matching_lines(position, all, k, q.search, q.use_regex).len(),
        lines_before(all, k, q) <= k,
{
    lemma_matching_count(position, all, k, q.search, q.use_regex);
    lemma_few_matches(position, all, k, q.search, q.use_regex);
    assert((|i: int| line_matches(all[i], q.search, q.use_regex)) =~= (|i: int|
        line_asked_for(all[i], q)));
}

/// The candidates of a query are the files that it asks for, each once, and there is one where no
/// other is asked for.
proof fn lemma_asked_for(
    entries: Seq<EntryModel>,
    table: Map<Seq<char>, Seq<usize>>,
    q: QueryModel,
)
    requires
        entries.len() <= usize::MAX,
        lists_own(entries, table),
    ensures
        ({
            let cands = candidates_of(entries, table, q.ext, q.path);
            &&& cands.no_duplicates()
            &&& forall|k: int| 0 <= k < cands.len() ==> #[trigger] cands[k] < entries.len()
            &&& forall|p: int|
                0 <= p < entries.len() ==> (file_asked_for(#[trigger] entries[p], q)
                    <==> cands.contains(p as usize))
            &&& forall|p: int|
                0 <= p < entries.len() && file_asked_for(#[trigger] entries[p], q) ==> (cands.len()
                    == 1 <==> forall|other: int|
                    0 <= other < entries.len() && file_asked_for(#[trigger] entries[other], q)
                        ==> other == p)
        }),
{
    let cands = candidates_of(entries, table, q.ext, q.path);
    lemma_candidates(entries, table, q.ext, q.path);
    assert forall|k: int| 0 <= k < cands.len() implies #[trigger] cands[k] < entries.len() by {
        assert(cands.contains(cands[k]));
    }
    assert forall|p: int| 0 <= p < entries.len() implies (file_asked_for(#[trigger] entries[p], q)
        <==> cands.contains(p as usize)) by {}
    lemma_one_candidate(entries, q, cands);
}

/// A line of the candidates is shown.
proof fn lemma_line_is_shown(
    entries: Seq<EntryModel>,
    table: Map<Seq<char>, Seq<usize>>,
    q: QueryModel,
    texts: Seq<Option<Seq<char>>>,
    h: LineModel,
)
    requires
        entries.len() <= usize::MAX,
        lists_own(entries, table),
        candidates_of(entries, table, q.ext, q.path).contains(h.position),
        texts[h.position as int] matches Some(text) && lines_of(text).len() <= usize::MAX
            && lines_found(
            h.position,
            text,
            q.search,
            q.use_regex,
            lines_per_file(candidates_of(entries, table, q.ext, q.path).len()),
        ).contains(h),
    ensures
        line_shown(entries, texts, q, h.position as int, h.line_num - 1),
        h.line_text == shown_line(lines_of(texts[h.position as int]->0)[h.line_num - 1]),
{
    let cands = candidates_of(entries, table, q.ext, q.path);
    let limit = lines_per_file(cands.len());
    let p = h.position as int;
    lemma_asked_for(entries, table, q);
    let m = choose|m: int| 0 <= m < cands.len() && cands[m] == h.position;
    assert(cands[m] < entries.len());
    assert(file_asked_for(entries[p], q));
    let text = texts[p]->0;
    lemma_lines_found(h.position, text, q.search, q.use_regex, limit);
    let mine = lines_found(h.position, text, q.search, q.use_regex, limit);
    let j = choose|j: int| 0 <= j < mine.len() && mine[j] == h;
    assert(mine[j] == h);
    lemma_lines_before(h.position, lines_of(text), h.line_num - 1, q);
}

/// A line that is shown is among those of the candidates.
proof fn lemma_shown_is_found(
    entries: Seq<EntryModel>,
    table: Map<Seq<char>, Seq<usize>>,
    q: QueryModel,
    texts: Seq<Option<Seq<char>>>,
    p: int,
    k: int,
)
    requires
        entries.len() <= usize::MAX,
        lists_own(entries, table),
        line_shown(entries, texts, q, p, k),
        lines_of(texts[p]->0).len() <= usize::MAX,
    ensures
        ({
            let cands = candidates_of(entries, table, q.ext, q.path);
            lines_of_files(cands, cands.len() as int, texts, q.search, q.use_regex).contains(
                LineModel {
                    position: p as usize,
                    line_num: (k + 1) as usize,
                    line_text: shown_line(lines_of(texts[p]->0)[k]),
                },
            )
        }),
{
    let cands = candidates_of(entries, table, q.ext, q.path);
    let limit = lines_per_file(cands.len());
    let text = texts[p]->0;
    let at = p as usize;
    lemma_asked_for(entries, table, q);
    assert(file_asked_for(entries[p], q));
    lemma_lines_before(at, lines_of(text), k, q);
    lemma_lines_found(at, text, q.search, q.use_regex, limit);
    let h = LineModel {
        position: at,
        line_num: (k + 1) as usize,
        line_text: shown_line(lines_of(text)[k]),
    };
    assert(line_matches(lines_of(text)[k], q.search, q.use_regex));
    assert(cands.contains(at));
    assert(lines_found(at, text, q.search, q.use_regex, limit).contains(h));
    let m = choose|m: int| 0 <= m < cands.len() && cands[m] == at;
    lemma_lines_of_candidate(cands, cands.len() as int, m, texts, q.search, q.use_regex, h);
}

/// What is shown is among the lines of the candidates, and the other way round.
proof fn lemma_shown_lines(
    entries: Seq<EntryModel>,
    table: Map<Seq<char>, Seq<usize>>,
    q: QueryModel,
    texts: Seq<Option<Seq<char>>>,
)
    requires
        entries.len() <= usize::MAX,
        lists_own(entries, table),
        texts.len() == entries.len(),
        forall|p: int|
            0 <= p < texts.len() ==> (#[trigger] texts[p] matches Some(t) ==> lines_of(t).len()
                <= usize::MAX),
    ensures
        ({
            let cands = candidates_of(entries, table, q.ext, q.path);
            let all = lines_of_files(cands, cands.len() as int, texts, q.search, q.use_regex);
            &&& forall|i: int|
                0 <= i < all.len() ==> {
                    let h = #[trigger] all[i];
                    &&& line_shown(entries, texts, q, h.position as int, h.line_num - 1)
                    &&& h.line_text == shown_line(
                        lines_of(texts[h.position as int]->0)[h.line_num - 1],
                    )
                }
            &&& forall|p: int, k: int| #[trigger]
                line_shown(entries, texts, q, p, k) ==> all.contains(
                    LineModel {
                        position: p as usize,
                        line_num: (k + 1) as usize,
                        line_text: shown_line(lines_of(texts[p]->0)[k]),
                    },
                )
            &&& forall|i: int, j: int|
                0 <= i < j < all.len() ==> {
                    let a = #[trigger] all[i];
                    let b = #[trigger] all[j];
                    a.position != b.position || a.line_num != b.line_num
                }
        }),
{
    let cands = candidates_of(entries, table, q.ext, q.path);
    let n = cands.len() as int;
    let all = lines_of_files(cands, n, texts, q.search, q.use_regex);
    lemma_asked_for(entries, table, q);
    lemma_lines_of_files(cands, n, texts, q.search, q.use_regex);
    assert(cands.take(n) =~= cands);
    assert forall|i: int| 0 <= i < all.len() implies {
        let h = #[trigger] all[i];
        &&& line_shown(entries, texts, q, h.position as int, h.line_num - 1)
        &&& h.line_text == shown_line(lines_of(texts[h.position as int]->0)[h.line_num - 1])
    } by {
        let h = all[i];
        let m = choose|m: int| 0 <= m < cands.len() && cands[m] == h.position;
        assert(cands[m] < entries.len());
        lemma_line_is_shown(entries, table, q, texts, h);
    }
    assert forall|p: int, k: int| #[trigger]
        line_shown(entries, texts, q, p, k) implies all.contains(
        LineModel {
            position: p as usize,
            line_num: (k + 1) as usize,
            line_text: shown_line(lines_of(texts[p]->0)[k]),
        },
    ) by {
        lemma_shown_is_found(entries, table, q, texts, p, k);
    }
}

/// A search of contents finds a line exactly where it stands in the text of a file that is asked
/// for and is asked for itself, and it is among the first five such lines of its file or no other
/// file is asked for. It is shown with its number, and with the text of the line.
///
/// Each line is found once, by path and then by line. `places` says which line each result is: the
/// position of its entry, and its number from 0.
pub proof fn law_content_search_finds(
    entries: Seq<EntryModel>,
    table: Map<Seq<char>, Seq<usize>>,
    q: QueryModel,
    texts: Seq<Option<Seq<char>>>,
    max: int,
) -> (places: Seq<(int, int)>)
    requires
        entries.len() <= usize::MAX,
        lists_own(entries, table),
        texts.len() == entries.len(),
        forall|p: int|
            0 <= p < texts.len() ==> (#[trigger] texts[p] matches Some(t) ==> lines_of(t).len()
                <= usize::MAX),
        q.content_search,
        !q.dir_only,
        q.search.len() > 0,
        q.use_regex ==> regex_compiles(q.search, true, 1048576, usize::BITS as nat),
        search_results(entries, table, q, texts, max).len() < max,
    ensures
        places.len() == search_results(entries, table, q, texts, max).len(),
        places.no_duplicates(),
        forall|p: int, k: int| #[trigger]
            places.contains((p, k)) <==> line_shown(entries, texts, q, p, k),
        forall|i: int|
            0 <= i < places.len() ==> {
                let h = #[trigger] search_results(entries, table, q, texts, max)[i];
                &&& h.entry == entries[places[i].0]
                &&& h.score == 0
                &&& h.line_num == places[i].1 + 1
                &&& h.line_text == shown_line(lines_of(texts[places[i].0]->0)[places[i].1])
            },
        forall|i: int, j: int|
            0 <= i < j < places.len() ==> {
                let a = #[trigger] places[i];
                let b = #[trigger] places[j];
                if entries[a.0].path == entries[b.0].path {
                    a.1 <= b.1
                } else {
                    bytes_at_most(encode_utf8(entries[a.0].path), encode_utf8(entries[b.0].path))
                }
            },
{
    let r = search_results(entries, table, q, texts, max);
    let cands = candidates_of(entries, table, q.ext, q.path);
    let all = lines_of_files(cands, cands.len() as int, texts, q.search, q.use_regex);
    lemma_shown_lines(entries, table, q, texts);
    lemma_same_positions(entries, all);
    law_stable_positions(all, by_place(entries));
    let order = stable_positions(all, by_place(entries));
    let sorted = stable_sorted(all, by_place(entries));
    assert(first_of(sorted, max) =~= sorted);
    let places = Seq::new(
        all.len(),
        |i: int| (all[order[i]].position as int, all[order[i]].line_num - 1),
    );
    assert forall|i: int, j: int|
        0 <= i < places.len() && 0 <= j < places.len() && i != j implies places[i] != places[j] by {
        assert(order[i] != order[j]);
        if order[i] < order[j] {
            assert(all[order[i]].position != all[order[j]].position || all[order[i]].line_num
                != all[order[j]].line_num);
        } else {
            assert(all[order[j]].position != all[order[i]].position || all[order[j]].line_num
                != all[order[i]].line_num);
        }
    }
    assert forall|p: int, k: int| #[trigger] places.contains((p, k)) <==> line_shown(
        entries,
        texts,
        q,
        p,
        k,
    ) by {
        if places.contains((p, k)) {
            let i = choose|i: int| 0 <= i < places.len() && places[i] == (p, k);
            let h = all[order[i]];
        }
        if line_shown(entries, texts, q, p, k) {
            let h = LineModel {
                position: p as usize,
                line_num: (k + 1) as usize,
                line_text: shown_line(lines_of(texts[p]->0)[k]),
            };
            let j = choose|j: int| 0 <= j < all.len() && all[j] == h;
            assert(order.contains(j));
            let i = choose|i: int| 0 <= i < order.len() && order[i] == j;
            assert(places[i] == (p, k));
        }
    }
    assert forall|i: int| 0 <= i < places.len() implies {
        let h = #[trigger] search_results(entries, table, q, texts, max)[i];
        &&& h.entry == entries[places[i].0]
        &&& h.score == 0
        &&& h.line_num == places[i].1 + 1
        &&& h.line_text == shown_line(lines_of(texts[places[i].0]->0)[places[i].1])
    } by {
        assert(sorted[i] == all[order[i]]);
        assert(r[i] == line_hit(entries, all[order[i]]));
        let h = all[order[i]];
    }
    assert forall|i: int, j: int| 0 <= i < j < places.len() implies {
        let a = #[trigger] places[i];
        let b = #[trigger] places[j];
        if entries[a.0].path == entries[b.0].path {
            a.1 <= b.1
        } else {
            bytes_at_most(encode_utf8(entries[a.0].path), encode_utf8(entries[b.0].path))
        }
    } by {
        assert(by_place(entries)(all[order[i]], all[order[j]]));
    }
    places
}

/// No more lines match than there are.
proof fn lemma_few_matches(
    position: usize,
    all: Seq<Seq<char>>,
    n: int,
    query: Seq<char>,
    use_regex: bool,
)
    requires
        n >= 0,
    ensures
        matching_lines(position, all, n, query, use_regex).len() <= n,
    decreases n,
{
    if n > 0 {
        lemma_few_matches(position, all, n - 1, query, use_regex);
    }
}

/// There is one candidate exactly where no other file is asked for.
proof fn lemma_one_candidate(entries: Seq<EntryModel>, q: QueryModel, cands: Seq<usize>)
    requires
        cands.no_duplicates(),
        entries.len() <= usize::MAX,
        forall|p: int|
            0 <= p < entries.len() ==> (file_asked_for(#[trigger] entries[p], q) <==> cands.contains(
                p as usize,
            )),
        forall|k: int| 0 <= k < cands.len() ==> #[trigger] cands[k] < entries.len(),
    ensures
        forall|p: int|
            0 <= p < entries.len() && file_asked_for(#[trigger] entries[p], q) ==> (cands.len() == 1
                <==> forall|other: int|
                0 <= other < entries.len() && file_asked_for(#[trigger] entries[other], q) ==> other
                    == p),
{
    assert forall|p: int|
        0 <= p < entries.len() && file_asked_for(#[trigger] entries[p], q) implies (cands.len() == 1
        <==> forall|other: int|
        0 <= other < entries.len() && file_asked_for(#[trigger] entries[other], q) ==> other
            == p) by {
        let i = choose|i: int| 0 <= i < cands.len() && cands[i] == p as usize;
        if cands.len() == 1 {
            assert forall|other: int|
                0 <= other < entries.len() && file_asked_for(
                    #[trigger] entries[other],
                    q,
                ) implies other == p by {
                let j = choose|j: int| 0 <= j < cands.len() && cands[j] == other as usize;
            }
        }
        if forall|other: int|
            0 <= other < entries.len() && file_asked_for(#[trigger] entries[other], q) ==> other
                == p {
            if cands.len() > 1 {
                let j: int = if i == 0 {
                    1
                } else {
                    0
                };
                assert(cands.contains(cands[j]));
                assert(file_asked_for(entries[cands[j] as int], q));
                assert(cands[i] != cands[j]);
            }
        }
    }
}

/// A search of contents that is asked for fewer lines gives the first ones of those that a search
/// that is asked for more gives.
pub proof fn law_fewer_lines_are_the_first(
    entries: Seq<EntryModel>,
    table: Map<Seq<char>, Seq<usize>>,
    q: QueryModel,
    texts: Seq<Option<Seq<char>>>,
    few: int,
    many: int,
)
    requires
        q.content_search,
        0 <= few <= many,
    ensures
        ({
            let a = search_results(entries, table, q, texts, few);
            let b = search_results(entries, table, q, texts, many);
            &&& a.is_prefix_of(b)
            &&& a.len() == few || a == b
        }),
{
    let a = search_results(entries, table, q, texts, few);
    let b = search_results(entries, table, q, texts, many);
    assert(a =~= b.take(a.len() as int));
    if a.len() != few {
        assert(a =~= b);
    }
}

/// A search of contents finds nothing where directories only are asked for, where there is no text
/// to search for, and where the regular expression does not compile.
pub proof fn law_nothing_to_find(
    entries: Seq<EntryModel>,
    table: Map<Seq<char>, Seq<usize>>,
    q: QueryModel,
    texts: Seq<Option<Seq<char>>>,
    max: int,
)
    requires
        q.content_search,
        q.dir_only || q.search.len() == 0 || (q.use_regex && !regex_compiles(
            q.search,
            true,
            1048576,
            usize::BITS as nat,
        )),
    ensures
        search_results(entries, table, q, texts, max).len() == 0,
{
}

/// Whatever is searched for, every result has the extension that is asked for and lies on the path
/// that is asked for.
pub proof fn law_results_pass_filters(
    entries: Seq<EntryModel>,
    table: Map<Seq<char>, Seq<usize>>,
    q: QueryModel,
    texts: Seq<Option<Seq<char>>>,
    max: int,
)
    requires
        entries.len() <= usize::MAX,
        lists_own(entries, table),
        texts.len() == entries.len(),
        max >= 0,
    ensures
        forall|i: int|
            0 <= i < search_results(entries, table, q, texts, max).len() ==> {
                let h = #[trigger] search_results(entries, table, q, texts, max)[i];
                &&& entries.contains(h.entry)
                &&& q.ext matches Some(x) ==> h.entry.extension == x
                &&& q.path matches Some(pf) ==> path_passes(h.entry.path_lower, pf)
                &&& q.dir_only ==> h.entry.is_dir
            },
{
    let r = search_results(entries, table, q, texts, max);
    if !q.content_search {
        law_name_results_match(entries, q, max);
        assert forall|i: int| 0 <= i < r.len() implies {
            let h = #[trigger] r[i];
            &&& entries.contains(h.entry)
            &&& q.ext matches Some(x) ==> h.entry.extension == x
            &&& q.path matches Some(pf) ==> path_passes(h.entry.path_lower, pf)
            &&& q.dir_only ==> h.entry.is_dir
        } by {
            assert(is_named(r[i], entries, q));
        }
    } else if !q.dir_only && can_find(q.search, q.use_regex) {
        let cands = candidates_of(entries, table, q.ext, q.path);
        let n = cands.len() as int;
        let all = lines_of_files(cands, n, texts, q.search, q.use_regex);
        lemma_candidates(entries, table, q.ext, q.path);
        lemma_lines_of_candidates(cands, n, texts, q.search, q.use_regex);
        lemma_same_positions(entries, all);
        law_stable_positions(all, by_place(entries));
        let order = stable_positions(all, by_place(entries));
        let sorted = stable_sorted(all, by_place(entries));
        assert forall|i: int| 0 <= i < r.len() implies {
            let h = #[trigger] r[i];
            &&& entries.contains(h.entry)
            &&& q.ext matches Some(x) ==> h.entry.extension == x
            &&& q.path matches Some(pf) ==> path_passes(h.entry.path_lower, pf)
            &&& q.dir_only ==> h.entry.is_dir
        } by {
            let h = all[order[i]];
            assert(sorted[i] == h);
            assert(r[i] == line_hit(entries, h));
            assert(cands.contains(h.position));
        }
    }
}

/// The lines of all files are those of candidates.
proof fn lemma_lines_of_candidates(
    candidates: Seq<usize>,
    n: int,
    texts: Seq<Option<Seq<char>>>,
    query: Seq<char>,
    use_regex: bool,
)
    requires
        0 <= n <= candidates.len(),
    ensures
        forall|i: int|
            0 <= i < lines_of_files(candidates, n, texts, query, use_regex).len()
                ==> candidates.contains(
                (#[trigger] lines_of_files(candidates, n, texts, query, use_regex)[i]).position,
            ),
    decreases n,
{
    if n > 0 {
        lemma_lines_of_candidates(candidates, n - 1, texts, query, use_regex);
        let before = lines_of_files(candidates, n - 1, texts, query, use_regex);
        let now = lines_of_files(candidates, n, texts, query, use_regex);
        let p = candidates[n - 1];
        assert forall|i: int| 0 <= i < now.len() implies candidates.contains(
            (#[trigger] now[i]).position,
        ) by {
            if i < before.len() {
                assert(now[i] == before[i]);
            } else {
                let text = texts[p as int]->0;
                let found = lines_found(
                    p,
                    text,
                    query,
                    use_regex,
                    lines_per_file(candidates.len()),
                );
                lemma_own_position(p, lines_of(text), lines_of(text).len() as int, query, use_regex);
                assert(now[i] == found[i - before.len()]);
                assert(now[i] == matching_lines(
                    p,
                    lines_of(text),
                    lines_of(text).len() as int,
                    query,
                    use_regex,
                )[i - before.len()]);
            }
        }
    }
}

proof fn lemma_own_position(
    position: usize,
    all: Seq<Seq<char>>,
    n: int,
    query: Seq<char>,
    use_regex: bool,
)
    ensures
        forall|k: int|
            0 <= k < matching_lines(position, all, n, query, use_regex).len() ==> (
            #[trigger] matching_lines(position, all, n, query, use_regex)[k]).position == position,
    decreases n,
{
    if n > 0 {
        lemma_own_position(position, all, n - 1, query, use_regex);
        let before = matching_lines(position, all, n - 1, query, use_regex);
        let now = matching_lines(position, all, n, query, use_regex);
        assert forall|k: int| 0 <= k < now.len() implies (#[trigger] now[k]).position
            == position by {
            if k < before.len() {
                assert(now[k] == before[k]);
            }
        }
    }
}

/// One byte string comes no later than another exactly where it begins it, or where the first byte
/// in which they differ is less.
pub proof fn law_dictionary_order(a: Seq<u8>, b: Seq<u8>)
    ensures
        bytes_at_most(a, b) <==> a.is_prefix_of(b) || exists|k: int|
            0 <= k < a.len() && k < b.len() && a.take(k) == b.take(k) && #[trigger] a[k] < b[k],
    decreases a.len(),
{
    if a.len() == 0 {
        assert(b.take(0) =~= a);
    } else if b.len() > 0 {
        let x = a.drop_first();
        let y = b.drop_first();
        law_dictionary_order(x, y);
        if a[0] == b[0] {
            if x.is_prefix_of(y) {
                assert(b.take(a.len() as int) =~= seq![a[0]] + y.take(x.len() as int));
                assert(a =~= seq![a[0]] + x);
            }
            if a.is_prefix_of(b) {
                assert(y.take(x.len() as int) =~= b.take(a.len() as int).drop_first());
            }
            if exists|k: int|
                0 <= k < x.len() && k < y.len() && x.take(k) == y.take(k) && #[trigger] x[k]
                    < y[k] {
                let k = choose|k: int|
                    0 <= k < x.len() && k < y.len() && x.take(k) == y.take(k) && #[trigger] x[k]
                        < y[k];
                assert(a.take(k + 1) =~= seq![a[0]] + x.take(k));
                assert(b.take(k + 1) =~= seq![b[0]] + y.take(k));
                assert(a[k + 1] < b[k + 1]);
            }
            if exists|k: int|
                0 <= k < a.len() && k < b.len() && a.take(k) == b.take(k) && #[trigger] a[k]
                    < b[k] {
                let k = choose|k: int|
                    0 <= k < a.len() && k < b.len() && a.take(k) == b.take(k) && #[trigger] a[k]
                        < b[k];
                assert(x.take(k - 1) =~= a.take(k).drop_first());
                assert(y.take(k - 1) =~= b.take(k).drop_first());
                assert(x[k - 1] < y[k - 1]);
            }
        } else {
            assert(a.take(0) =~= b.take(0));
            if a.is_prefix_of(b) {
                assert(a[0] == b.take(a.len() as int)[0]);
            }
            if exists|k: int|
                0 <= k < a.len() && k < b.len() && a.take(k) == b.take(k) && #[trigger] a[k]
                    < b[k] {
                let k = choose|k: int|
                    0 <= k < a.len() && k < b.len() && a.take(k) == b.take(k) && #[trigger] a[k]
                        < b[k];
                if k > 0 {
                    assert(a.take(k)[0] == b.take(k)[0]);
                }
            }
        }
    }
}

/// A line is shown without the white space around it and without what a terminal could take for a
/// command, cut to its first 200 characters.
pub proof fn law_shown_line(line: Seq<char>)
    ensures
        ({
            let safe = trimmed(line).filter(|c: char| safe_char(c));
            &&& safe.len() <= 200 ==> shown_line(line) == safe
            &&& safe.len() > 200 ==> shown_line(line) == safe.take(200)
        }),
{
    let safe = sanitized(trimmed(line));
    assert(safe == trimmed(line).filter(|c: char| safe_char(c)));
    assert(safe.take(safe.len() as int) =~= safe);
}

/// Whoever types `ext:` and an extension gets files with that extension only, in lowercase and
/// without dots, and whoever types `in:` and a path gets what lies on that path only, whatever else
/// is typed before.
pub proof fn law_typed_filters_narrow(
    entries: Seq<EntryModel>,
    table: Map<Seq<char>, Seq<usize>>,
    left: Seq<char>,
    v: Seq<char>,
    texts: Seq<Option<Seq<char>>>,
    max: int,
)
    requires
        entries.len() <= usize::MAX,
        lists_own(entries, table),
        texts.len() == entries.len(),
        max >= 0,
        !left.contains('"'),
        !v.contains('"'),
        !v.contains(' '),
        v.len() > 0,
    ensures
        ({
            let r = search_results(entries, table, query_model(left + " ext:"@ + v), texts, max);
            forall|i: int|
                0 <= i < r.len() ==> (#[trigger] r[i]).entry.extension == lowercase(v).filter(
                    |c: char| c != '.',
                )
        }),
        ({
            let r = search_results(entries, table, query_model(left + " in:"@ + v), texts, max);
            let pf = lowercase(v).map_values(
                |c: char|
                    if c == '/' {
                        '\\'
                    } else {
                        c
                    },
            );
            forall|i: int|
                0 <= i < r.len() ==> path_passes((#[trigger] r[i]).entry.path_lower, pf)
        }),
        ({
            let r = search_results(entries, table, query_model(left + " dir:"@), texts, max);
            forall|i: int| 0 <= i < r.len() ==> (#[trigger] r[i]).entry.is_dir
        }),
{
    law_ext_sets_extension(left, v);
    law_in_sets_path(left, v);
    law_dir_asks_for_directories(left);
    law_results_pass_filters(entries, table, query_model(left + " ext:"@ + v), texts, max);
    law_results_pass_filters(entries, table, query_model(left + " in:"@ + v), texts, max);
    law_results_pass_filters(entries, table, query_model(left + " dir:"@), texts, max);
}

} // verus!
