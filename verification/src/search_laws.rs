//! What holds of search results.
use vstd::prelude::*;

use crate::contents::{
    all_positions, by_place, can_find, candidates_of, content_results, is_candidate,
    lemma_candidates_in_range, lemma_same_positions, line_hit, line_matches, lines_found,
    lines_of_files, lines_per_file, matching_lines, place_at_most, ranked_lines, shown_line,
    LineModel, Place, LINES_PER_FILE, LINE_CHARS, MAX_FILE_SIZE,
};
use crate::display::{safe_char, sanitized};
use crate::display_laws::law_sanitized_is_safe;
use crate::ext_map::listed;
use crate::filters::{binary_extension, document_extension, path_passes};
use crate::index::{
    entries_for, entry_for, hidden_name, lists_below, positions_of, table_for, EntryModel,
    FileIndex, FoundFile,
};
use crate::names::{
    bad_regex, by_score, entry_score, first_of, found_names, law_found_names, law_ranked,
    match_score, name_hit, name_results, passes, ranked, HitModel, NameMatch, Scored, EXACT_BONUS,
};
use crate::order::{law_stable_positions, positions, stable_positions, stable_sorted};
use crate::pattern::fuzzy_in_range;
use crate::query::{completed_query, kept_tokens, query_model, tokens, QueryModel};
use crate::query_laws::{
    all_spelled_alike, law_completion_sets_path_only, law_spelled_queries_ask_the_same,
};
use crate::search::search_results;
use crate::text::{lines_of, lowercase, replaced, trimmed};
use crate::utf8::occurs_at;

verus! {

/// A result that is due to an entry that the filters let through and whose name matches.
pub open spec fn is_named(r: HitModel, entries: Seq<EntryModel>, q: QueryModel) -> bool {
    exists|p: int|
        0 <= p < entries.len() && r.entry == #[trigger] entries[p] && passes(entries[p], q)
            && entry_score(entries[p], q) == Some(r.score as int)
}

/// Every result of a search of names is an entry that the filters let through and that matches,
/// with the score that it has; and there are no more of them than asked for.
pub proof fn law_name_results_match(entries: Seq<EntryModel>, q: QueryModel, max: int)
    requires
        entries.len() <= usize::MAX,
        max >= 0,
    ensures
        name_results(entries, q, max).len() <= max,
        forall|i: int|
            0 <= i < name_results(entries, q, max).len() ==> is_named(
                #[trigger] name_results(entries, q, max)[i],
                entries,
                q,
            ),
{
    let all = found_names(entries, q, 0, entries.len() as int);
    law_found_names(entries, q, 0, entries.len() as int);
    law_ranked(all, q, max);
    let results = name_results(entries, q, max);
    if !bad_regex(q) {
        let r = ranked(all, q, max);
        assert forall|i: int| 0 <= i < results.len() implies is_named(
            #[trigger] results[i],
            entries,
            q,
        ) by {
            assert(results[i] == name_hit(entries, r[i]));
            assert(all.contains(r[i]));
            let k = choose|k: int| 0 <= k < all.len() && all[k] == r[i];
            let p = all[k].position as int;
            assert(results[i].entry == entries[p]);
        }
    }
}

/// The results of a fuzzy search come by falling score.
pub proof fn law_name_results_by_score(
    entries: Seq<EntryModel>,
    q: QueryModel,
    max: int,
    i: int,
    j: int,
)
    requires
        max >= 0,
        !(q.use_regex && q.search.len() > 0),
        0 <= i < j < name_results(entries, q, max).len(),
    ensures
        name_results(entries, q, max)[i].score >= name_results(entries, q, max)[j].score,
{
    let all = found_names(entries, q, 0, entries.len() as int);
    law_ranked(all, q, max);
    let r = ranked(all, q, max);
    assert(r[i].score >= r[j].score);
}

/// A search of names leaves out nothing that matches, where there is room for all.
pub proof fn law_every_name_is_found(entries: Seq<EntryModel>, q: QueryModel, max: int, p: int)
    requires
        entries.len() <= usize::MAX,
        max >= entries.len(),
        !bad_regex(q),
        0 <= p < entries.len(),
        entry_score(entries[p], q) is Some,
    ensures
        exists|i: int|
            0 <= i < name_results(entries, q, max).len() && (#[trigger] name_results(
                entries,
                q,
                max,
            )[i]).entry == entries[p],
{
    let all = found_names(entries, q, 0, entries.len() as int);
    law_found_names(entries, q, 0, entries.len() as int);
    lemma_found_no_more(entries, q, 0, entries.len() as int);
    let k = choose|k: int| 0 <= k < all.len() && (#[trigger] all[k]).position == p;
    let results = name_results(entries, q, max);
    if q.use_regex && q.search.len() > 0 {
        assert(ranked(all, q, max) =~= all);
        assert(results[k].entry == entries[p]);
    } else {
        law_stable_positions(all, by_score());
        let order = stable_positions(all, by_score());
        assert(order.contains(k));
        let i = choose|i: int| 0 <= i < order.len() && order[i] == k;
        let sorted = stable_sorted(all, by_score());
        assert(sorted[i] == all[k]);
        assert(ranked(all, q, max) =~= sorted);
        assert(results[i].entry == entries[p]);
    }
}

proof fn lemma_found_no_more(entries: Seq<EntryModel>, q: QueryModel, from: int, to: int)
    requires
        from <= to,
    ensures
        found_names(entries, q, from, to).len() <= to - from,
    decreases to - from,
{
    if from < to {
        lemma_found_no_more(entries, q, from, to - 1);
    }
}

/// A query without text and without filters finds every entry, in the order of the index.
pub proof fn law_empty_query_finds_all(entries: Seq<EntryModel>, q: QueryModel, max: int)
    requires
        entries.len() <= usize::MAX,
        max >= entries.len(),
        q.search.len() == 0,
        q.ext is None,
        q.path is None,
        !q.dir_only,
    ensures
        name_results(entries, q, max) == entries.map_values(
            |e: EntryModel| HitModel { entry: e, score: 0, line_num: 0, line_text: Seq::empty() },
        ),
{
    let n = entries.len() as int;
    let all = found_names(entries, q, 0, n);
    lemma_all_found(entries, q, n);
    lemma_equal_keys_stay(all);
    assert(stable_sorted(all, by_score()) =~= all) by {
        assert(stable_positions(all, by_score()) =~= positions(0, n));
    }
    assert(ranked(all, q, max) =~= all);
    assert(name_results(entries, q, max) =~= entries.map_values(
        |e: EntryModel| HitModel { entry: e, score: 0, line_num: 0, line_text: Seq::empty() },
    ));
}

proof fn lemma_all_found(entries: Seq<EntryModel>, q: QueryModel, n: int)
    requires
        0 <= n <= entries.len() <= usize::MAX,
        q.search.len() == 0,
        q.ext is None,
        q.path is None,
        !q.dir_only,
    ensures
        found_names(entries, q, 0, n) == Seq::new(
            n as nat,
            |i: int| Scored { position: i as usize, score: 0 },
        ),
    decreases n,
{
    if n > 0 {
        lemma_all_found(entries, q, n - 1);
        assert(entry_score(entries[n - 1], q) == Some(0int));
    }
    assert(found_names(entries, q, 0, n) =~= Seq::new(
        n as nat,
        |i: int| Scored { position: i as usize, score: 0 },
    ));
}

/// What is equal under the order stays where it was.
proof fn lemma_equal_keys_stay(all: Seq<Scored>)
    requires
        forall|i: int| 0 <= i < all.len() ==> (#[trigger] all[i]).score == 0,
    ensures
        stable_positions(all, by_score()) == positions(0, all.len() as int),
{
    let n = all.len() as int;
    let order = stable_positions(all, by_score());
    law_stable_positions(all, by_score());
    assert forall|i: int, j: int| 0 <= i < j < n implies order[i] < order[j] by {
        let p = order[i];
        let q = order[j];
        assert(by_score()(all[q], all[p]));
    }
    lemma_increasing_is_identity(order, n);
    assert(order =~= positions(0, n));
}

/// A list of `n` rising numbers from 0 to `n` is all of them.
proof fn lemma_increasing_is_identity(s: Seq<int>, n: int)
    requires
        s.len() == n,
        forall|i: int, j: int| 0 <= i < j < n ==> s[i] < s[j],
        forall|i: int| 0 <= i < n ==> 0 <= #[trigger] s[i] < n,
    ensures
        forall|i: int| 0 <= i < n ==> #[trigger] s[i] == i,
{
    assert forall|i: int| 0 <= i < n implies #[trigger] s[i] >= i by {
        lemma_at_least(s, n, i);
    }
    assert forall|i: int| 0 <= i < n implies #[trigger] s[i] <= i by {
        lemma_at_most(s, n, i);
    }
}

proof fn lemma_at_least(s: Seq<int>, n: int, i: int)
    requires
        s.len() == n,
        0 <= i < n,
        forall|i: int, j: int| 0 <= i < j < n ==> s[i] < s[j],
        forall|i: int| 0 <= i < n ==> 0 <= #[trigger] s[i] < n,
    ensures
        s[i] >= i,
    decreases i,
{
    if i > 0 {
        lemma_at_least(s, n, i - 1);
        assert(s[i - 1] < s[i]);
    }
}

proof fn lemma_at_most(s: Seq<int>, n: int, i: int)
    requires
        s.len() == n,
        0 <= i < n,
        forall|i: int, j: int| 0 <= i < j < n ==> s[i] < s[j],
        forall|i: int| 0 <= i < n ==> 0 <= #[trigger] s[i] < n,
    ensures
        s[i] <= i,
    decreases n - i,
{
    if i < n - 1 {
        lemma_at_most(s, n, i + 1);
        assert(s[i] < s[i + 1]);
    }
}

/// Filters narrow a search each on its own: an entry passes all of them where it passes each.
pub proof fn law_filters_compose(e: EntryModel, q: QueryModel)
    ensures
        passes(e, q) <==> {
            &&& passes(e, QueryModel { dir_only: false, path: None, ..q })
            &&& passes(e, QueryModel { ext: None, path: None, ..q })
            &&& passes(e, QueryModel { ext: None, dir_only: false, ..q })
        },
{
}

/// An exact occurrence of the searched text outweighs any fuzzy score that differs by less than
/// the bonus.
pub proof fn law_exact_match_ranks_higher(a: u32, b: u32)
    requires
        b < a + EXACT_BONUS,
    ensures
        match_score(NameMatch::Fuzzy(Some(a)), true)->0 > match_score(
            NameMatch::Fuzzy(Some(b)),
            false,
        )->0,
{
}

/// Completing the `in:` filter with the path of a result keeps that result: it still passes the
/// filters of the query.
///
/// A path with a double quote in it cannot be typed, a token with a space in it has lost its
/// quotes, and a slash in a path is read as a backslash.
pub proof fn law_completed_query_keeps_result(query: Seq<char>, e: EntryModel)
    requires
        passes(e, query_model(query)),
        e.path_lower == lowercase(e.path),
        e.path.len() > 0,
        !e.path.contains('"'),
        !e.path_lower.contains('/'),
        forall|i: int|
            0 <= i < kept_tokens(query).len() ==> !(#[trigger] kept_tokens(query)[i]).contains(
                ' ',
            ),
    ensures
        passes(e, query_model(completed_query(query, e.path))),
        query_model(completed_query(query, e.path)).path == Some(e.path_lower),
{
    law_completion_sets_path_only(query, e.path);
    let pf = e.path_lower;
    reveal_strlit("/");
    lemma_nothing_replaced(pf, "/"@, "\\"@);
    assert(pf.take(pf.len() as int) =~= pf);
    assert(occurs_at(pf, pf, 0)) by {
        assert(pf.subrange(0, pf.len() as int) =~= pf);
    }
}

/// Nothing is replaced in a text that does not hold the character.
proof fn lemma_nothing_replaced(s: Seq<char>, from: Seq<char>, to: Seq<char>)
    requires
        from.len() == 1,
        !s.contains(from[0]),
    ensures
        replaced(s, from, to) == s,
    decreases s.len(),
{
    if s.len() > 0 {
        let rest = s.drop_first();
        assert(s.contains(s[0]));
        assert(!from.is_prefix_of(s)) by {
            if from.is_prefix_of(s) {
                assert(from[0] == s.take(1)[0]);
            }
        }
        assert(!rest.contains(from[0])) by {
            if rest.contains(from[0]) {
                let k = choose|k: int| 0 <= k < rest.len() && rest[k] == from[0];
                assert(s[k + 1] == from[0]);
            }
        }
        lemma_nothing_replaced(rest, from, to);
        assert(seq![s[0]] + rest =~= s);
    }
}

/// No hidden or system file is in an index, and nothing is in it that was not found.
pub proof fn law_no_hidden_entries(found: Seq<FoundFile>)
    ensures
        entries_for(found).len() <= found.len(),
        forall|i: int|
            0 <= i < entries_for(found).len() ==> {
                let e = #[trigger] entries_for(found)[i];
                !hidden_name(e.name) && exists|k: int|
                    0 <= k < found.len() && e == entry_for(#[trigger] found[k])
            },
    decreases found.len(),
{
    if found.len() > 0 {
        let front = found.drop_last();
        law_no_hidden_entries(front);
        let all = entries_for(found);
        let before = entries_for(front);
        assert forall|i: int| 0 <= i < all.len() implies {
            let e = #[trigger] all[i];
            !hidden_name(e.name) && exists|k: int|
                0 <= k < found.len() && e == entry_for(#[trigger] found[k])
        } by {
            if i < before.len() {
                assert(all[i] == before[i]);
                let k = choose|k: int|
                    0 <= k < front.len() && before[i] == entry_for(#[trigger] front[k]);
                assert(all[i] == entry_for(found[k]));
            } else {
                assert(all[i] == entry_for(found[found.len() - 1]));
            }
        }
    }
}

/// Every file that was found and is neither hidden nor a system file is in the index.
pub proof fn law_every_visible_file_is_indexed(found: Seq<FoundFile>, k: int)
    requires
        0 <= k < found.len(),
        !hidden_name(found[k].name@),
    ensures
        entries_for(found).contains(entry_for(found[k])),
    decreases found.len(),
{
    let e = entry_for(found[k]);
    let all = entries_for(found);
    if k == found.len() - 1 {
        assert(all.last() == e);
    } else {
        let before = entries_for(found.drop_last());
        law_every_visible_file_is_indexed(found.drop_last(), k);
        let i = choose|i: int| 0 <= i < before.len() && before[i] == e;
        assert(all[i] == e);
    }
}

/// A line of a result is safe to show and no longer than the limit.
pub proof fn law_shown_line_is_safe(line: Seq<char>)
    ensures
        shown_line(line).len() <= LINE_CHARS,
        forall|i: int| 0 <= i < shown_line(line).len() ==> safe_char(#[trigger] shown_line(line)[i]),
{
    let safe = sanitized(trimmed(line));
    law_sanitized_is_safe(trimmed(line));
    assert forall|i: int| 0 <= i < shown_line(line).len() implies safe_char(
        #[trigger] shown_line(line)[i],
    ) by {
        assert(shown_line(line)[i] == safe[i]);
    }
}

/// A plain search of contents does not regard the case of letters.
pub proof fn law_contents_ignore_case(
    line: Seq<char>,
    other: Seq<char>,
    query: Seq<char>,
    typed: Seq<char>,
)
    requires
        lowercase(line) == lowercase(other),
        lowercase(query) == lowercase(typed),
    ensures
        line_matches(line, query, false) == line_matches(other, typed, false),
{
}

/// Which files a search of contents never reads: directories, empty files, large files, files
/// whose path the filter does not let through, and files that are not text, but for documents where
/// their extension or a path is named.
pub proof fn law_files_never_read(e: EntryModel, by_ext: bool, path: Option<Seq<char>>)
    ensures
        e.is_dir || e.size == 0 || e.size > MAX_FILE_SIZE ==> !is_candidate(e, by_ext, path),
        binary_extension(e.extension) && !document_extension(e.extension) ==> !is_candidate(
            e,
            by_ext,
            path,
        ),
        document_extension(e.extension) ==> !is_candidate(e, false, None),
        path matches Some(pf) && !path_passes(e.path_lower, pf) ==> !is_candidate(e, by_ext, path),
{
}

/// No more than a few lines are shown of each of several files; of a single file all are.
pub proof fn law_lines_per_file(
    position: usize,
    text: Seq<char>,
    query: Seq<char>,
    use_regex: bool,
    files: nat,
)
    requires
        lines_of(text).len() <= usize::MAX,
    ensures
        files != 1 ==> lines_found(
            position,
            text,
            query,
            use_regex,
            lines_per_file(files),
        ).len() <= LINES_PER_FILE,
        files == 1 ==> lines_found(position, text, query, use_regex, lines_per_file(files))
            == matching_lines(
            position,
            lines_of(text),
            lines_of(text).len() as int,
            query,
            use_regex,
        ),
{
    lemma_matching_no_more(position, lines_of(text), lines_of(text).len() as int, query, use_regex);
}

proof fn lemma_matching_no_more(
    position: usize,
    all: Seq<Seq<char>>,
    n: int,
    query: Seq<char>,
    use_regex: bool,
)
    requires
        n >= 0,
    ensures
        matching_lines(position, all, n, query, use_regex).len() <= n,
    decreases n,
{
    if n > 0 {
        lemma_matching_no_more(position, all, n - 1, query, use_regex);
    }
}

/// Every line that matches is among the matching lines, with its number.
pub proof fn law_every_matching_line_counts(
    position: usize,
    all: Seq<Seq<char>>,
    n: int,
    at: int,
    query: Seq<char>,
    use_regex: bool,
)
    requires
        0 <= at < n <= all.len() <= usize::MAX,
        line_matches(all[at], query, use_regex),
    ensures
        matching_lines(position, all, n, query, use_regex).contains(
            LineModel { position, line_num: (at + 1) as usize, line_text: shown_line(all[at]) },
        ),
    decreases n,
{
    let h = LineModel { position, line_num: (at + 1) as usize, line_text: shown_line(all[at]) };
    let before = matching_lines(position, all, n - 1, query, use_regex);
    let now = matching_lines(position, all, n, query, use_regex);
    if at == n - 1 {
        assert(now.last() == h);
    } else {
        law_every_matching_line_counts(position, all, n - 1, at, query, use_regex);
        let i = choose|i: int| 0 <= i < before.len() && before[i] == h;
        assert(now[i] == h);
    }
}

/// A line that matches: the file at its position was read, the line with its number matches, and
/// it is shown as that line is.
pub open spec fn is_match(
    h: LineModel,
    texts: Seq<Option<Seq<char>>>,
    query: Seq<char>,
    use_regex: bool,
) -> bool {
    texts[h.position as int] matches Some(text) && {
        &&& 1 <= h.line_num <= lines_of(text).len()
        &&& line_matches(lines_of(text)[h.line_num - 1], query, use_regex)
        &&& h.line_text == shown_line(lines_of(text)[h.line_num - 1])
    }
}

proof fn lemma_matching_lines_match(
    position: usize,
    all: Seq<Seq<char>>,
    n: int,
    query: Seq<char>,
    use_regex: bool,
)
    requires
        0 <= n <= all.len() <= usize::MAX,
    ensures
        forall|i: int|
            0 <= i < matching_lines(position, all, n, query, use_regex).len() ==> {
                let h = #[trigger] matching_lines(position, all, n, query, use_regex)[i];
                h.position == position && 1 <= h.line_num <= n && line_matches(
                    all[h.line_num - 1],
                    query,
                    use_regex,
                ) && h.line_text == shown_line(all[h.line_num - 1])
            },
    decreases n,
{
    if n > 0 {
        lemma_matching_lines_match(position, all, n - 1, query, use_regex);
        let before = matching_lines(position, all, n - 1, query, use_regex);
        let now = matching_lines(position, all, n, query, use_regex);
        assert forall|i: int| 0 <= i < now.len() implies {
            let h = #[trigger] now[i];
            h.position == position && 1 <= h.line_num <= n && line_matches(
                all[h.line_num - 1],
                query,
                use_regex,
            ) && h.line_text == shown_line(all[h.line_num - 1])
        } by {
            if i < before.len() {
                assert(now[i] == before[i]);
            }
        }
    }
}

proof fn lemma_lines_of_files_match(
    candidates: Seq<usize>,
    n: int,
    texts: Seq<Option<Seq<char>>>,
    query: Seq<char>,
    use_regex: bool,
)
    requires
        0 <= n <= candidates.len(),
        forall|p: int|
            0 <= p < texts.len() ==> (#[trigger] texts[p] matches Some(t) ==> lines_of(t).len()
                <= usize::MAX),
        forall|k: int| 0 <= k < candidates.len() ==> #[trigger] candidates[k] < texts.len(),
    ensures
        forall|i: int|
            0 <= i < lines_of_files(candidates, n, texts, query, use_regex).len() ==> {
                let h = #[trigger] lines_of_files(candidates, n, texts, query, use_regex)[i];
                candidates.contains(h.position) && is_match(h, texts, query, use_regex)
            },
    decreases n,
{
    if n > 0 {
        lemma_lines_of_files_match(candidates, n - 1, texts, query, use_regex);
        let before = lines_of_files(candidates, n - 1, texts, query, use_regex);
        let now = lines_of_files(candidates, n, texts, query, use_regex);
        let p = candidates[n - 1];
        let limit = lines_per_file(candidates.len());
        assert forall|i: int| 0 <= i < now.len() implies {
            let h = #[trigger] now[i];
            candidates.contains(h.position) && is_match(h, texts, query, use_regex)
        } by {
            if i < before.len() {
                assert(now[i] == before[i]);
            } else {
                let text = texts[p as int]->0;
                let all = lines_of(text);
                lemma_matching_lines_match(p, all, all.len() as int, query, use_regex);
                let found = matching_lines(p, all, all.len() as int, query, use_regex);
                assert(now[i] == lines_found(p, text, query, use_regex, limit)[i - before.len()]);
                assert(now[i] == found[i - before.len()]);
            }
        }
    }
}

/// A result that is due to a line that matches, in a file whose contents are searched.
pub open spec fn is_due(
    r: HitModel,
    entries: Seq<EntryModel>,
    texts: Seq<Option<Seq<char>>>,
    query: Seq<char>,
    use_regex: bool,
    by_ext: bool,
    path: Option<Seq<char>>,
) -> bool {
    exists|h: LineModel| #[trigger]
        is_match(h, texts, query, use_regex) && r == line_hit(entries, h) && h.position
            < entries.len() && is_candidate(entries[h.position as int], by_ext, path)
}

/// Every result of a search of contents is a line that matches, in a file that the query lets
/// through, shown as that line is; and there are no more of them than asked for.
pub proof fn law_content_results_match(
    entries: Seq<EntryModel>,
    table: Map<Seq<char>, Seq<usize>>,
    query: Seq<char>,
    use_regex: bool,
    ext: Option<Seq<char>>,
    path: Option<Seq<char>>,
    texts: Seq<Option<Seq<char>>>,
    max: int,
)
    requires
        entries.len() <= usize::MAX,
        lists_below(table, entries.len()),
        texts.len() == entries.len(),
        forall|p: int|
            0 <= p < texts.len() ==> (#[trigger] texts[p] matches Some(t) ==> lines_of(t).len()
                <= usize::MAX),
        max >= 0,
    ensures
        ({
            let r = content_results(entries, table, query, use_regex, ext, path, texts, max);
            &&& r.len() <= max
            &&& forall|i: int|
                0 <= i < r.len() ==> is_due(
                    #[trigger] r[i],
                    entries,
                    texts,
                    query,
                    use_regex,
                    ext is Some,
                    path,
                )
        }),
{
    let r = content_results(entries, table, query, use_regex, ext, path, texts, max);
    if can_find(query, use_regex) {
        let cands = candidates_of(entries, table, ext, path);
        lemma_candidates_in_range(entries, table, ext, path);
        let n = cands.len() as int;
        let all = lines_of_files(cands, n, texts, query, use_regex);
        lemma_lines_of_files_match(cands, n, texts, query, use_regex);
        lemma_same_positions(entries, all);
        law_stable_positions(all, by_place(entries));
        let order = stable_positions(all, by_place(entries));
        let sorted = stable_sorted(all, by_place(entries));
        assert forall|i: int| 0 <= i < r.len() implies is_due(
            #[trigger] r[i],
            entries,
            texts,
            query,
            use_regex,
            ext is Some,
            path,
        ) by {
            let h = all[order[i]];
            assert(sorted[i] == h);
            assert(is_match(h, texts, query, use_regex));
            let k = choose|k: int| 0 <= k < cands.len() && cands[k] == h.position;
            assert(cands[k] < entries.len());
            assert(r[i] == line_hit(entries, h));
        }
    }
}

/// The results of a search of contents come by path, and those of one file by line.
pub proof fn law_content_results_in_order(
    entries: Seq<EntryModel>,
    found: Seq<LineModel>,
    max: int,
    i: int,
    j: int,
)
    requires
        max >= 0,
        0 <= i < j < ranked_lines(entries, found, max).len(),
    ensures
        ({
            let a = ranked_lines(entries, found, max)[i];
            let b = ranked_lines(entries, found, max)[j];
            place_at_most(
                Place { path: a.entry.path, line_num: a.line_num },
                Place { path: b.entry.path, line_num: b.line_num },
            )
        }),
{
    lemma_same_positions(entries, found);
    law_stable_positions(found, by_place(entries));
    let order = stable_positions(found, by_place(entries));
    let sorted = stable_sorted(found, by_place(entries));
    assert(sorted[i] == found[order[i]]);
    assert(sorted[j] == found[order[j]]);
    assert(by_place(entries)(found[order[i]], found[order[j]]));
}

/// What was not read gives no results: a search that is cancelled before it reads anything finds
/// nothing.
pub proof fn law_unread_files_give_nothing(
    entries: Seq<EntryModel>,
    table: Map<Seq<char>, Seq<usize>>,
    query: Seq<char>,
    use_regex: bool,
    ext: Option<Seq<char>>,
    path: Option<Seq<char>>,
    texts: Seq<Option<Seq<char>>>,
    max: int,
)
    requires
        entries.len() <= usize::MAX,
        lists_below(table, entries.len()),
        texts.len() == entries.len(),
        forall|p: int| 0 <= p < texts.len() ==> #[trigger] texts[p] is None,
        max >= 0,
    ensures
        content_results(entries, table, query, use_regex, ext, path, texts, max).len() == 0,
{
    let r = content_results(entries, table, query, use_regex, ext, path, texts, max);
    law_content_results_match(entries, table, query, use_regex, ext, path, texts, max);
    if r.len() > 0 {
        assert(is_due(r[0], entries, texts, query, use_regex, ext is Some, path));
        let h = choose|h: LineModel| #[trigger]
            is_match(h, texts, query, use_regex) && r[0] == line_hit(entries, h) && h.position
                < entries.len();
        assert(texts[h.position as int] is None);
    }
}

/// The lines of a candidate are among those of all files.
pub proof fn lemma_lines_of_candidate(
    candidates: Seq<usize>,
    n: int,
    k: int,
    texts: Seq<Option<Seq<char>>>,
    query: Seq<char>,
    use_regex: bool,
    h: LineModel,
)
    requires
        0 <= k < n <= candidates.len(),
        texts[candidates[k] as int] is Some,
        lines_found(
            candidates[k],
            texts[candidates[k] as int]->0,
            query,
            use_regex,
            lines_per_file(candidates.len()),
        ).contains(h),
    ensures
        lines_of_files(candidates, n, texts, query, use_regex).contains(h),
    decreases n,
{
    let before = lines_of_files(candidates, n - 1, texts, query, use_regex);
    let now = lines_of_files(candidates, n, texts, query, use_regex);
    if k == n - 1 {
        let mine = lines_found(
            candidates[k],
            texts[candidates[k] as int]->0,
            query,
            use_regex,
            lines_per_file(candidates.len()),
        );
        let i = choose|i: int| 0 <= i < mine.len() && mine[i] == h;
        assert(now[before.len() + i] == h);
    } else {
        lemma_lines_of_candidate(candidates, n - 1, k, texts, query, use_regex, h);
        let i = choose|i: int| 0 <= i < before.len() && before[i] == h;
        assert(now[i] == h);
    }
}

/// A search of contents leaves out no line that is to be shown of a file that was read, where there
/// is room for all.
pub proof fn law_every_line_is_found(
    entries: Seq<EntryModel>,
    table: Map<Seq<char>, Seq<usize>>,
    query: Seq<char>,
    use_regex: bool,
    ext: Option<Seq<char>>,
    path: Option<Seq<char>>,
    texts: Seq<Option<Seq<char>>>,
    max: int,
    k: int,
    h: LineModel,
)
    requires
        can_find(query, use_regex),
        0 <= k < candidates_of(entries, table, ext, path).len(),
        ({
            let cands = candidates_of(entries, table, ext, path);
            &&& texts[cands[k] as int] is Some
            &&& lines_found(
                cands[k],
                texts[cands[k] as int]->0,
                query,
                use_regex,
                lines_per_file(cands.len()),
            ).contains(h)
            &&& max >= lines_of_files(cands, cands.len() as int, texts, query, use_regex).len()
        }),
    ensures
        content_results(entries, table, query, use_regex, ext, path, texts, max).contains(
            line_hit(entries, h),
        ),
{
    let cands = candidates_of(entries, table, ext, path);
    let n = cands.len() as int;
    let all = lines_of_files(cands, n, texts, query, use_regex);
    lemma_lines_of_candidate(cands, n, k, texts, query, use_regex, h);
    lemma_same_positions(entries, all);
    law_stable_positions(all, by_place(entries));
    let order = stable_positions(all, by_place(entries));
    let sorted = stable_sorted(all, by_place(entries));
    let at = choose|at: int| 0 <= at < all.len() && all[at] == h;
    assert(order.contains(at));
    let i = choose|i: int| 0 <= i < order.len() && order[i] == at;
    let r = content_results(entries, table, query, use_regex, ext, path, texts, max);
    assert(sorted[i] == h);
    assert(first_of(sorted, max) =~= sorted);
    assert(r[i] == line_hit(entries, h));
}

proof fn lemma_lookup_prefix(
    entries: Seq<EntryModel>,
    n: int,
    ext: Seq<char>,
    path: Option<Seq<char>>,
)
    requires
        0 <= n <= entries.len() <= usize::MAX,
    ensures
        positions_of(entries.take(n), ext).filter(
            |p: usize| is_candidate(entries[p as int], true, path),
        ) == all_positions(n as nat).filter(
            |p: usize|
                entries[p as int].extension == ext && is_candidate(entries[p as int], true, path),
        ),
    decreases n,
{
    reveal(Seq::filter);
    let keep = |p: usize| is_candidate(entries[p as int], true, path);
    let both = |p: usize|
        entries[p as int].extension == ext && is_candidate(entries[p as int], true, path);
    if n == 0 {
        assert(entries.take(0) =~= Seq::<EntryModel>::empty());
        assert(all_positions(0) =~= Seq::<usize>::empty());
        assert(positions_of(entries.take(0), ext).filter(keep) =~= all_positions(0).filter(both));
    } else {
        lemma_lookup_prefix(entries, n - 1, ext, path);
        let last = (n - 1) as usize;
        assert(entries.take(n).drop_last() =~= entries.take(n - 1));
        assert(entries.take(n).last() == entries[n - 1]);
        let shorter = positions_of(entries.take(n - 1), ext);
        assert(shorter.push(last).drop_last() =~= shorter);
        assert(all_positions(n as nat).drop_last() =~= all_positions((n - 1) as nat));
        assert(all_positions(n as nat).last() == last);
    }
}

/// Looking an extension up in the table of an index that is in step finds the files that going
/// through all entries would find.
pub proof fn law_lookup_finds_the_same(
    entries: Seq<EntryModel>,
    ext: Seq<char>,
    path: Option<Seq<char>>,
)
    requires
        entries.len() <= usize::MAX,
        ext.len() > 0,
    ensures
        candidates_of(entries, table_for(entries), Some(ext), path) == all_positions(
            entries.len(),
        ).filter(
            |p: usize|
                entries[p as int].extension == ext && is_candidate(entries[p as int], true, path),
        ),
{
    let n = entries.len() as int;
    lemma_lookup_prefix(entries, n, ext, path);
    assert(entries.take(n) =~= entries);
    let keep = |p: usize| is_candidate(entries[p as int], true, path);
    let found = listed(table_for(entries), ext);
    if positions_of(entries, ext).len() == 0 {
        assert(found =~= positions_of(entries, ext));
    }
    assert(found == positions_of(entries, ext));
    assert((|p: usize| is_candidate(entries[p as int], Some(ext) is Some, path)) =~= keep);
}

/// A search for directories only finds directories only, whatever else it asks for.
pub proof fn law_dir_finds_directories_only(
    entries: Seq<EntryModel>,
    table: Map<Seq<char>, Seq<usize>>,
    q: QueryModel,
    texts: Seq<Option<Seq<char>>>,
    max: int,
)
    requires
        entries.len() <= usize::MAX,
        max >= 0,
        q.dir_only,
    ensures
        forall|i: int|
            0 <= i < search_results(entries, table, q, texts, max).len() ==> (
            #[trigger] search_results(entries, table, q, texts, max)[i]).entry.is_dir,
{
    if !q.content_search {
        let r = name_results(entries, q, max);
        law_name_results_match(entries, q, max);
        assert forall|i: int| 0 <= i < r.len() implies (#[trigger] r[i]).entry.is_dir by {
            assert(is_named(r[i], entries, q));
        }
    }
}

/// Queries whose tokens are pairwise spelled alike find the same, in the same order.
pub proof fn law_spelled_queries_find_the_same(
    entries: Seq<EntryModel>,
    table: Map<Seq<char>, Seq<usize>>,
    query: Seq<char>,
    other: Seq<char>,
    texts: Seq<Option<Seq<char>>>,
    max: int,
)
    requires
        all_spelled_alike(tokens(query), tokens(other)),
    ensures
        search_results(entries, table, query_model(query), texts, max) == search_results(
            entries,
            table,
            query_model(other),
            texts,
            max,
        ),
{
    law_spelled_queries_ask_the_same(query, other);
}

/// Every query can be run on an index whose table lists positions of entries only, but that a fuzzy
/// search needs names that can be scored.
pub proof fn law_queries_can_be_run(index: FileIndex, q: QueryModel)
    requires
        index.wf(),
    ensures
        index.serves(q),
        q.content_search || q.use_regex || q.search.len() == 0 ==> index.in_range(q),
        (forall|i: int|
            0 <= i < index.files().len() ==> fuzzy_in_range(
                q.search,
                (#[trigger] index.files()[i]).name_lower,
            )) ==> index.in_range(q),
{
}

} // verus!
