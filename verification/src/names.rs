//! Searching names: filters, fuzzy and regular-expression matching, and ranking.
use nucleo::pattern::Pattern;
use nucleo::Matcher;
use regex::Regex;
use vstd::prelude::*;

use crate::filters::{path_matches, path_passes};
use crate::index::{EntryModel, FileEntry, FileIndex};
use crate::order::{
    as_ints, key_order, law_stable_positions, sorted_positions, stable_positions, stable_sorted,
    Sortable,
};
use crate::pattern::{
    compile_regex, fuzzy_in_range, fuzzy_score, has_default_settings, new_matcher, parse_pattern,
    pattern_text, regex_compiles, regex_finds, regex_ignores_case, regex_is_match, regex_text,
    score_name,
};
use crate::query::{ParsedQuery, QueryModel};
use crate::text::{contains, lowercase, str_eq, to_lowercase};
use crate::utf8::occurs;

verus! {

/// What a regular expression may take in memory once compiled, in bytes.
pub const REGEX_SIZE_LIMIT: usize = 1048576;

/// What the score of a name rises by where the name holds the searched text as it is.
pub const EXACT_BONUS: i64 = 10000;

/// Whether the filters of a query let an entry through.
pub open spec fn passes(e: EntryModel, q: QueryModel) -> bool {
    &&& q.ext matches Some(ext) ==> e.extension == ext
    &&& q.dir_only ==> e.is_dir
    &&& q.path matches Some(pf) ==> path_passes(e.path_lower, pf)
}

/// Whether the filters of `query` let `entry` through.
pub fn passes_filters(entry: &FileEntry, query: &ParsedQuery) -> (r: bool)
    ensures
        r == passes(entry@, query@),
{
    if let Some(ext) = &query.ext_filter {
        if !str_eq(entry.extension.as_str(), ext.as_str()) {
            return false;
        }
    }
    if query.dir_only && !entry.is_dir {
        return false;
    }
    if let Some(pf) = &query.path_filter {
        if !path_matches(entry.path_lower.as_str(), pf.as_str()) {
            return false;
        }
    }
    true
}

/// What matching a name against the searched text gave.
#[derive(Clone, Copy)]
pub enum NameMatch {
    /// There is no text to search for.
    NoText,
    /// Whether the regular expression matches.
    Regex(bool),
    /// The fuzzy score, and none where the name does not match.
    Fuzzy(Option<u32>),
}

/// The score of a name that matched as `found` says, where `exact` says whether the searched text
/// stands in it as it is; none where it does not match.
pub open spec fn match_score(found: NameMatch, exact: bool) -> Option<int> {
    match found {
        NameMatch::NoText => Some(0),
        NameMatch::Regex(true) => Some(0),
        NameMatch::Regex(false) => None,
        NameMatch::Fuzzy(None) => None,
        NameMatch::Fuzzy(Some(score)) => Some(
            score as int + if exact {
                EXACT_BONUS as int
            } else {
                0
            },
        ),
    }
}

/// The score of a name that matched as `found` says.
pub fn score_match(found: NameMatch, exact: bool) -> (r: Option<i64>)
    ensures
        match r {
            Some(score) => match_score(found, exact) == Some(score as int),
            None => match_score(found, exact) is None,
        },
{
    match found {
        NameMatch::NoText => Some(0),
        NameMatch::Regex(matched) => if matched {
            Some(0)
        } else {
            None
        },
        NameMatch::Fuzzy(score) => match score {
            None => None,
            Some(score) => if exact {
                Some(score as i64 + EXACT_BONUS)
            } else {
                Some(score as i64)
            },
        },
    }
}

/// What matching the name of an entry against the text of a query gives.
pub open spec fn name_match(e: EntryModel, q: QueryModel) -> NameMatch {
    if q.search.len() == 0 {
        NameMatch::NoText
    } else if q.use_regex {
        NameMatch::Regex(regex_finds(q.search, true, e.name_lower))
    } else {
        NameMatch::Fuzzy(fuzzy_score(q.search, e.name_lower))
    }
}

/// The score of an entry under a query, and none where it is not found.
pub open spec fn entry_score(e: EntryModel, q: QueryModel) -> Option<int> {
    if passes(e, q) {
        match_score(name_match(e, q), occurs(e.name_lower, lowercase(q.search)))
    } else {
        None
    }
}

/// An entry that was found, by its position, with its score.
#[derive(Clone, Copy)]
pub struct Scored {
    pub position: usize,
    pub score: i64,
}

/// The entries among the positions `from..to` that a query finds, in order.
pub open spec fn found_names(entries: Seq<EntryModel>, q: QueryModel, from: int, to: int) -> Seq<
    Scored,
>
    decreases to - from,
{
    if to <= from {
        Seq::empty()
    } else {
        let before = found_names(entries, q, from, to - 1);
        match entry_score(entries[to - 1], q) {
            Some(score) => before.push(
                Scored { position: (to - 1) as usize, score: score as i64 },
            ),
            None => before,
        }
    }
}

/// Searching two ranges one behind the other finds what searching both at once finds, so a search
/// can be handed out in pieces.
pub proof fn law_ranges_add_up(
    entries: Seq<EntryModel>,
    q: QueryModel,
    from: int,
    mid: int,
    to: int,
)
    requires
        from <= mid <= to,
    ensures
        found_names(entries, q, from, to) == found_names(entries, q, from, mid) + found_names(
            entries,
            q,
            mid,
            to,
        ),
    decreases to - mid,
{
    if mid == to {
        assert(found_names(entries, q, from, mid) + found_names(entries, q, mid, to)
            =~= found_names(entries, q, from, to));
    } else {
        law_ranges_add_up(entries, q, from, mid, to - 1);
        assert(found_names(entries, q, from, mid) + found_names(entries, q, mid, to)
            =~= found_names(entries, q, from, to));
    }
}

/// What is found are positions of the range, in order, whose entries the query finds with the
/// score given.
pub proof fn law_found_names(entries: Seq<EntryModel>, q: QueryModel, from: int, to: int)
    requires
        0 <= from <= to <= entries.len() <= usize::MAX,
    ensures
        forall|i: int|
            0 <= i < found_names(entries, q, from, to).len() ==> {
                let s = #[trigger] found_names(entries, q, from, to)[i];
                from <= s.position < to && entry_score(entries[s.position as int], q) == Some(
                    s.score as int,
                )
            },
        forall|i: int, j: int|
            0 <= i < j < found_names(entries, q, from, to).len() ==> (#[trigger] found_names(
                entries,
                q,
                from,
                to,
            )[i]).position < (#[trigger] found_names(entries, q, from, to)[j]).position,
        forall|p: int|
            from <= p < to && entry_score(entries[p], q) is Some ==> exists|i: int|
                0 <= i < found_names(entries, q, from, to).len() && (#[trigger] found_names(
                    entries,
                    q,
                    from,
                    to,
                )[i]).position == p,
    decreases to - from,
{
    if from < to {
        law_found_names(entries, q, from, to - 1);
        let before = found_names(entries, q, from, to - 1);
        let all = found_names(entries, q, from, to);
        assert forall|i: int| 0 <= i < all.len() implies {
            let s = #[trigger] all[i];
            from <= s.position < to && entry_score(entries[s.position as int], q) == Some(
                s.score as int,
            )
        } by {
            if i < before.len() {
                assert(all[i] == before[i]);
            }
        }
        assert forall|i: int, j: int| 0 <= i < j < all.len() implies (#[trigger] all[i]).position
            < (#[trigger] all[j]).position by {
            assert(all[i] == before[i]);
            if j < before.len() {
                assert(all[j] == before[j]);
            }
        }
        assert forall|p: int| from <= p < to && entry_score(entries[p], q) is Some implies exists|
            i: int,
        |
            0 <= i < all.len() && (#[trigger] all[i]).position == p by {
            if p < to - 1 {
                let i = choose|i: int|
                    0 <= i < before.len() && (#[trigger] before[i]).position == p;
                assert(all[i].position == p);
            } else {
                assert(all[before.len() as int].position == p);
            }
        }
    }
}

/// The pattern that names are matched against.
enum NamePattern {
    Any,
    Regex(Regex),
    Fuzzy(Pattern),
}

/// A search of names, ready to run.
pub struct NameSearch {
    query: ParsedQuery,
    search_lower: String,
    pattern: NamePattern,
}

/// Whether the text of a query is a regular expression for names that does not compile.
pub open spec fn bad_regex(q: QueryModel) -> bool {
    q.use_regex && q.search.len() > 0 && !regex_compiles(
        q.search,
        true,
        REGEX_SIZE_LIMIT as nat,
        usize::BITS as nat,
    )
}

/// Whether a query scores names under a fuzzy pattern.
pub open spec fn is_fuzzy(q: QueryModel) -> bool {
    q.search.len() > 0 && !q.use_regex
}

/// Whether the names of all entries that the filters let through can be scored, where the query
/// calls for it.
pub open spec fn names_in_range(entries: Seq<EntryModel>, q: QueryModel) -> bool {
    is_fuzzy(q) ==> forall|i: int|
        0 <= i < entries.len() && passes(#[trigger] entries[i], q) ==> fuzzy_in_range(
            q.search,
            entries[i].name_lower,
        )
}

impl NameSearch {
    /// What is searched for.
    pub closed spec fn query(&self) -> QueryModel {
        self.query@
    }

    /// The pattern is that of the query.
    pub closed spec fn wf(&self) -> bool {
        let q = self.query@;
        &&& !bad_regex(q)
        &&& self.search_lower@ == lowercase(q.search)
        &&& match self.pattern {
            NamePattern::Any => q.search.len() == 0,
            NamePattern::Regex(re) => q.search.len() > 0 && q.use_regex && regex_text(re)
                == q.search && regex_ignores_case(re),
            NamePattern::Fuzzy(p) => q.search.len() > 0 && !q.use_regex && pattern_text(p)
                == q.search,
        }
    }

    /// Where there is a search, its regular expression compiles.
    pub proof fn lemma_compiles(&self)
        requires
            self.wf(),
        ensures
            !bad_regex(self.query()),
    {
    }

    /// Makes a search for `query`; there is none where its regular expression does not compile.
    pub fn new(query: ParsedQuery) -> (r: Option<NameSearch>)
        ensures
            r is None <==> bad_regex(query@),
            r matches Some(search) ==> search.wf() && search.query() == query@,
    {
        let search_lower: String = to_lowercase(query.search_query.as_str());
        if query.search_query.as_str().is_empty() {
            Some(NameSearch { query, search_lower, pattern: NamePattern::Any })
        } else if query.use_regex {
            match compile_regex(query.search_query.as_str(), true, REGEX_SIZE_LIMIT) {
                Some(re) => Some(
                    NameSearch { query, search_lower, pattern: NamePattern::Regex(re) },
                ),
                None => None,
            }
        } else {
            let pattern: Pattern = parse_pattern(query.search_query.as_str());
            Some(NameSearch { query, search_lower, pattern: NamePattern::Fuzzy(pattern) })
        }
    }

    /// Matches one name.
    fn match_name(&self, name_lower: &str, matcher: &mut Matcher, buf: &mut Vec<char>) -> (r:
        NameMatch)
        requires
            self.wf(),
            has_default_settings(*old(matcher)),
            is_fuzzy(self.query()) ==> fuzzy_in_range(self.query().search, name_lower@),
        ensures
            has_default_settings(*final(matcher)),
            forall|e: EntryModel|
                e.name_lower == name_lower@ ==> r == #[trigger] name_match(e, self.query()),
    {
        match &self.pattern {
            NamePattern::Any => NameMatch::NoText,
            NamePattern::Regex(re) => NameMatch::Regex(regex_is_match(re, name_lower)),
            NamePattern::Fuzzy(p) => NameMatch::Fuzzy(score_name(p, name_lower, matcher, buf)),
        }
    }

    /// Searches the entries at the positions `from..to`.
    pub fn scan(&self, index: &FileIndex, from: usize, to: usize) -> (r: Vec<Scored>)
        requires
            self.wf(),
            from <= to <= index.entries@.len(),
            names_in_range(index.files(), self.query()),
        ensures
            r@ == found_names(index.files(), self.query(), from as int, to as int),
    {
        let mut out: Vec<Scored> = Vec::new();
        let mut matcher: Matcher = new_matcher();
        let mut buf: Vec<char> = Vec::new();
        let ghost q = self.query();
        let ghost files = index.files();
        let mut i: usize = from;
        while i < to
            invariant
                self.wf(),
                from <= i <= to <= index.entries@.len(),
                q == self.query(),
                files == index.files(),
                names_in_range(files, q),
                has_default_settings(matcher),
                out@ == found_names(files, q, from as int, i as int),
            decreases to - i,
        {
            let entry: &FileEntry = &index.entries[i];
            assert(files[i as int] == entry@);
            if passes_filters(entry, &self.query) {
                let name: &str = entry.name_lower.as_str();
                let found: NameMatch = self.match_name(name, &mut matcher, &mut buf);
                assert(found == name_match(entry@, q));
                let exact: bool = match found {
                    NameMatch::Fuzzy(Some(_)) => contains(name, self.search_lower.as_str()),
                    _ => false,
                };
                if let Some(score) = score_match(found, exact) {
                    out.push(Scored { position: i, score });
                }
            }
            i += 1;
        }
        out
    }

    /// Sorts and cuts what the search found.
    pub fn rank(&self, found: &Vec<Scored>, max_results: usize) -> (r: Vec<Scored>)
        ensures
            r@ == ranked(found@, self.query(), max_results as int),
    {
        rank_names(found, &self.query, max_results)
    }
}

/// Scored entries, sorted by score.
struct ByScore<'a> {
    found: &'a Vec<Scored>,
}

/// Whether one scored entry comes no later than another: the higher score comes first.
pub open spec fn scores_no_less(a: Scored, b: Scored) -> bool {
    a.score >= b.score
}

impl<'a> Sortable for ByScore<'a> {
    type Key = Scored;

    closed spec fn keys(&self) -> Seq<Scored> {
        self.found@
    }

    closed spec fn at_most(a: Scored, b: Scored) -> bool {
        scores_no_less(a, b)
    }

    proof fn lemma_ranks_all() {
    }

    fn is_at_most(&self, a: usize, b: usize) -> (r: bool) {
        self.found[a].score >= self.found[b].score
    }
}

/// The order of scored entries.
pub open spec fn by_score() -> spec_fn(Scored, Scored) -> bool {
    |a: Scored, b: Scored| scores_no_less(a, b)
}

/// The first `n` of `s`, or all of them where there are fewer.
pub open spec fn first_of<A>(s: Seq<A>, n: int) -> Seq<A> {
    if n <= s.len() {
        s.take(n)
    } else {
        s
    }
}

/// The found entries that are shown: those of a regular expression in the order of the index, all
/// others by falling score and with equal scores in the order of the index; `max` at most.
pub open spec fn ranked(found: Seq<Scored>, q: QueryModel, max: int) -> Seq<Scored> {
    first_of(
        if q.use_regex && q.search.len() > 0 {
            found
        } else {
            stable_sorted(found, by_score())
        },
        max,
    )
}

/// Sorts and cuts what a search of names found.
pub fn rank_names(found: &Vec<Scored>, query: &ParsedQuery, max_results: usize) -> (r: Vec<Scored>)
    ensures
        r@ == ranked(found@, query@, max_results as int),
{
    let n: usize = found.len();
    let keep: usize = if max_results < n {
        max_results
    } else {
        n
    };
    let mut out: Vec<Scored> = Vec::new();
    let mut i: usize = 0;
    if query.use_regex && !query.search_query.as_str().is_empty() {
        while i < keep
            invariant
                i <= keep <= n == found@.len(),
                out@ == found@.take(i as int),
            decreases keep - i,
        {
            out.push(found[i]);
            i += 1;
            assert(found@.take(i as int) =~= found@.take(i - 1).push(found@[i - 1]));
        }
        assert(out@ =~= ranked(found@, query@, max_results as int));
        return out;
    }
    let things = ByScore { found };
    let order: Vec<usize> = sorted_positions(&things, n);
    let ghost sorted = stable_sorted(found@, by_score());
    proof {
        assert(key_order::<ByScore<'_>>() =~= by_score());
        ByScore::lemma_ranks_all();
        assert((|a: Scored, b: Scored| ByScore::at_most(a, b)) =~= by_score());
        law_stable_positions(found@, by_score());
        assert(as_ints(order@).len() == order@.len());
    }
    while i < keep
        invariant
            i <= keep <= n == found@.len(),
            order@.len() == n,
            sorted == stable_sorted(found@, by_score()),
            sorted.len() == n,
            as_ints(order@) == stable_positions(found@, by_score()),
            forall|k: int|
                0 <= k < found@.len() ==> 0 <= #[trigger] stable_positions(found@, by_score())[k]
                    < found@.len(),
            out@ == sorted.take(i as int),
        decreases keep - i,
    {
        assert(as_ints(order@)[i as int] == order@[i as int]);
        assert(stable_positions(found@, by_score())[i as int] == order@[i as int]);
        let at: usize = order[i];
        out.push(found[at]);
        i += 1;
        assert(sorted.take(i as int) =~= sorted.take(i - 1).push(sorted[i - 1]));
    }
    assert(out@ =~= ranked(found@, query@, max_results as int));
    out
}

/// What ranking does: nothing is made up, no more than `max` is kept, and except for a regular
/// expression no entry comes behind one that scores less.
pub proof fn law_ranked(found: Seq<Scored>, q: QueryModel, max: int)
    requires
        max >= 0,
    ensures
        ranked(found, q, max).len() == (if max <= found.len() {
            max
        } else {
            found.len() as int
        }),
        forall|i: int|
            0 <= i < ranked(found, q, max).len() ==> found.contains(
                #[trigger] ranked(found, q, max)[i],
            ),
        !(q.use_regex && q.search.len() > 0) ==> forall|i: int, j: int|
            0 <= i < j < ranked(found, q, max).len() ==> (#[trigger] ranked(found, q, max)[i]).score
                >= (#[trigger] ranked(found, q, max)[j]).score,
{
    law_stable_positions(found, by_score());
    let r = ranked(found, q, max);
    let order = stable_positions(found, by_score());
    if !(q.use_regex && q.search.len() > 0) {
        assert forall|i: int, j: int| 0 <= i < j < r.len() implies (#[trigger] r[i]).score >= (
        #[trigger] r[j]).score by {
            assert(by_score()(found[order[i]], found[order[j]]));
        }
        assert forall|i: int| 0 <= i < r.len() implies found.contains(#[trigger] r[i]) by {
            assert(r[i] == found[order[i]]);
        }
    }
}

/// A search result; a match in the contents of a file has a line.
pub struct SearchHit<'a> {
    pub entry: &'a FileEntry,
    pub score: i64,
    /// The number of the line, from 1, and 0 where the name was found.
    pub line_num: usize,
    /// The line, and nothing where the name was found.
    pub line_text: String,
}

/// What a search result says.
pub struct HitModel {
    pub entry: EntryModel,
    pub score: i64,
    pub line_num: usize,
    pub line_text: Seq<char>,
}

impl<'a> View for SearchHit<'a> {
    type V = HitModel;

    open spec fn view(&self) -> HitModel {
        HitModel {
            entry: self.entry@,
            score: self.score,
            line_num: self.line_num,
            line_text: self.line_text@,
        }
    }
}

/// What a list of results says.
pub open spec fn hit_views(hits: Seq<SearchHit>) -> Seq<HitModel> {
    hits.map_values(|h: SearchHit| h@)
}

/// The result for a found name.
pub open spec fn name_hit(entries: Seq<EntryModel>, s: Scored) -> HitModel {
    HitModel {
        entry: entries[s.position as int],
        score: s.score,
        line_num: 0,
        line_text: Seq::empty(),
    }
}

/// The results for found names.
pub open spec fn name_hits(entries: Seq<EntryModel>, found: Seq<Scored>) -> Seq<HitModel> {
    found.map_values(|s: Scored| name_hit(entries, s))
}

/// The results for the names at the positions of `found`.
pub fn hits_for<'a>(index: &'a FileIndex, found: &Vec<Scored>) -> (r: Vec<SearchHit<'a>>)
    requires
        forall|i: int|
            0 <= i < found@.len() ==> (#[trigger] found@[i]).position < index.entries@.len(),
    ensures
        hit_views(r@) == name_hits(index.files(), found@),
{
    let mut out: Vec<SearchHit<'a>> = Vec::new();
    let mut i: usize = 0;
    while i < found.len()
        invariant
            i <= found@.len(),
            forall|k: int|
                0 <= k < found@.len() ==> (#[trigger] found@[k]).position < index.entries@.len(),
            hit_views(out@) == name_hits(index.files(), found@.take(i as int)),
        decreases found@.len() - i,
    {
        let s: Scored = found[i];
        let ghost before = hit_views(out@);
        out.push(
            SearchHit {
                entry: &index.entries[s.position],
                score: s.score,
                line_num: 0,
                line_text: String::new(),
            },
        );
        i += 1;
        assert(found@.take(i as int) =~= found@.take(i - 1).push(s));
        assert(name_hits(index.files(), found@.take(i as int)) =~= before.push(
            name_hit(index.files(), s),
        ));
        assert(hit_views(out@) =~= before.push(name_hit(index.files(), s)));
    }
    assert(found@.take(i as int) =~= found@);
    out
}

/// The results of a search of names.
pub open spec fn name_results(entries: Seq<EntryModel>, q: QueryModel, max: int) -> Seq<HitModel> {
    if bad_regex(q) {
        Seq::empty()
    } else {
        name_hits(entries, ranked(found_names(entries, q, 0, entries.len() as int), q, max))
    }
}

} // verus!
