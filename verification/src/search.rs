//! Searching the index: a query is answered by names or by contents.
use vstd::prelude::*;

use crate::contents::{candidates_of, can_find, content_results, opt_views, ContentSearch};
use crate::index::{EntryModel, FileEntry, FileIndex};
use crate::names::{
    bad_regex, hit_views, hits_for, is_fuzzy, law_found_names, law_ranked, name_results,
    names_in_range, passes, passes_filters, ranked, HitModel, NameSearch, Scored, SearchHit,
};
use crate::pattern::{fuzzy_in_range, PatternTest};
use crate::query::{parse_query, query_model, ParsedQuery, QueryModel};
use crate::text::{opt_str, opt_view};

verus! {

/// The results of a search, where `texts` holds what could be read of each entry. Directories have
/// no contents, so a search of contents for directories only finds nothing.
pub open spec fn search_results(
    entries: Seq<EntryModel>,
    table: Map<Seq<char>, Seq<usize>>,
    q: QueryModel,
    texts: Seq<Option<Seq<char>>>,
    max: int,
) -> Seq<HitModel> {
    if q.content_search {
        if q.dir_only {
            Seq::empty()
        } else {
            content_results(entries, table, q.search, q.use_regex, q.ext, q.path, texts, max)
        }
    } else {
        name_results(entries, q, max)
    }
}

/// What a query asks for.
pub enum SearchPlan {
    /// Nothing can be found.
    Nothing,
    /// The names are searched.
    Names(NameSearch),
    /// The contents of files are searched.
    Contents(ContentSearch),
}

/// A reference to an optional string as an optional string slice.
fn as_opt_str(s: &Option<String>) -> (r: Option<&str>)
    ensures
        opt_str(r) == opt_view(*s),
{
    match s {
        Some(text) => Some(text.as_str()),
        None => None,
    }
}

impl FileIndex {
    /// The table of extensions is well formed, as far as a query looks anything up in it.
    pub open spec fn serves(&self, q: QueryModel) -> bool {
        &&& self.ext_map.wf()
        &&& q.content_search && !q.dir_only && q.ext is Some ==> self.wf()
    }

    /// The names that a query looks at can be scored, where it calls for that.
    pub open spec fn in_range(&self, q: QueryModel) -> bool {
        q.content_search || names_in_range(self.files(), q)
    }

    /// Makes ready what `query` asks for.
    pub fn plan(&self, query: &str) -> (r: SearchPlan)
        requires
            self.serves(query_model(query@)),
        ensures
            ({
                let q = query_model(query@);
                match r {
                    SearchPlan::Nothing => if q.content_search {
                        q.dir_only || !can_find(q.search, q.use_regex)
                    } else {
                        bad_regex(q)
                    },
                    SearchPlan::Names(search) => !q.content_search && !bad_regex(q) && search.wf()
                        && search.query() == q,
                    SearchPlan::Contents(search) => {
                        &&& q.content_search
                        &&& !q.dir_only
                        &&& can_find(q.search, q.use_regex)
                        &&& search.wf()
                        &&& search.query() == q.search
                        &&& search.uses_regex() == q.use_regex
                        &&& search.files() == candidates_of(
                            self.files(),
                            self.ext_map@,
                            q.ext,
                            q.path,
                        )
                    },
                }
            }),
    {
        let parsed: ParsedQuery = parse_query(query);
        if parsed.content_search {
            if parsed.dir_only {
                return SearchPlan::Nothing;
            }
            match self.plan_content(
                parsed.search_query.as_str(),
                parsed.use_regex,
                as_opt_str(&parsed.ext_filter),
                as_opt_str(&parsed.path_filter),
            ) {
                Some(search) => SearchPlan::Contents(search),
                None => SearchPlan::Nothing,
            }
        } else {
            match NameSearch::new(parsed) {
                Some(search) => SearchPlan::Names(search),
                None => SearchPlan::Nothing,
            }
        }
    }

    /// The results of a search of names.
    pub fn search_names(&self, search: &NameSearch, max_results: usize) -> (r: Vec<SearchHit<'_>>)
        requires
            search.wf(),
            names_in_range(self.files(), search.query()),
        ensures
            hit_views(r@) == name_results(self.files(), search.query(), max_results as int),
    {
        let found: Vec<Scored> = search.scan(self, 0, self.entries.len());
        let shown: Vec<Scored> = search.rank(&found, max_results);
        proof {
            search.lemma_compiles();
            assert(self.entries@.len() == self.entries.len());
            law_found_names(self.files(), search.query(), 0, self.entries@.len() as int);
            lemma_ranked_in_range(
                found@,
                search.query(),
                max_results as int,
                self.entries@.len(),
            );
        }
        hits_for(self, &shown)
    }

    /// Searches for `query`: by names, fuzzily or with a regular expression, or by the contents of
    /// files, of which `texts` holds what could be read, by the position of the entry.
    pub fn search(&self, query: &str, max_results: usize, texts: &Vec<Option<String>>) -> (r: Vec<
        SearchHit<'_>,
    >)
        requires
            self.serves(query_model(query@)),
            self.in_range(query_model(query@)),
            texts@.len() == self.entries@.len(),
        ensures
            hit_views(r@) == search_results(
                self.files(),
                self.ext_map@,
                query_model(query@),
                opt_views(texts@),
                max_results as int,
            ),
    {
        let parsed: ParsedQuery = parse_query(query);
        if parsed.content_search {
            if parsed.dir_only {
                return no_hits();
            }
            self.search_content(
                parsed.search_query.as_str(),
                parsed.use_regex,
                as_opt_str(&parsed.ext_filter),
                as_opt_str(&parsed.path_filter),
                max_results,
                texts,
            )
        } else {
            match NameSearch::new(parsed) {
                Some(search) => self.search_names(&search, max_results),
                None => no_hits(),
            }
        }
    }

    /// Whether `query` can be run: what it looks up in the table of extensions is well formed, and
    /// the names that it looks at can be scored.
    pub fn can_search(&self, query: &str) -> (r: bool)
        requires
            self.ext_map.wf(),
        ensures
            r == (self.serves(query_model(query@)) && self.in_range(query_model(query@))),
    {
        let parsed: ParsedQuery = parse_query(query);
        let text: &str = parsed.search_query.as_str();
        if parsed.content_search {
            return parsed.dir_only || parsed.ext_filter.is_none() || self.is_wf();
        }
        if parsed.use_regex || text.is_empty() {
            return true;
        }
        let test: PatternTest = PatternTest::new(text);
        let ghost files = self.files();
        let mut i: usize = 0;
        while i < self.entries.len()
            invariant
                i <= self.entries@.len(),
                files == self.files(),
                test@ == parsed@.search,
                forall|k: int|
                    0 <= k < i && passes(#[trigger] files[k], parsed@) ==> fuzzy_in_range(
                        parsed@.search,
                        files[k].name_lower,
                    ),
                is_fuzzy(parsed@),
                !parsed@.content_search,
                parsed@ == query_model(query@),
            decreases self.entries@.len() - i,
        {
            let entry: &FileEntry = &self.entries[i];
            assert(files[i as int] == entry@);
            if passes_filters(entry, &parsed) && !test.takes(entry.name_lower.as_str()) {
                assert(!fuzzy_in_range(parsed@.search, files[i as int].name_lower));
                return false;
            }
            i += 1;
        }
        true
    }
}

/// No results.
fn no_hits<'a>() -> (r: Vec<SearchHit<'a>>)
    ensures
        hit_views(r@) == Seq::<HitModel>::empty(),
{
    let none: Vec<SearchHit<'a>> = Vec::new();
    assert(hit_views(none@) =~= Seq::<HitModel>::empty());
    none
}

/// Ranking keeps positions in range.
proof fn lemma_ranked_in_range(found: Seq<Scored>, q: QueryModel, max: int, n: nat)
    requires
        max >= 0,
        forall|i: int| 0 <= i < found.len() ==> (#[trigger] found[i]).position < n,
    ensures
        forall|i: int|
            0 <= i < ranked(found, q, max).len() ==> (#[trigger] ranked(found, q, max)[i]).position
                < n,
{
    law_ranked(found, q, max);
    assert forall|i: int| 0 <= i < ranked(found, q, max).len() implies (#[trigger] ranked(
        found,
        q,
        max,
    )[i]).position < n by {
        assert(found.contains(ranked(found, q, max)[i]));
    }
}

} // verus!
