//! What a search of names finds, in terms of the entries, the query and the matchers.
use vstd::prelude::*;

use crate::filters::path_passes;
use crate::index::EntryModel;
use crate::names::{
    bad_regex, by_score, entry_score, found_names, law_found_names, name_hit, name_results, ranked,
};
use crate::order::{law_stable_positions, stable_positions, stable_sorted};
use crate::pattern::{fuzzy_score, regex_compiles, regex_finds};
use crate::query::QueryModel;
use crate::search::search_results;
use crate::text::lowercase;
use crate::utf8::occurs;

verus! {

/// The positions that a search of names found, in the order of its results.
proof fn lemma_found_order(entries: Seq<EntryModel>, q: QueryModel, max: int) -> (order: Seq<int>)
    requires
        entries.len() <= usize::MAX,
        !bad_regex(q),
        name_results(entries, q, max).len() < max,
    ensures
        order.len() == name_results(entries, q, max).len(),
        order.no_duplicates(),
        forall|i: int|
            0 <= i < order.len() ==> {
                let h = #[trigger] name_results(entries, q, max)[i];
                &&& 0 <= order[i]
                &&& order[i] < entries.len()
                &&& h.entry == entries[order[i]]
                &&& entry_score(entries[order[i]], q) == Some(h.score as int)
                &&& h.line_num == 0
                &&& h.line_text.len() == 0
            },
        forall|p: int|
            0 <= p < entries.len() && entry_score(entries[p], q) is Some
                ==> #[trigger] order.contains(p),
        forall|i: int, j: int|
            0 <= i < j < order.len() ==> {
                let a = #[trigger] name_results(entries, q, max)[i];
                let b = #[trigger] name_results(entries, q, max)[j];
                if q.use_regex && q.search.len() > 0 {
                    order[i] < order[j]
                } else {
                    a.score > b.score || (a.score == b.score && order[i] < order[j])
                }
            },
{
    let n = entries.len() as int;
    let all = found_names(entries, q, 0, n);
    law_found_names(entries, q, 0, n);
    let r = ranked(all, q, max);
    let results = name_results(entries, q, max);
    if q.use_regex && q.search.len() > 0 {
        assert(r =~= all);
        let order = Seq::new(all.len(), |i: int| all[i].position as int);
        assert forall|p: int|
            0 <= p < entries.len() && entry_score(
                entries[p],
                q,
            ) is Some implies #[trigger] order.contains(p) by {
            let k = choose|k: int| 0 <= k < all.len() && (#[trigger] all[k]).position == p;
            assert(order[k] == p);
        }
        assert forall|i: int| 0 <= i < order.len() implies {
            let h = #[trigger] results[i];
            &&& 0 <= order[i]
            &&& order[i] < entries.len()
            &&& h.entry == entries[order[i]]
            &&& entry_score(entries[order[i]], q) == Some(h.score as int)
            &&& h.line_num == 0
            &&& h.line_text.len() == 0
        } by {
            assert(results[i] == name_hit(entries, all[i]));
        }
        order
    } else {
        law_stable_positions(all, by_score());
        let places = stable_positions(all, by_score());
        let sorted = stable_sorted(all, by_score());
        assert(r =~= sorted);
        let order = Seq::new(all.len(), |i: int| all[places[i]].position as int);
        assert forall|i: int, j: int| 0 <= i < order.len() && 0 <= j < order.len() && i
            != j implies order[i] != order[j] by {
            assert(places[i] != places[j]);
            if places[i] < places[j] {
                assert(all[places[i]].position < all[places[j]].position);
            } else {
                assert(all[places[j]].position < all[places[i]].position);
            }
        }
        assert forall|p: int|
            0 <= p < entries.len() && entry_score(
                entries[p],
                q,
            ) is Some implies #[trigger] order.contains(p) by {
            let k = choose|k: int| 0 <= k < all.len() && (#[trigger] all[k]).position == p;
            assert(places.contains(k));
            let i = choose|i: int| 0 <= i < places.len() && places[i] == k;
            assert(order[i] == p);
        }
        assert forall|i: int| 0 <= i < order.len() implies {
            let h = #[trigger] results[i];
            &&& 0 <= order[i]
            &&& order[i] < entries.len()
            &&& h.entry == entries[order[i]]
            &&& entry_score(entries[order[i]], q) == Some(h.score as int)
            &&& h.line_num == 0
            &&& h.line_text.len() == 0
        } by {
            assert(sorted[i] == all[places[i]]);
            assert(results[i] == name_hit(entries, all[places[i]]));
        }
        assert forall|i: int, j: int| 0 <= i < j < order.len() implies {
            let a = #[trigger] results[i];
            let b = #[trigger] results[j];
            a.score > b.score || (a.score == b.score && order[i] < order[j])
        } by {
            assert(results[i] == name_hit(entries, all[places[i]]));
            assert(results[j] == name_hit(entries, all[places[j]]));
            assert(by_score()(all[places[i]], all[places[j]]));
            if all[places[i]].score == all[places[j]].score {
                assert(by_score()(all[places[j]], all[places[i]]));
                assert(places[i] < places[j]);
            }
        }
        order
    }
}

/// A fuzzy search of names finds an entry exactly where it has the extension that is asked for, is
/// a directory where directories are asked for, lies on the path that is asked for, and the matcher
/// gives its name a score for the text, whatever words that text has. Its score is that of the
/// matcher, and 10000 more where the name holds the text as it is. Each entry is found once, the
/// best ones first and equal ones in the order of the index. `order` says which entry each result
/// is.
pub proof fn law_fuzzy_search_finds(
    entries: Seq<EntryModel>,
    table: Map<Seq<char>, Seq<usize>>,
    q: QueryModel,
    texts: Seq<Option<Seq<char>>>,
    max: int,
) -> (order: Seq<int>)
    requires
        entries.len() <= usize::MAX,
        !q.content_search,
        !q.use_regex,
        q.search.len() > 0,
        search_results(entries, table, q, texts, max).len() < max,
    ensures
        order.len() == search_results(entries, table, q, texts, max).len(),
        order.no_duplicates(),
        forall|i: int|
            0 <= i < order.len() ==> {
                let h = #[trigger] search_results(entries, table, q, texts, max)[i];
                &&& 0 <= order[i]
                &&& order[i] < entries.len()
                &&& h.entry == entries[order[i]]
                &&& fuzzy_score(q.search, h.entry.name_lower) matches Some(s)
                &&& h.score == s + (if occurs(h.entry.name_lower, lowercase(q.search)) {
                    10000int
                } else {
                    0
                })
                &&& h.line_num == 0
                &&& h.line_text.len() == 0
            },
        forall|p: int|
            0 <= p < entries.len() ==> (#[trigger] order.contains(p) <==> {
                &&& q.ext matches Some(x) ==> entries[p].extension == x
                &&& q.dir_only ==> entries[p].is_dir
                &&& q.path matches Some(pf) ==> path_passes(entries[p].path_lower, pf)
                &&& fuzzy_score(q.search, entries[p].name_lower) is Some
            }),
        forall|i: int, j: int|
            0 <= i < j < order.len() ==> {
                let a = #[trigger] search_results(entries, table, q, texts, max)[i];
                let b = #[trigger] search_results(entries, table, q, texts, max)[j];
                a.score > b.score || (a.score == b.score && order[i] < order[j])
            },
{
    let r = name_results(entries, q, max);
    let order = lemma_found_order(entries, q, max);
    assert forall|p: int| 0 <= p < entries.len() implies (#[trigger] order.contains(p) <==> {
        &&& q.ext matches Some(x) ==> entries[p].extension == x
        &&& q.dir_only ==> entries[p].is_dir
        &&& q.path matches Some(pf) ==> path_passes(entries[p].path_lower, pf)
        &&& fuzzy_score(q.search, entries[p].name_lower) is Some
    }) by {
        if order.contains(p) {
            let i = choose|i: int| 0 <= i < order.len() && order[i] == p;
            assert(r[i].entry == entries[p]);
        }
    }
    order
}

/// A search of names with a regular expression finds an entry exactly where it passes the filters,
/// as in a fuzzy search, and the expression finds a match, whatever the case, in its name in
/// lowercase; with a score of 0 and in the order of the index. An expression that does not compile
/// finds nothing.
pub proof fn law_regex_search_finds(
    entries: Seq<EntryModel>,
    table: Map<Seq<char>, Seq<usize>>,
    q: QueryModel,
    texts: Seq<Option<Seq<char>>>,
    max: int,
) -> (order: Seq<int>)
    requires
        entries.len() <= usize::MAX,
        !q.content_search,
        q.use_regex,
        q.search.len() > 0,
        search_results(entries, table, q, texts, max).len() < max,
    ensures
        order.len() == search_results(entries, table, q, texts, max).len(),
        forall|i: int| 0 <= i < order.len() ==> 0 <= #[trigger] order[i] < entries.len(),
        forall|i: int|
            0 <= i < order.len() ==> {
                let h = #[trigger] search_results(entries, table, q, texts, max)[i];
                &&& h.entry == entries[order[i]]
                &&& h.score == 0
                &&& h.line_num == 0
                &&& h.line_text.len() == 0
            },
        forall|p: int|
            0 <= p < entries.len() ==> (#[trigger] order.contains(p) <==> {
                &&& q.ext matches Some(x) ==> entries[p].extension == x
                &&& q.dir_only ==> entries[p].is_dir
                &&& q.path matches Some(pf) ==> path_passes(entries[p].path_lower, pf)
                &&& regex_compiles(q.search, true, 1048576, usize::BITS as nat)
                &&& regex_finds(q.search, true, entries[p].name_lower)
            }),
        forall|i: int, j: int| 0 <= i < j < order.len() ==> order[i] < order[j],
{
    let r = name_results(entries, q, max);
    let order = if bad_regex(q) {
        Seq::empty()
    } else {
        lemma_found_order(entries, q, max)
    };
    assert forall|p: int| 0 <= p < entries.len() implies (#[trigger] order.contains(p) <==> {
        &&& q.ext matches Some(x) ==> entries[p].extension == x
        &&& q.dir_only ==> entries[p].is_dir
        &&& q.path matches Some(pf) ==> path_passes(entries[p].path_lower, pf)
        &&& regex_compiles(q.search, true, 1048576, usize::BITS as nat)
        &&& regex_finds(q.search, true, entries[p].name_lower)
    }) by {
        if order.contains(p) {
            let i = choose|i: int| 0 <= i < order.len() && order[i] == p;
            assert(r[i].entry == entries[p]);
        }
    }
    assert forall|i: int, j: int| 0 <= i < j < order.len() implies order[i] < order[j] by {
        let a = r[i];
        let b = r[j];
    }
    assert forall|i: int| 0 <= i < order.len() implies 0 <= #[trigger] order[i]
        < entries.len() by {
        let h = r[i];
    }
    assert forall|i: int| 0 <= i < order.len() implies {
        let h = #[trigger] search_results(entries, table, q, texts, max)[i];
        &&& h.entry == entries[order[i]]
        &&& h.score == 0
        &&& h.line_num == 0
        &&& h.line_text.len() == 0
    } by {
        let h = r[i];
        assert(entry_score(entries[order[i]], q) == Some(h.score as int));
    }
    order
}

/// A search of names without a text lists the entries that pass the filters, in the order of the
/// index.
pub proof fn law_filters_alone_list(
    entries: Seq<EntryModel>,
    table: Map<Seq<char>, Seq<usize>>,
    q: QueryModel,
    texts: Seq<Option<Seq<char>>>,
    max: int,
) -> (order: Seq<int>)
    requires
        entries.len() <= usize::MAX,
        !q.content_search,
        q.search.len() == 0,
        search_results(entries, table, q, texts, max).len() < max,
    ensures
        order.len() == search_results(entries, table, q, texts, max).len(),
        forall|i: int| 0 <= i < order.len() ==> 0 <= #[trigger] order[i] < entries.len(),
        forall|i: int|
            0 <= i < order.len() ==> {
                let h = #[trigger] search_results(entries, table, q, texts, max)[i];
                &&& h.entry == entries[order[i]]
                &&& h.score == 0
                &&& h.line_num == 0
                &&& h.line_text.len() == 0
            },
        forall|p: int|
            0 <= p < entries.len() ==> (#[trigger] order.contains(p) <==> {
                &&& q.ext matches Some(x) ==> entries[p].extension == x
                &&& q.dir_only ==> entries[p].is_dir
                &&& q.path matches Some(pf) ==> path_passes(entries[p].path_lower, pf)
            }),
        forall|i: int, j: int| 0 <= i < j < order.len() ==> order[i] < order[j],
{
    let r = name_results(entries, q, max);
    let order = lemma_found_order(entries, q, max);
    assert forall|p: int| 0 <= p < entries.len() implies (#[trigger] order.contains(p) <==> {
        &&& q.ext matches Some(x) ==> entries[p].extension == x
        &&& q.dir_only ==> entries[p].is_dir
        &&& q.path matches Some(pf) ==> path_passes(entries[p].path_lower, pf)
    }) by {
        if order.contains(p) {
            let i = choose|i: int| 0 <= i < order.len() && order[i] == p;
            assert(r[i].entry == entries[p]);
        }
    }
    assert forall|i: int, j: int| 0 <= i < j < order.len() implies order[i] < order[j] by {
        let a = r[i];
        let b = r[j];
        assert(a.score == 0 && b.score == 0);
    }
    assert forall|i: int| 0 <= i < order.len() implies 0 <= #[trigger] order[i]
        < entries.len() by {
        let h = r[i];
    }
    assert forall|i: int| 0 <= i < order.len() implies {
        let h = #[trigger] search_results(entries, table, q, texts, max)[i];
        &&& h.entry == entries[order[i]]
        &&& h.score == 0
        &&& h.line_num == 0
        &&& h.line_text.len() == 0
    } by {
        let h = r[i];
        assert(entry_score(entries[order[i]], q) == Some(h.score as int));
    }
    order
}

/// A search that is asked for fewer results gives the first ones of those that a search that is
/// asked for more gives.
pub proof fn law_fewer_names_are_the_first(
    entries: Seq<EntryModel>,
    table: Map<Seq<char>, Seq<usize>>,
    q: QueryModel,
    texts: Seq<Option<Seq<char>>>,
    few: int,
    many: int,
)
    requires
        !q.content_search,
        0 <= few <= many,
    ensures
        ({
            let a = search_results(entries, table, q, texts, few);
            let b = search_results(entries, table, q, texts, many);
            &&& a.is_prefix_of(b)
            &&& a.len() == few || a == b
        }),
{
    let a = search_results(entries, table, q, texts, few);
    let b = search_results(entries, table, q, texts, many);
    law_stable_positions(found_names(entries, q, 0, entries.len() as int), by_score());
    assert(a =~= b.take(a.len() as int));
    if a.len() != few {
        assert(a =~= b);
    }
}

} // verus!
