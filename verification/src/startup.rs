//! Starting up: the command line, and whether a cached index can be used.
use vstd::prelude::*;

use crate::text::{copies, copy_of, holds_text, starts_with, str_eq, views};

verus! {

/// What the command line asks for.
pub struct Args {
    /// Show the usage and exit.
    pub help: bool,
    /// Neither read nor write the cache.
    pub no_cache: bool,
    /// Build the index anew.
    pub reindex: bool,
    /// The directories to index.
    pub roots: Vec<String>,
}

/// The arguments that name directories: those that do not begin with two hyphens.
pub open spec fn roots_of(args: Seq<Seq<char>>) -> Seq<Seq<char>> {
    args.filter(|a: Seq<char>| !"--"@.is_prefix_of(a))
}

/// Reads the arguments of the command line, without the name of the program.
pub fn parse_args(args: &Vec<String>) -> (r: Args)
    ensures
        r.help == (views(args@).contains("--help"@) || views(args@).contains("-h"@)),
        r.no_cache == views(args@).contains("--no-cache"@),
        r.reindex == views(args@).contains("--reindex"@),
        views(r.roots@) == roots_of(views(args@)),
{
    let mut roots: Vec<String> = Vec::new();
    let ghost all = views(args@);
    let ghost keep = |a: Seq<char>| !"--"@.is_prefix_of(a);
    let mut i: usize = 0;
    assert(views(roots@) =~= all.take(0).filter(keep)) by {
        reveal(Seq::filter);
    }
    while i < args.len()
        invariant
            i <= args@.len(),
            all == views(args@),
            keep == (|a: Seq<char>| !"--"@.is_prefix_of(a)),
            views(roots@) == all.take(i as int).filter(keep),
        decreases args@.len() - i,
    {
        let arg: &str = args[i].as_str();
        let ghost before = views(roots@);
        proof {
            reveal(Seq::filter);
            assert(all.take(i + 1).drop_last() =~= all.take(i as int));
            assert(all.take(i + 1).last() == arg@);
        }
        if !starts_with(arg, "--") {
            roots.push(copy_of(arg));
            assert(views(roots@) =~= before.push(arg@));
        }
        i += 1;
    }
    assert(all.take(i as int) =~= all);
    Args {
        help: holds_text(args, "--help") || holds_text(args, "-h"),
        no_cache: holds_text(args, "--no-cache"),
        reindex: holds_text(args, "--reindex"),
        roots,
    }
}

/// How to come by an index.
#[derive(Clone, Copy, PartialEq, Eq, Structural)]
pub enum IndexSource {
    /// Build one and keep it out of the cache.
    BuildOnly,
    /// Build one and write it to the cache.
    BuildAndSave,
    /// Read the cache first.
    Cache,
}

/// How to come by an index.
pub open spec fn source_of(no_cache: bool, reindex: bool, cache_exists: bool) -> IndexSource {
    if no_cache {
        IndexSource::BuildOnly
    } else if reindex || !cache_exists {
        IndexSource::BuildAndSave
    } else {
        IndexSource::Cache
    }
}

impl Args {
    /// How to come by an index.
    pub fn index_source(&self, cache_exists: bool) -> (r: IndexSource)
        ensures
            r == source_of(self.no_cache, self.reindex, cache_exists),
    {
        if self.no_cache {
            IndexSource::BuildOnly
        } else if self.reindex || !cache_exists {
            IndexSource::BuildAndSave
        } else {
            IndexSource::Cache
        }
    }

    /// Whether an index may be written to the cache, now or later.
    pub fn writes_cache(&self) -> (r: bool)
        ensures
            r == !self.no_cache,
    {
        !self.no_cache
    }
}

/// Without the cache, none is read or written, whatever else is asked for.
pub proof fn law_no_cache_is_respected(reindex: bool, cache_exists: bool)
    ensures
        source_of(true, reindex, cache_exists) == IndexSource::BuildOnly,
{
}

/// A cached index that is older than this many seconds is built anew.
pub const MAX_CACHE_AGE: u64 = 3600;

/// What becomes of a cached index.
#[derive(Clone, Copy, PartialEq, Eq, Structural)]
pub enum CacheVerdict {
    /// It is used.
    Fresh,
    /// It is of other directories.
    OtherRoots,
    /// It is too old.
    Stale,
}

/// Whether `list` holds the text `s`, and where.
fn find_text(list: &Vec<String>, s: &str) -> (r: Option<usize>)
    ensures
        match r {
            Some(i) => i < list@.len() && list@[i as int]@ == s@,
            None => !views(list@).contains(s@),
        },
{
    let mut i: usize = 0;
    while i < list.len()
        invariant
            i <= list@.len(),
            forall|k: int| 0 <= k < i ==> views(list@)[k] != s@,
        decreases list@.len() - i,
    {
        if str_eq(list[i].as_str(), s) {
            return Some(i);
        }
        assert(views(list@)[i as int] == list@[i as int]@);
        i += 1;
    }
    None
}

/// Whether two lists hold the same texts, each as often, in whatever order.
pub fn same_texts(a: &Vec<String>, b: &Vec<String>) -> (r: bool)
    ensures
        r == (views(a@).to_multiset() == views(b@).to_multiset()),
{
    let ghost va = views(a@);
    let ghost vb = views(b@);
    let mut rest: Vec<String> = copies(b);
    let mut i: usize = 0;
    proof {
        broadcast use vstd::seq_lib::group_to_multiset_ensures;
        broadcast use vstd::multiset::group_multiset_axioms;

        assert(va.take(0) =~= Seq::<Seq<char>>::empty());
        assert(va.take(0).to_multiset().add(views(rest@).to_multiset()) =~= vb.to_multiset());
    }
    while i < a.len()
        invariant
            i <= a@.len(),
            va == views(a@),
            vb == views(b@),
            vb.to_multiset() == va.take(i as int).to_multiset().add(views(rest@).to_multiset()),
        decreases a@.len() - i,
    {
        let s: &str = a[i].as_str();
        let ghost taken = va.take(i as int);
        proof {
            assert(va.take(i + 1) =~= taken.push(s@));
        }
        match find_text(&rest, s) {
            Some(at) => {
                let ghost before = views(rest@);
                let _removed: String = rest.remove(at);
                proof {
                    broadcast use vstd::seq_lib::group_to_multiset_ensures;
                    broadcast use vstd::multiset::group_multiset_axioms;

                    assert(before[at as int] == s@);
                    assert(views(rest@) =~= before.remove(at as int));
                    assert(before.contains(s@));
                    assert(va.take(i + 1).to_multiset().add(views(rest@).to_multiset())
                        =~= taken.to_multiset().add(before.to_multiset()));
                }
            },
            None => {
                proof {
                    broadcast use vstd::seq_lib::group_to_multiset_ensures;
                    broadcast use vstd::multiset::group_multiset_axioms;

                    lemma_take_counts(va, i + 1, s@);
                    assert(views(rest@).to_multiset().count(s@) == 0);
                    assert(va.to_multiset().count(s@) > vb.to_multiset().count(s@));
                }
                return false;
            },
        }
        i += 1;
    }
    proof {
        broadcast use vstd::seq_lib::group_to_multiset_ensures;
        broadcast use vstd::multiset::group_multiset_axioms;

        assert(va.take(i as int) =~= va);
        if rest@.len() == 0 {
            assert(views(rest@) =~= Seq::<Seq<char>>::empty());
            assert(vb.to_multiset() =~= va.to_multiset());
        } else {
            assert(vb.to_multiset().len() == va.to_multiset().len() + views(
                rest@,
            ).to_multiset().len());
        }
    }
    rest.len() == 0
}

/// The first elements of a list hold nothing more often than the list does.
proof fn lemma_take_counts<A>(s: Seq<A>, n: int, x: A)
    requires
        0 <= n <= s.len(),
    ensures
        s.take(n).to_multiset().count(x) <= s.to_multiset().count(x),
{
    broadcast use vstd::multiset::group_multiset_axioms;

    assert(s =~= s.take(n) + s.skip(n));
    vstd::seq_lib::lemma_multiset_commutative(s.take(n), s.skip(n));
}

/// What becomes of a cached index of some roots that is `age` seconds old, where others are asked for.
pub open spec fn verdict_on(
    cached_roots: Seq<Seq<char>>,
    roots: Seq<Seq<char>>,
    age: u64,
) -> CacheVerdict {
    if cached_roots.to_multiset() != roots.to_multiset() {
        CacheVerdict::OtherRoots
    } else if age > MAX_CACHE_AGE {
        CacheVerdict::Stale
    } else {
        CacheVerdict::Fresh
    }
}

/// A cached index is used exactly where it is of the same roots, in whatever order and each as often,
/// and no more than an hour old.
pub proof fn law_cache_is_used_for_an_hour(
    cached_roots: Seq<Seq<char>>,
    roots: Seq<Seq<char>>,
    age: u64,
)
    ensures
        verdict_on(cached_roots, roots, age) == CacheVerdict::Fresh <==> age <= 60 * 60
            && cached_roots.to_multiset() == roots.to_multiset(),
        verdict_on(cached_roots, roots, age) == CacheVerdict::OtherRoots
            <==> cached_roots.to_multiset() != roots.to_multiset(),
{
}

/// Judges a cached index: `cached_roots` is what it was made of, `roots` what is asked for, and
/// `age` how old it is in seconds.
pub fn judge_cache(cached_roots: &Vec<String>, roots: &Vec<String>, age: u64) -> (r: CacheVerdict)
    ensures
        r == verdict_on(views(cached_roots@), views(roots@), age),
{
    if !same_texts(cached_roots, roots) {
        CacheVerdict::OtherRoots
    } else if age > MAX_CACHE_AGE {
        CacheVerdict::Stale
    } else {
        CacheVerdict::Fresh
    }
}

/// Every argument that does not begin with two hyphens names a directory, in order; no other does.
pub proof fn law_roots_are_the_other_arguments(args: Seq<Seq<char>>, arg: Seq<char>)
    ensures
        roots_of(Seq::empty()).len() == 0,
        roots_of(args.push(arg)) == (if arg.len() >= 2 && arg[0] == '-' && arg[1] == '-' {
            roots_of(args)
        } else {
            roots_of(args).push(arg)
        }),
{
    reveal(Seq::filter);
    reveal_strlit("--");
    assert(args.push(arg).drop_last() =~= args);
    assert("--"@.is_prefix_of(arg) <==> arg.len() >= 2 && arg[0] == '-' && arg[1] == '-') by {
        if arg.len() >= 2 {
            assert(arg.take(2)[0] == arg[0] && arg.take(2)[1] == arg[1]);
            if arg[0] == '-' && arg[1] == '-' {
                assert(arg.take(2) =~= "--"@);
            } else {
                assert("--"@[0] == '-' && "--"@[1] == '-');
            }
        }
    }
}

/// The cache is read only where it exists and neither a new index nor none in the cache is asked
/// for; it is written whenever an index is built, unless the cache is not to be used.
pub proof fn law_index_sources(reindex: bool, cache_exists: bool)
    ensures
        source_of(false, reindex, cache_exists) == IndexSource::Cache <==> cache_exists && !reindex,
        source_of(false, reindex, cache_exists) != IndexSource::BuildOnly,
{
}

} // verus!
