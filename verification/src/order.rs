//! Stable sorting: what it means, and a merge sort that does it.
use vstd::prelude::*;
use vstd::relations::{reflexive, sorted_by, strongly_connected, total_ordering, transitive};
use vstd::seq_lib::{lemma_multiset_commutative, lemma_sorted_unique};

verus! {

/// A relation that orders everything, though not always strictly.
pub open spec fn ranks_all<A>(le: spec_fn(A, A) -> bool) -> bool {
    &&& reflexive(le)
    &&& transitive(le)
    &&& strongly_connected(le)
}

/// The positions `from..to`, in order.
pub open spec fn positions(from: int, to: int) -> Seq<int> {
    Seq::new(
        if from <= to {
            (to - from) as nat
        } else {
            0
        },
        |i: int| from + i,
    )
}

/// Position `a` of `s` comes no later than position `b` once `s` is sorted by `le`: what is equal
/// under `le` stays in the order that it had.
pub open spec fn stays_before<A>(s: Seq<A>, le: spec_fn(A, A) -> bool) -> spec_fn(int, int) -> bool {
    |a: int, b: int| le(s[a], s[b]) && (!le(s[b], s[a]) || a <= b)
}

/// The positions of `s` in the order in which a stable sort by `le` leaves them.
pub open spec fn stable_positions<A>(s: Seq<A>, le: spec_fn(A, A) -> bool) -> Seq<int> {
    positions(0, s.len() as int).sort_by(stays_before(s, le))
}

/// `s`, stably sorted by `le`.
pub open spec fn stable_sorted<A>(s: Seq<A>, le: spec_fn(A, A) -> bool) -> Seq<A> {
    stable_positions(s, le).map_values(|p: int| s[p])
}

proof fn lemma_stays_before_is_total<A>(s: Seq<A>, le: spec_fn(A, A) -> bool)
    requires
        ranks_all(le),
    ensures
        total_ordering(stays_before(s, le)),
{
    let r = stays_before(s, le);
    assert forall|x: int| #[trigger] r(x, x) by {
        assert(le(s[x], s[x]));
    }
    assert forall|x: int, y: int| #[trigger] r(x, y) && #[trigger] r(y, x) implies x == y by {}
    assert forall|x: int, y: int, z: int| #[trigger] r(x, y) && #[trigger] r(y, z) implies r(
        x,
        z,
    ) by {
        assert(le(s[x], s[y]) && le(s[y], s[z]));
        assert(le(s[x], s[z]));
        if le(s[z], s[x]) {
            assert(le(s[z], s[y]));
            assert(le(s[y], s[x]));
        }
    }
    assert forall|x: int, y: int| #[trigger] r(x, y) || #[trigger] r(y, x) by {
        assert(le(s[x], s[y]) || le(s[y], s[x]));
    }
}

/// What sorting does to the positions: none is lost or doubled, and each two of them come out in
/// the order that the relation gives, or in the order they had where it gives none.
pub proof fn law_stable_positions<A>(s: Seq<A>, le: spec_fn(A, A) -> bool)
    requires
        ranks_all(le),
    ensures
        stable_positions(s, le).len() == s.len(),
        stable_positions(s, le).no_duplicates(),
        forall|i: int|
            0 <= i < s.len() ==> 0 <= #[trigger] stable_positions(s, le)[i] < s.len(),
        forall|p: int| 0 <= p < s.len() ==> #[trigger] stable_positions(s, le).contains(p),
        forall|i: int, j: int|
            0 <= i < j < s.len() ==> {
                let p = #[trigger] stable_positions(s, le)[i];
                let q = #[trigger] stable_positions(s, le)[j];
                le(s[p], s[q]) && (le(s[q], s[p]) ==> p < q)
            },
{
    broadcast use vstd::seq_lib::group_to_multiset_ensures;
    broadcast use vstd::multiset::group_multiset_axioms;

    let all = positions(0, s.len() as int);
    let r = stays_before(s, le);
    let sorted = stable_positions(s, le);
    lemma_stays_before_is_total(s, le);
    all.lemma_sort_by_ensures(r);
    assert(sorted.len() == all.len()) by {
        assert(sorted.to_multiset().len() == all.to_multiset().len());
    }
    assert forall|p: int| 0 <= p < s.len() implies #[trigger] sorted.contains(p) by {
        assert(all[p] == p);
        assert(all.contains(p));
        assert(sorted.to_multiset().count(p) > 0);
    }
    assert forall|i: int| 0 <= i < s.len() implies 0 <= #[trigger] sorted[i] < s.len() by {
        assert(sorted.contains(sorted[i]));
        assert(all.contains(sorted[i]));
        let k = choose|k: int| 0 <= k < all.len() && all[k] == sorted[i];
        assert(all[k] == k);
    }
    assert(all.no_duplicates());
    all.lemma_multiset_has_no_duplicates();
    assert(sorted.no_duplicates()) by {
        sorted.lemma_multiset_has_no_duplicates_conv();
    }
    assert forall|i: int, j: int| 0 <= i < j < s.len() implies {
        let p = #[trigger] sorted[i];
        let q = #[trigger] sorted[j];
        le(s[p], s[q]) && (le(s[q], s[p]) ==> p < q)
    } by {
        assert(r(sorted[i], sorted[j]));
        assert(sorted[i] != sorted[j]);
    }
}

/// Two lists whose relations agree position by position are sorted alike.
pub proof fn lemma_same_order<A, B>(
    s: Seq<A>,
    le: spec_fn(A, A) -> bool,
    t: Seq<B>,
    lf: spec_fn(B, B) -> bool,
)
    requires
        s.len() == t.len(),
        ranks_all(le),
        ranks_all(lf),
        forall|a: int, b: int|
            0 <= a < s.len() && 0 <= b < s.len() ==> #[trigger] le(s[a], s[b]) == lf(t[a], t[b]),
    ensures
        stable_positions(s, le) == stable_positions(t, lf),
{
    let p = stable_positions(s, le);
    let q = stable_positions(t, lf);
    let all = positions(0, s.len() as int);
    law_stable_positions(s, le);
    law_stable_positions(t, lf);
    lemma_stays_before_is_total(s, le);
    lemma_stays_before_is_total(t, lf);
    all.lemma_sort_by_ensures(stays_before(s, le));
    all.lemma_sort_by_ensures(stays_before(t, lf));
    let r = stays_before(t, lf);
    assert forall|i: int, j: int| 0 <= i < j < p.len() implies #[trigger] r(p[i], p[j]) by {
        assert(stays_before(s, le)(p[i], p[j]));
        assert(le(s[p[i]], s[p[j]]) == lf(t[p[i]], t[p[j]]));
        assert(le(s[p[j]], s[p[i]]) == lf(t[p[j]], t[p[i]]));
    }
    lemma_sorted_unique(p, q, r);
}

/// Things that can be sorted by a key.
pub trait Sortable {
    /// What things are sorted by.
    type Key;

    /// The keys, in the order in which the things stand.
    spec fn keys(&self) -> Seq<Self::Key>;

    /// Whether one key comes no later than another.
    spec fn at_most(a: Self::Key, b: Self::Key) -> bool;

    /// The keys are ordered.
    proof fn lemma_ranks_all()
        ensures
            ranks_all(|a: Self::Key, b: Self::Key| Self::at_most(a, b)),
    ;

    /// Whether the key at position `a` comes no later than the key at position `b`.
    fn is_at_most(&self, a: usize, b: usize) -> (r: bool)
        requires
            a < self.keys().len(),
            b < self.keys().len(),
        ensures
            r == Self::at_most(self.keys()[a as int], self.keys()[b as int]),
    ;
}

/// The order of the keys of a `Sortable`.
pub open spec fn key_order<S: Sortable>() -> spec_fn(S::Key, S::Key) -> bool {
    |a: S::Key, b: S::Key| S::at_most(a, b)
}

/// A list of positions as integers.
pub open spec fn as_ints(v: Seq<usize>) -> Seq<int> {
    v.map_values(|p: usize| p as int)
}

/// `v` holds the positions `from..to` of `things`, sorted.
spec fn is_run<S: Sortable>(things: &S, v: Seq<usize>, from: int, to: int) -> bool {
    &&& as_ints(v).to_multiset() == positions(from, to).to_multiset()
    &&& sorted_by(as_ints(v), stays_before(things.keys(), key_order::<S>()))
    &&& v.len() == to - from
    &&& forall|i: int| 0 <= i < v.len() ==> from <= #[trigger] v[i] < to
}

/// `whole` holds the first `i` positions of `left` and the first `j` of `right`, sorted, and no
/// position that is left belongs in front of one of them.
spec fn is_merged<S: Sortable>(
    things: &S,
    left: Seq<usize>,
    right: Seq<usize>,
    i: int,
    j: int,
    whole: Seq<usize>,
) -> bool {
    let r = stays_before(things.keys(), key_order::<S>());
    &&& 0 <= i <= left.len()
    &&& 0 <= j <= right.len()
    &&& whole.len() == i + j
    &&& as_ints(whole).to_multiset() == as_ints(left.take(i)).to_multiset().add(
        as_ints(right.take(j)).to_multiset(),
    )
    &&& sorted_by(as_ints(whole), r)
    &&& forall|a: int, b: int|
        0 <= a < whole.len() && i <= b < left.len() ==> r(
            #[trigger] whole[a] as int,
            #[trigger] left[b] as int,
        )
    &&& forall|a: int, b: int|
        0 <= a < whole.len() && j <= b < right.len() ==> r(
            #[trigger] whole[a] as int,
            #[trigger] right[b] as int,
        )
}

proof fn lemma_push_ints(v: Seq<usize>, p: usize)
    ensures
        as_ints(v.push(p)) == as_ints(v).push(p as int),
        as_ints(v.push(p)).to_multiset() == as_ints(v).to_multiset().insert(p as int),
{
    broadcast use vstd::seq_lib::group_to_multiset_ensures;

    assert(as_ints(v.push(p)) =~= as_ints(v).push(p as int));
}

/// Appends to `out` what is left of a run.
fn append_rest(out: &mut Vec<usize>, run: &Vec<usize>, from: usize)
    requires
        from <= run@.len(),
    ensures
        final(out)@ == old(out)@ + run@.skip(from as int),
{
    let mut i: usize = from;
    let ghost before = out@;
    assert(before + run@.subrange(from as int, from as int) =~= before);
    while i < run.len()
        invariant
            from <= i <= run@.len(),
            out@ == before + run@.subrange(from as int, i as int),
        decreases run@.len() - i,
    {
        out.push(run[i]);
        i += 1;
        assert(out@ =~= before + run@.subrange(from as int, i as int));
    }
    assert(run@.subrange(from as int, i as int) =~= run@.skip(from as int));
}

/// Merges two sorted runs of positions, those of `left` all below those of `right`.
fn merge<S: Sortable>(
    things: &S,
    left: &Vec<usize>,
    right: &Vec<usize>,
    Ghost(from): Ghost<int>,
    Ghost(mid): Ghost<int>,
    Ghost(to): Ghost<int>,
) -> (out: Vec<usize>)
    requires
        0 <= from <= mid <= to <= things.keys().len(),
        is_run(things, left@, from, mid),
        is_run(things, right@, mid, to),
    ensures
        is_run(things, out@, from, to),
{
    let mut out: Vec<usize> = Vec::new();
    let mut i: usize = 0;
    let mut j: usize = 0;
    let ghost r = stays_before(things.keys(), key_order::<S>());
    proof {
        broadcast use vstd::seq_lib::group_to_multiset_ensures;

        S::lemma_ranks_all();
        lemma_stays_before_is_total(things.keys(), key_order::<S>());
        assert(as_ints(out@) =~= Seq::<int>::empty());
        assert(as_ints(left@.take(0)) =~= Seq::<int>::empty());
        assert(as_ints(right@.take(0)) =~= Seq::<int>::empty());
        let none = Seq::<int>::empty().to_multiset();
        assert(none.len() == 0);
        assert(none.add(none) =~= none) by {
            broadcast use vstd::multiset::group_multiset_axioms;

        }
    }
    while i < left.len() && j < right.len()
        invariant
            0 <= from <= mid <= to <= things.keys().len(),
            is_run(things, left@, from, mid),
            is_run(things, right@, mid, to),
            r == stays_before(things.keys(), key_order::<S>()),
            total_ordering(r),
            is_merged(things, left@, right@, i as int, j as int, out@),
        decreases left@.len() - i + right@.len() - j,
    {
        let a: usize = left[i];
        let b: usize = right[j];
        let ghost before = out@;
        proof {
            assert forall|k: int| i <= k < left@.len() implies r(
                a as int,
                #[trigger] left@[k] as int,
            ) by {
                if k > i {
                    assert(r(as_ints(left@)[i as int], as_ints(left@)[k]));
                } else {
                    assert(r(a as int, a as int));
                }
            }
            assert forall|k: int| j <= k < right@.len() implies r(
                b as int,
                #[trigger] right@[k] as int,
            ) by {
                if k > j {
                    assert(r(as_ints(right@)[j as int], as_ints(right@)[k]));
                } else {
                    assert(r(b as int, b as int));
                }
            }
        }
        if things.is_at_most(a, b) {
            out.push(a);
            i += 1;
            proof {
                assert(r(a as int, b as int));
                lemma_push_ints(before, a);
                lemma_push_ints(left@.take(i - 1), a);
                assert(left@.take(i as int) =~= left@.take(i - 1).push(a));
                lemma_extend(r, before, a, left@, right@, i as int, j as int, b);
                let x = as_ints(left@.take(i - 1)).to_multiset();
                let y = as_ints(right@.take(j as int)).to_multiset();
                assert(x.insert(a as int).add(y) =~= x.add(y).insert(a as int));
            }
        } else {
            out.push(b);
            j += 1;
            proof {
                let ka = things.keys()[a as int];
                let kb = things.keys()[b as int];
                assert(key_order::<S>()(ka, kb) || key_order::<S>()(kb, ka)) by {
                    S::lemma_ranks_all();
                    assert((|p: S::Key, q: S::Key| S::at_most(p, q))(ka, kb) || (|
                        p: S::Key,
                        q: S::Key,
                    | S::at_most(p, q))(kb, ka));
                }
                assert(r(b as int, a as int));
                lemma_push_ints(before, b);
                lemma_push_ints(right@.take(j - 1), b);
                assert(right@.take(j as int) =~= right@.take(j - 1).push(b));
                lemma_extend(r, before, b, right@, left@, j as int, i as int, a);
                let x = as_ints(left@.take(i as int)).to_multiset();
                let y = as_ints(right@.take(j - 1)).to_multiset();
                assert(x.add(y.insert(b as int)) =~= x.add(y).insert(b as int));
            }
        }
    }
    let ghost merged = out@;
    append_rest(&mut out, left, i);
    append_rest(&mut out, right, j);
    proof {
        lemma_merged_whole(things, left@, right@, i as int, j as int, merged, out@, from, mid, to);
    }
    out
}

/// A sorted list stays sorted when an element that belongs behind all of it is appended, and
/// what belongs behind that element belongs behind the longer list.
proof fn lemma_extend(
    r: spec_fn(int, int) -> bool,
    before: Seq<usize>,
    p: usize,
    same: Seq<usize>,
    other: Seq<usize>,
    i: int,
    j: int,
    q: usize,
)
    requires
        total_ordering(r),
        sorted_by(as_ints(before), r),
        1 <= i <= same.len(),
        0 <= j < other.len(),
        same[i - 1] == p,
        other[j] == q,
        r(p as int, q as int),
        forall|a: int, b: int|
            0 <= a < before.len() && i - 1 <= b < same.len() ==> r(
                #[trigger] before[a] as int,
                #[trigger] same[b] as int,
            ),
        forall|a: int, b: int|
            0 <= a < before.len() && j <= b < other.len() ==> r(
                #[trigger] before[a] as int,
                #[trigger] other[b] as int,
            ),
        forall|k: int| i - 1 <= k < same.len() ==> r(p as int, #[trigger] same[k] as int),
        forall|k: int| j <= k < other.len() ==> r(q as int, #[trigger] other[k] as int),
    ensures
        sorted_by(as_ints(before.push(p)), r),
        forall|a: int, b: int|
            0 <= a < before.push(p).len() && i <= b < same.len() ==> r(
                #[trigger] before.push(p)[a] as int,
                #[trigger] same[b] as int,
            ),
        forall|a: int, b: int|
            0 <= a < before.push(p).len() && j <= b < other.len() ==> r(
                #[trigger] before.push(p)[a] as int,
                #[trigger] other[b] as int,
            ),
{
    let now = before.push(p);
    assert forall|a: int, b: int| 0 <= a < b < as_ints(now).len() implies #[trigger] r(
        as_ints(now)[a],
        as_ints(now)[b],
    ) by {
        if b < before.len() {
            assert(r(as_ints(before)[a], as_ints(before)[b]));
        } else {
            assert(r(before[a] as int, same[i - 1] as int));
        }
    }
    assert forall|a: int, b: int| 0 <= a < now.len() && j <= b < other.len() implies r(
        #[trigger] now[a] as int,
        #[trigger] other[b] as int,
    ) by {
        if a == before.len() {
            assert(r(p as int, q as int) && r(q as int, other[b] as int));
        }
    }
}

/// Once one run is used up, what is left of the other completes the merge.
proof fn lemma_merged_whole<S: Sortable>(
    things: &S,
    left: Seq<usize>,
    right: Seq<usize>,
    i: int,
    j: int,
    merged: Seq<usize>,
    out: Seq<usize>,
    from: int,
    mid: int,
    to: int,
)
    requires
        0 <= from <= mid <= to <= things.keys().len(),
        is_run(things, left, from, mid),
        is_run(things, right, mid, to),
        is_merged(things, left, right, i, j, merged),
        i == left.len() || j == right.len(),
        out == merged + left.skip(i) + right.skip(j),
    ensures
        is_run(things, out, from, to),
{
    broadcast use vstd::seq_lib::group_to_multiset_ensures;
    broadcast use vstd::multiset::group_multiset_axioms;

    let r = stays_before(things.keys(), key_order::<S>());
    let lm = as_ints(left.take(i));
    let ls = as_ints(left.skip(i));
    let rm = as_ints(right.take(j));
    let rs = as_ints(right.skip(j));
    let tail = left.skip(i) + right.skip(j);
    assert(as_ints(out) =~= as_ints(merged) + ls + rs);
    assert(as_ints(left) =~= lm + ls);
    assert(as_ints(right) =~= rm + rs);
    lemma_multiset_commutative(as_ints(merged) + ls, rs);
    lemma_multiset_commutative(as_ints(merged), ls);
    lemma_multiset_commutative(lm, ls);
    lemma_multiset_commutative(rm, rs);
    assert(as_ints(out).to_multiset() =~= as_ints(left).to_multiset().add(
        as_ints(right).to_multiset(),
    ));
    let p = positions(from, mid);
    let q = positions(mid, to);
    assert(positions(from, to) =~= p + q);
    lemma_multiset_commutative(p, q);
    assert forall|a: int, b: int| 0 <= a < b < as_ints(out).len() implies #[trigger] r(
        as_ints(out)[a],
        as_ints(out)[b],
    ) by {
        let n = merged.len();
        if b < n {
            assert(r(as_ints(merged)[a], as_ints(merged)[b]));
        } else if a < n {
            if i == left.len() {
                assert(out[b] == right[j + b - n]);
                assert(r(merged[a] as int, right[j + b - n] as int));
            } else {
                assert(out[b] == left[i + b - n]);
                assert(r(merged[a] as int, left[i + b - n] as int));
            }
        } else {
            if i == left.len() {
                assert(r(as_ints(right)[j + a - n], as_ints(right)[j + b - n]));
            } else {
                assert(r(as_ints(left)[i + a - n], as_ints(left)[i + b - n]));
            }
        }
    }
    assert forall|k: int| 0 <= k < out.len() implies from <= #[trigger] out[k] < to by {
        assert(as_ints(out).contains(as_ints(out)[k]));
        assert(as_ints(out).to_multiset().count(out[k] as int) > 0);
        assert((p + q).to_multiset().count(out[k] as int) > 0);
        assert(positions(from, to).contains(out[k] as int));
    }
}

/// The positions `from..to` of `things`, sorted.
fn sorted_run<S: Sortable>(things: &S, from: usize, to: usize) -> (out: Vec<usize>)
    requires
        from <= to <= things.keys().len(),
    ensures
        is_run(things, out@, from as int, to as int),
    decreases to - from,
{
    if to - from <= 1 {
        let mut out: Vec<usize> = Vec::new();
        if from < to {
            out.push(from);
        }
        assert(as_ints(out@) =~= positions(from as int, to as int));
        out
    } else {
        let mid: usize = from + (to - from) / 2;
        let left: Vec<usize> = sorted_run(things, from, mid);
        let right: Vec<usize> = sorted_run(things, mid, to);
        merge(things, &left, &right, Ghost(from as int), Ghost(mid as int), Ghost(to as int))
    }
}

/// The positions of `things` in the order in which a stable sort by their keys leaves them;
/// `n` is how many things there are.
pub fn sorted_positions<S: Sortable>(things: &S, n: usize) -> (out: Vec<usize>)
    requires
        n == things.keys().len(),
    ensures
        as_ints(out@) == stable_positions(things.keys(), key_order::<S>()),
{
    let out: Vec<usize> = sorted_run(things, 0, n);
    proof {
        let r = stays_before(things.keys(), key_order::<S>());
        S::lemma_ranks_all();
        lemma_stays_before_is_total(things.keys(), key_order::<S>());
        let all = positions(0, n as int);
        all.lemma_sort_by_ensures(r);
        lemma_sorted_unique(as_ints(out@), all.sort_by(r), r);
    }
    out
}

} // verus!
