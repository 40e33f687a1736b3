//! A table from extensions to the positions of the entries that have them.
use vstd::hash_map::StringHashMap;
use vstd::prelude::*;

use crate::text::copy_of;

verus! {

/// The positions that a table lists for an extension.
pub open spec fn listed(map: Map<Seq<char>, Seq<usize>>, ext: Seq<char>) -> Seq<usize> {
    if map.contains_key(ext) {
        map[ext]
    } else {
        Seq::empty()
    }
}

/// Positions moved up by `base`.
pub open spec fn moved_up(list: Seq<usize>, base: usize) -> Seq<usize> {
    list.map_values(|i: usize| (base + i) as usize)
}

/// A table in which the positions `list`, moved up by `base`, are listed for `ext` behind those
/// that were.
pub open spec fn with_listed(
    map: Map<Seq<char>, Seq<usize>>,
    ext: Seq<char>,
    list: Seq<usize>,
    base: usize,
) -> Map<Seq<char>, Seq<usize>> {
    map.insert(ext, listed(map, ext) + moved_up(list, base))
}

/// A table from extensions to lists of positions. Lookups take constant time, and the
/// extensions can be walked in the order in which they came in.
pub struct ExtMap {
    names: Vec<String>,
    lists: Vec<Vec<usize>>,
    table: StringHashMap<usize>,
}

impl View for ExtMap {
    type V = Map<Seq<char>, Seq<usize>>;

    closed spec fn view(&self) -> Map<Seq<char>, Seq<usize>> {
        self.table@.map_values(|slot: usize| self.lists@[slot as int]@)
    }
}

impl ExtMap {
    /// Each extension has one slot, and the table leads to it.
    pub closed spec fn wf(&self) -> bool {
        &&& self.names@.len() == self.lists@.len()
        &&& forall|k: Seq<char>|
            self.table@.contains_key(k) ==> #[trigger] self.table@[k] < self.names@.len()
                && self.names@[self.table@[k] as int]@ == k
        &&& forall|i: int|
            0 <= i < self.names@.len() ==> self.table@.contains_key(#[trigger] self.names@[i]@)
                && self.table@[self.names@[i]@] == i
    }

    /// The extensions, in the order in which they came in.
    pub closed spec fn names(&self) -> Seq<Seq<char>> {
        self.names@.map_values(|s: String| s@)
    }

    /// Each extension of the table is named once.
    pub proof fn lemma_names(&self)
        requires
            self.wf(),
        ensures
            self.names().no_duplicates(),
            forall|k: Seq<char>| self@.contains_key(k) <==> #[trigger] self.names().contains(k),
    {
        assert forall|i: int, j: int|
            0 <= i < self.names().len() && 0 <= j < self.names().len() && i != j implies
            self.names()[i] != self.names()[j] by {
            assert(self.names()[i] == self.names@[i]@);
            assert(self.names()[j] == self.names@[j]@);
        }
        assert forall|k: Seq<char>| self@.contains_key(k) <==> #[trigger] self.names().contains(
            k,
        ) by {
            if self@.contains_key(k) {
                let slot = self.table@[k] as int;
                assert(self.names()[slot] == k);
            }
            if self.names().contains(k) {
                let i = choose|i: int| 0 <= i < self.names().len() && self.names()[i] == k;
                assert(self.names@[i]@ == k);
            }
        }
    }

    /// A table that lists nothing.
    pub fn new() -> (r: ExtMap)
        ensures
            r.wf(),
            r@ == Map::<Seq<char>, Seq<usize>>::empty(),
            r.names() == Seq::<Seq<char>>::empty(),
    {
        let r = ExtMap { names: Vec::new(), lists: Vec::new(), table: StringHashMap::new() };
        assert(r@ =~= Map::<Seq<char>, Seq<usize>>::empty());
        r
    }

    /// How many extensions the table lists.
    pub fn len(&self) -> (r: usize)
        requires
            self.wf(),
        ensures
            r == self.names().len(),
    {
        self.names.len()
    }

    /// The extension that came in as number `i`, and the positions listed for it.
    pub fn at(&self, i: usize) -> (r: (&String, &Vec<usize>))
        requires
            self.wf(),
            i < self.names().len(),
        ensures
            r.0@ == self.names()[i as int],
            self@.contains_key(r.0@),
            r.1@ == self@[r.0@],
    {
        assert(self.table@[self.names@[i as int]@] == i);
        (&self.names[i], &self.lists[i])
    }

    /// Whether anything is listed under `ext`.
    pub fn contains_key(&self, ext: &str) -> (r: bool)
        ensures
            r == self@.contains_key(ext@),
    {
        self.table.contains_key(ext)
    }

    /// The positions listed for `ext`.
    pub fn get(&self, ext: &str) -> (r: Option<&Vec<usize>>)
        requires
            self.wf(),
        ensures
            match r {
                Some(list) => self@.contains_key(ext@) && list@ == self@[ext@],
                None => !self@.contains_key(ext@),
            },
    {
        match self.table.get(ext) {
            Some(slot) => Some(&self.lists[*slot]),
            None => None,
        }
    }

    /// The slot of `ext`, made where there was none.
    fn slot_of(&mut self, ext: &str) -> (slot: usize)
        requires
            old(self).wf(),
        ensures
            final(self).wf(),
            final(self)@ == with_listed(old(self)@, ext@, Seq::empty(), 0),
            final(self).table@.contains_key(ext@),
            final(self).table@[ext@] == slot,
            final(self).names() == (if old(self)@.contains_key(ext@) {
                old(self).names()
            } else {
                old(self).names().push(ext@)
            }),
    {
        let found: Option<usize> = match self.table.get(ext) {
            Some(slot) => Some(*slot),
            None => None,
        };
        let ghost before = self@;
        assert(moved_up(Seq::empty(), 0) =~= Seq::<usize>::empty());
        match found {
            Some(slot) => {
                assert(before[ext@] + Seq::<usize>::empty() =~= before[ext@]);
                assert(self@ =~= with_listed(before, ext@, Seq::empty(), 0));
                slot
            },
            None => {
                let slot: usize = self.names.len();
                let ghost was = *self;
                self.names.push(copy_of(ext));
                self.lists.push(Vec::new());
                self.table.insert(copy_of(ext), slot);
                proof {
                    assert forall|k: Seq<char>| self.table@.contains_key(k) implies
                        #[trigger] self.table@[k] < self.names@.len()
                        && self.names@[self.table@[k] as int]@ == k by {
                        if k != ext@ {
                            assert(was.table@[k] < was.names@.len());
                        }
                    }
                    assert forall|i: int| 0 <= i < self.names@.len() implies
                        self.table@.contains_key(#[trigger] self.names@[i]@)
                        && self.table@[self.names@[i]@] == i by {
                        if i < was.names@.len() {
                            assert(was.names@[i] == self.names@[i]);
                        }
                    }
                    assert(self@ =~= with_listed(before, ext@, Seq::empty(), 0)) by {
                        assert forall|k: Seq<char>| was.table@.contains_key(k) implies
                            self@[k] == before[k] by {
                            assert(was.table@[k] < was.names@.len());
                        }
                        assert(self.lists@[slot as int]@ =~= Seq::<usize>::empty());
                        assert(Seq::<usize>::empty() + Seq::<usize>::empty() =~= Seq::<
                            usize,
                        >::empty());
                    }
                    assert(self.names() =~= was.names().push(ext@));
                }
                slot
            },
        }
    }

    /// Lists the positions of `list`, moved up by `base`, for `ext`.
    pub fn list_for(&mut self, ext: &str, list: &Vec<usize>, base: usize)
        requires
            old(self).wf(),
            forall|i: int| 0 <= i < list@.len() ==> base + #[trigger] list@[i] <= usize::MAX,
        ensures
            final(self).wf(),
            final(self)@ == with_listed(old(self)@, ext@, list@, base),
            final(self).names() == (if old(self)@.contains_key(ext@) {
                old(self).names()
            } else {
                old(self).names().push(ext@)
            }),
    {
        let ghost first = self@;
        let slot: usize = self.slot_of(ext);
        let ghost start = *self;
        let ghost had = self.lists@[slot as int]@;
        assert(had =~= listed(first, ext@)) by {
            assert(had == self@[ext@]);
        }
        assert(had + moved_up(list@.take(0), base) =~= had);
        assert(self@ =~= first.insert(ext@, had));
        let mut i: usize = 0;
        while i < list.len()
            invariant
                i <= list@.len(),
                forall|j: int| 0 <= j < list@.len() ==> base + #[trigger] list@[j] <= usize::MAX,
                start.wf(),
                start@ == first.insert(ext@, had),
                start.table@.contains_key(ext@),
                start.table@[ext@] == slot,
                self.names == start.names,
                self.table == start.table,
                self.lists@.len() == start.lists@.len(),
                forall|k: int|
                    0 <= k < start.lists@.len() && k != slot ==> #[trigger] self.lists@[k]
                        == start.lists@[k],
                self.lists@[slot as int]@ == had + moved_up(list@.take(i as int), base),
            decreases list@.len() - i,
        {
            let position: usize = base + list[i];
            assert(slot < self.lists@.len());
            let mine: &mut Vec<usize> = &mut self.lists[slot];
            mine.push(position);
            i += 1;
            assert(list@.take(i as int) =~= list@.take(i - 1).push(list@[i - 1]));
            assert(self.lists@[slot as int]@ =~= had + moved_up(list@.take(i as int), base));
        }
        assert(list@.take(i as int) =~= list@);
        proof {
            let goal = with_listed(first, ext@, list@, base);
            assert(start@.dom() =~= goal.dom());
            assert(self@.dom() =~= start@.dom());
            assert forall|k: Seq<char>| goal.contains_key(k) implies #[trigger] self@[k]
                == goal[k] by {
                assert(start@.contains_key(k));
                assert(start.table@.contains_key(k));
                if k != ext@ {
                    let other = start.table@[k];
                    assert(start.names@[other as int]@ == k);
                    assert(other != slot);
                    assert(self.lists@[other as int] == start.lists@[other as int]);
                    assert(self@[k] == start@[k]);
                }
            }
            assert(self@ =~= goal);
        }
    }

    /// Lists `list`, and nothing else, for `ext`.
    pub fn set_list(&mut self, ext: &str, list: Vec<usize>)
        requires
            old(self).wf(),
        ensures
            final(self).wf(),
            final(self)@ == old(self)@.insert(ext@, list@),
            final(self).names() == (if old(self)@.contains_key(ext@) {
                old(self).names()
            } else {
                old(self).names().push(ext@)
            }),
    {
        let ghost first = self@;
        let slot: usize = self.slot_of(ext);
        let ghost start = *self;
        assert(slot < self.lists@.len());
        self.lists.set(slot, list);
        proof {
            let goal = first.insert(ext@, list@);
            assert(start@.dom() =~= goal.dom());
            assert(self@.dom() =~= start@.dom());
            assert forall|k: Seq<char>| goal.contains_key(k) implies #[trigger] self@[k]
                == goal[k] by {
                assert(start@.contains_key(k));
                assert(start.table@.contains_key(k));
                if k != ext@ {
                    let other = start.table@[k];
                    assert(start.names@[other as int]@ == k);
                    assert(other != slot);
                    assert(self@[k] == start@[k]);
                }
            }
            assert(self@ =~= goal);
        }
    }
}

} // verus!
