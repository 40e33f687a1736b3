//! The index: what is known of the files, and how indexes are made and merged.
use vstd::prelude::*;

use crate::ext_map::{listed, moved_up, with_listed, ExtMap};
use crate::text::{copies, copy_of, holds_text, lowercase, starts_with, to_lowercase, views};

verus! {

/// A file or directory as it was found on disk.
pub struct FoundFile {
    pub path: String,
    pub name: String,
    /// What stands behind the last dot of the name, and nothing where it has none.
    pub extension: String,
    pub size: u64,
    pub is_dir: bool,
}

/// One indexed file or directory.
pub struct FileEntry {
    pub path: String,
    /// The path in lowercase, made once for matching without regard to case.
    pub path_lower: String,
    pub name: String,
    /// The name in lowercase, made once for matching without regard to case.
    pub name_lower: String,
    pub size: u64,
    pub is_dir: bool,
    /// In lowercase, without the dot.
    pub extension: String,
}

/// What an entry says.
pub struct EntryModel {
    pub path: Seq<char>,
    pub path_lower: Seq<char>,
    pub name: Seq<char>,
    pub name_lower: Seq<char>,
    pub size: u64,
    pub is_dir: bool,
    pub extension: Seq<char>,
}

impl View for FileEntry {
    type V = EntryModel;

    open spec fn view(&self) -> EntryModel {
        EntryModel {
            path: self.path@,
            path_lower: self.path_lower@,
            name: self.name@,
            name_lower: self.name_lower@,
            size: self.size,
            is_dir: self.is_dir,
            extension: self.extension@,
        }
    }
}

/// What a list of entries says.
pub open spec fn entry_views(entries: Seq<FileEntry>) -> Seq<EntryModel> {
    entries.map_values(|e: FileEntry| e@)
}

/// Whether a name is that of a hidden or system file.
pub open spec fn hidden_name(name: Seq<char>) -> bool {
    name.len() > 0 && (name[0] == '.' || name[0] == '$')
}

/// The entry for a file that was found.
pub open spec fn entry_for(found: FoundFile) -> EntryModel {
    EntryModel {
        path: found.path@,
        path_lower: lowercase(found.path@),
        name: found.name@,
        name_lower: lowercase(found.name@),
        size: found.size,
        is_dir: found.is_dir,
        extension: lowercase(found.extension@),
    }
}

/// The entries for the files that were found, without the hidden ones.
pub open spec fn entries_for(found: Seq<FoundFile>) -> Seq<EntryModel>
    decreases found.len(),
{
    if found.len() == 0 {
        Seq::empty()
    } else if hidden_name(found.last().name@) {
        entries_for(found.drop_last())
    } else {
        entries_for(found.drop_last()).push(entry_for(found.last()))
    }
}

/// The positions of the entries with an extension, in order.
pub open spec fn positions_of(entries: Seq<EntryModel>, ext: Seq<char>) -> Seq<usize>
    decreases entries.len(),
{
    if entries.len() == 0 {
        Seq::empty()
    } else if entries.last().extension == ext {
        positions_of(entries.drop_last(), ext).push((entries.len() - 1) as usize)
    } else {
        positions_of(entries.drop_last(), ext)
    }
}

/// The table that a list of entries calls for: each extension that some entry has, and the
/// positions of all the entries that have it.
pub open spec fn table_for(entries: Seq<EntryModel>) -> Map<Seq<char>, Seq<usize>> {
    Map::new(
        |ext: Seq<char>| ext.len() > 0 && positions_of(entries, ext).len() > 0,
        |ext: Seq<char>| positions_of(entries, ext),
    )
}

/// An in-memory search index with a table of extensions.
pub struct FileIndex {
    pub entries: Vec<FileEntry>,
    /// The positions of the entries with each extension.
    pub ext_map: ExtMap,
    /// When the index was made, in seconds since 1970.
    pub indexed_at: u64,
    /// The paths that were indexed.
    pub roots: Vec<String>,
}

/// Two tables merged, the positions of the second moved up by `base`.
pub open spec fn merged_tables(
    a: Map<Seq<char>, Seq<usize>>,
    b: Map<Seq<char>, Seq<usize>>,
    base: usize,
) -> Map<Seq<char>, Seq<usize>> {
    Map::new(
        |ext: Seq<char>| a.contains_key(ext) || b.contains_key(ext),
        |ext: Seq<char>| listed(a, ext) + moved_up(listed(b, ext), base),
    )
}

/// Roots with those of `more` that are not among them yet.
pub open spec fn merged_roots(roots: Seq<Seq<char>>, more: Seq<Seq<char>>) -> Seq<Seq<char>>
    decreases more.len(),
{
    if more.len() == 0 {
        roots
    } else {
        let before = merged_roots(roots, more.drop_last());
        if before.contains(more.last()) {
            before
        } else {
            before.push(more.last())
        }
    }
}

/// Every position that a table lists is below `n`.
pub open spec fn lists_below(map: Map<Seq<char>, Seq<usize>>, n: nat) -> bool {
    forall|ext: Seq<char>, i: int|
        map.contains_key(ext) && 0 <= i < map[ext].len() ==> #[trigger] map[ext][i] < n
}

/// Every position that a table lists can be moved up by `base`.
pub open spec fn lists_fit(map: Map<Seq<char>, Seq<usize>>, base: nat) -> bool {
    forall|ext: Seq<char>, i: int|
        map.contains_key(ext) && 0 <= i < map[ext].len() ==> base + #[trigger] map[ext][i]
            <= usize::MAX
}

/// Positions in rising order.
pub open spec fn rising(list: Seq<usize>) -> bool {
    forall|i: int, j: int| 0 <= i < j < list.len() ==> list[i] < list[j]
}

/// A table lists an entry under an extension exactly where it has that extension and that is not
/// empty, and lists the entries in order.
pub open spec fn lists_own(entries: Seq<EntryModel>, map: Map<Seq<char>, Seq<usize>>) -> bool {
    &&& forall|ext: Seq<char>, i: usize| #[trigger]
        listed(map, ext).contains(i) <==> i < entries.len() && ext.len() > 0
            && entries[i as int].extension == ext
    &&& forall|ext: Seq<char>| rising(#[trigger] listed(map, ext))
}

/// The positions of the entries with an extension are positions of entries that have it.
proof fn lemma_positions_of(entries: Seq<EntryModel>, ext: Seq<char>)
    requires
        entries.len() <= usize::MAX,
    ensures
        forall|i: int|
            0 <= i < positions_of(entries, ext).len() ==> {
                let p = #[trigger] positions_of(entries, ext)[i];
                p < entries.len() && entries[p as int].extension == ext
            },
    decreases entries.len(),
{
    if entries.len() > 0 {
        let front = entries.drop_last();
        lemma_positions_of(front, ext);
        assert forall|i: int| 0 <= i < positions_of(entries, ext).len() implies {
            let p = #[trigger] positions_of(entries, ext)[i];
            p < entries.len() && entries[p as int].extension == ext
        } by {
            if i < positions_of(front, ext).len() {
                let p = positions_of(front, ext)[i];
                assert(front[p as int] == entries[p as int]);
            }
        }
    }
}

/// An entry is among those with its extension.
proof fn lemma_position_listed(entries: Seq<EntryModel>, at: int)
    requires
        entries.len() <= usize::MAX,
        0 <= at < entries.len(),
    ensures
        positions_of(entries, entries[at].extension).contains(at as usize),
    decreases entries.len(),
{
    let ext = entries[at].extension;
    let all = positions_of(entries, ext);
    if at == entries.len() - 1 {
        assert(all.last() == at as usize);
    } else {
        let front = entries.drop_last();
        lemma_position_listed(front, at);
        let i = choose|i: int|
            0 <= i < positions_of(front, ext).len() && positions_of(front, ext)[i] == at as usize;
        assert(all[i] == at as usize);
    }
}

/// The table that entries call for lists each entry that has an extension under it.
pub proof fn law_every_extension_is_listed(entries: Seq<EntryModel>, at: int)
    requires
        entries.len() <= usize::MAX,
        0 <= at < entries.len(),
        entries[at].extension.len() > 0,
    ensures
        table_for(entries).contains_key(entries[at].extension),
        table_for(entries)[entries[at].extension].contains(at as usize),
{
    lemma_position_listed(entries, at);
}

/// The table that entries call for lists under an extension only entries that have it.
pub proof fn law_only_own_extension_is_listed(entries: Seq<EntryModel>, ext: Seq<char>, i: int)
    requires
        entries.len() <= usize::MAX,
        table_for(entries).contains_key(ext),
        0 <= i < table_for(entries)[ext].len(),
    ensures
        table_for(entries)[ext][i] < entries.len(),
        entries[table_for(entries)[ext][i] as int].extension == ext,
{
    lemma_positions_of(entries, ext);
}

/// The positions in two lists of entries, one behind the other.
proof fn lemma_positions_of_both(a: Seq<EntryModel>, b: Seq<EntryModel>, ext: Seq<char>)
    requires
        a.len() + b.len() <= usize::MAX,
    ensures
        positions_of(a + b, ext) == positions_of(a, ext) + moved_up(
            positions_of(b, ext),
            a.len() as usize,
        ),
    decreases b.len(),
{
    let base = a.len() as usize;
    if b.len() == 0 {
        assert(a + b =~= a);
        assert(positions_of(a, ext) + moved_up(positions_of(b, ext), base) =~= positions_of(
            a,
            ext,
        ));
    } else {
        let front = b.drop_last();
        assert((a + b).drop_last() =~= a + front);
        assert((a + b).last() == b.last());
        lemma_positions_of_both(a, front, ext);
        let before = positions_of(front, ext);
        let last = (b.len() - 1) as usize;
        assert(moved_up(before.push(last), base) =~= moved_up(before, base).push(
            (base + last) as usize,
        ));
        if b.last().extension == ext {
            assert(positions_of(a + b, ext) =~= positions_of(a, ext) + moved_up(
                positions_of(b, ext),
                base,
            ));
        }
    }
}

/// The table of one more entry.
proof fn lemma_table_push(entries: Seq<EntryModel>, e: EntryModel)
    requires
        entries.len() < usize::MAX,
    ensures
        e.extension.len() == 0 ==> table_for(entries.push(e)) == table_for(entries),
        e.extension.len() > 0 ==> table_for(entries.push(e)) == with_listed(
            table_for(entries),
            e.extension,
            seq![entries.len() as usize],
            0,
        ),
{
    let more = entries.push(e);
    assert(more.drop_last() =~= entries);
    let ext = e.extension;
    let one = seq![entries.len() as usize];
    assert(moved_up(one, 0) =~= one);
    if ext.len() == 0 {
        assert(table_for(more) =~= table_for(entries));
    } else {
        assert(listed(table_for(entries), ext) + one =~= positions_of(entries, ext).push(
            entries.len() as usize,
        )) by {
            if positions_of(entries, ext).len() == 0 {
                assert(positions_of(entries, ext) =~= Seq::<usize>::empty());
            }
        }
        assert(table_for(more) =~= with_listed(table_for(entries), ext, one, 0));
    }
}

/// Merging keeps the table in step with the entries: where each of two tables lists exactly what
/// its entries call for, so does the merged one.
pub proof fn law_merge_keeps_table(a: Seq<EntryModel>, b: Seq<EntryModel>)
    requires
        a.len() + b.len() <= usize::MAX,
    ensures
        merged_tables(table_for(a), table_for(b), a.len() as usize) == table_for(a + b),
{
    let base = a.len() as usize;
    let m = merged_tables(table_for(a), table_for(b), base);
    let t = table_for(a + b);
    assert forall|ext: Seq<char>| ext.len() > 0 implies listed(table_for(a), ext) + moved_up(
        listed(table_for(b), ext),
        base,
    ) == positions_of(a + b, ext) by {
        lemma_positions_of_both(a, b, ext);
        if positions_of(a, ext).len() == 0 {
            assert(positions_of(a, ext) =~= Seq::<usize>::empty());
        }
        if positions_of(b, ext).len() == 0 {
            assert(positions_of(b, ext) =~= Seq::<usize>::empty());
        }
    }
    assert forall|ext: Seq<char>| m.contains_key(ext) <==> t.contains_key(ext) by {
        if ext.len() > 0 {
            lemma_positions_of_both(a, b, ext);
        }
    }
    assert(m =~= t);
}

/// The table that entries call for lists each of them under its own extension, in order.
pub proof fn law_table_lists_own(entries: Seq<EntryModel>)
    requires
        entries.len() <= usize::MAX,
    ensures
        lists_own(entries, table_for(entries)),
{
    let map = table_for(entries);
    assert forall|ext: Seq<char>| ext.len() > 0 implies listed(map, ext) == #[trigger] positions_of(
        entries,
        ext,
    ) by {
        if positions_of(entries, ext).len() == 0 {
            assert(positions_of(entries, ext) =~= Seq::<usize>::empty());
        }
    }
    assert forall|ext: Seq<char>, i: usize| #[trigger]
        listed(map, ext).contains(i) <==> i < entries.len() && ext.len() > 0
            && entries[i as int].extension == ext by {
        lemma_positions_of(entries, ext);
        if listed(map, ext).contains(i) {
            let k = choose|k: int| 0 <= k < listed(map, ext).len() && listed(map, ext)[k] == i;
            assert(positions_of(entries, ext)[k] == i);
        }
        if i < entries.len() && ext.len() > 0 && entries[i as int].extension == ext {
            lemma_position_listed(entries, i as int);
        }
    }
    assert forall|ext: Seq<char>| rising(#[trigger] listed(map, ext)) by {
        lemma_positions_rise(entries, ext);
    }
}

proof fn lemma_positions_rise(entries: Seq<EntryModel>, ext: Seq<char>)
    requires
        entries.len() <= usize::MAX,
    ensures
        rising(positions_of(entries, ext)),
    decreases entries.len(),
{
    if entries.len() > 0 {
        let front = entries.drop_last();
        lemma_positions_rise(front, ext);
        lemma_positions_of(front, ext);
        let all = positions_of(entries, ext);
        let before = positions_of(front, ext);
        assert forall|i: int, j: int| 0 <= i < j < all.len() implies all[i] < all[j] by {
            assert(all[i] == before[i]);
        }
    }
}

/// Merging keeps what a table lists right: where each of two tables lists exactly the entries with
/// each extension, in order, so does the merged one. The positions of the first index stay, and
/// those of the second are moved up by the number of entries of the first.
pub proof fn law_merge_keeps_own_lists(
    a: Seq<EntryModel>,
    first: Map<Seq<char>, Seq<usize>>,
    b: Seq<EntryModel>,
    second: Map<Seq<char>, Seq<usize>>,
)
    requires
        a.len() + b.len() <= usize::MAX,
        lists_own(a, first),
        lists_own(b, second),
    ensures
        lists_own(a + b, merged_tables(first, second, a.len() as usize)),
{
    let base = a.len() as usize;
    let all = a + b;
    let m = merged_tables(first, second, base);
    assert forall|ext: Seq<char>| listed(m, ext) == #[trigger] listed(first, ext) + moved_up(
        listed(second, ext),
        base,
    ) by {
        if !m.contains_key(ext) {
            assert(listed(first, ext) + moved_up(listed(second, ext), base) =~= Seq::<
                usize,
            >::empty());
        }
    }
    assert forall|ext: Seq<char>, i: usize| #[trigger]
        listed(m, ext).contains(i) <==> i < all.len() && ext.len() > 0
            && all[i as int].extension == ext by {
        let x = listed(first, ext);
        let y = listed(second, ext);
        let z = listed(m, ext);
        assert(z == x + moved_up(y, base));
        if z.contains(i) {
            let k = choose|k: int| 0 <= k < z.len() && z[k] == i;
            if k < x.len() {
                assert(x.contains(x[k]));
                assert(all[i as int] == a[i as int]);
            } else {
                let p = y[k - x.len()];
                assert(y.contains(p));
                assert(p < b.len());
                assert(all[i as int] == b[p as int]);
            }
        }
        if i < all.len() && ext.len() > 0 && all[i as int].extension == ext {
            if i < base {
                assert(all[i as int] == a[i as int]);
                assert(x.contains(i));
                let k = choose|k: int| 0 <= k < x.len() && x[k] == i;
                assert(z[k] == i);
            } else {
                let p = (i - base) as usize;
                assert(all[i as int] == b[p as int]);
                assert(y.contains(p));
                let k = choose|k: int| 0 <= k < y.len() && y[k] == p;
                assert(z[x.len() + k] == i);
            }
        }
    }
    assert forall|ext: Seq<char>| rising(#[trigger] listed(m, ext)) by {
        let x = listed(first, ext);
        let y = listed(second, ext);
        let z = listed(m, ext);
        assert(z == x + moved_up(y, base));
        assert(rising(x) && rising(y));
        assert forall|i: int, j: int| 0 <= i < j < z.len() implies z[i] < z[j] by {
            if i < x.len() {
                assert(x.contains(x[i]));
            }
            if j >= x.len() {
                assert(y.contains(y[j - x.len()]));
            }
            if i >= x.len() {
                assert(y.contains(y[i - x.len()]));
            }
        }
    }
}

/// The entries of files that were found in two places are those of the one and then those of the
/// other.
pub proof fn law_entries_add_up(a: Seq<FoundFile>, b: Seq<FoundFile>)
    ensures
        entries_for(a + b) == entries_for(a) + entries_for(b),
    decreases b.len(),
{
    if b.len() == 0 {
        assert(a + b =~= a);
        assert(entries_for(a) + entries_for(b) =~= entries_for(a));
    } else {
        assert((a + b).drop_last() =~= a + b.drop_last());
        law_entries_add_up(a, b.drop_last());
        assert(entries_for(a + b) =~= entries_for(a) + entries_for(b));
    }
}

/// Merging the indexes of what was found under two lists of roots gives the entries and the table
/// of the index of what was found under both.
pub proof fn law_merged_builds(a: Seq<FoundFile>, b: Seq<FoundFile>)
    requires
        entries_for(a).len() + entries_for(b).len() <= usize::MAX,
    ensures
        entries_for(a) + entries_for(b) == entries_for(a + b),
        merged_tables(
            table_for(entries_for(a)),
            table_for(entries_for(b)),
            entries_for(a).len() as usize,
        ) == table_for(entries_for(a + b)),
{
    law_entries_add_up(a, b);
    law_merge_keeps_table(entries_for(a), entries_for(b));
}

/// Merging keeps every root of both indexes, adds no other, and doubles none.
pub proof fn law_merged_roots(roots: Seq<Seq<char>>, more: Seq<Seq<char>>)
    ensures
        roots.no_duplicates() ==> merged_roots(roots, more).no_duplicates(),
        forall|r: Seq<char>| #[trigger]
            merged_roots(roots, more).contains(r) <==> roots.contains(r) || more.contains(r),
    decreases more.len(),
{
    if more.len() == 0 {
        assert(forall|r: Seq<char>| !more.contains(r));
    } else {
        let front = more.drop_last();
        let last = more.last();
        law_merged_roots(roots, front);
        let before = merged_roots(roots, front);
        let now = merged_roots(roots, more);
        assert forall|r: Seq<char>| more.contains(r) <==> front.contains(r) || r == last by {
            if front.contains(r) {
                let k = choose|k: int| 0 <= k < front.len() && front[k] == r;
                assert(more[k] == r);
            }
            if r == last {
                assert(more[more.len() - 1] == r);
            }
            if more.contains(r) && r != last {
                let k = choose|k: int| 0 <= k < more.len() && more[k] == r;
                assert(front[k] == r);
            }
        }
        assert forall|r: Seq<char>| #[trigger]
            now.contains(r) <==> before.contains(r) || r == last by {
            if !before.contains(last) {
                if before.contains(r) {
                    let k = choose|k: int| 0 <= k < before.len() && before[k] == r;
                    assert(now[k] == r);
                }
                if r == last {
                    assert(now[before.len() as int] == r);
                }
            }
        }
    }
}

/// The table that entries call for lists positions of entries only.
pub proof fn law_table_in_range(entries: Seq<EntryModel>)
    requires
        entries.len() <= usize::MAX,
    ensures
        lists_below(table_for(entries), entries.len()),
{
    assert forall|ext: Seq<char>, i: int|
        table_for(entries).contains_key(ext) && 0 <= i < table_for(entries)[ext].len() implies
        #[trigger] table_for(entries)[ext][i] < entries.len() by {
        lemma_positions_of(entries, ext);
        assert(positions_of(entries, ext)[i] < entries.len());
    }
}

impl FileIndex {
    /// What the entries of the index say.
    pub open spec fn files(&self) -> Seq<EntryModel> {
        entry_views(self.entries@)
    }

    /// The table of extensions lists positions of entries only.
    pub open spec fn wf(&self) -> bool {
        &&& self.ext_map.wf()
        &&& lists_below(self.ext_map@, self.entries@.len())
    }

    /// The table of extensions is the one that the entries call for.
    pub open spec fn in_step(&self) -> bool {
        &&& self.wf()
        &&& self.ext_map@ == table_for(self.files())
    }

    /// The table of extensions lists exactly the entries that have an extension, each under its
    /// own and in order.
    pub open spec fn lists_own(&self) -> bool {
        &&& self.wf()
        &&& lists_own(self.files(), self.ext_map@)
    }

    /// Makes an index of the files that were found under `roots`: skips hidden and system files,
    /// makes the lowercase forms, and lists the entries by extension.
    pub fn build(found: Vec<FoundFile>, roots: &Vec<String>, indexed_at: u64) -> (r: FileIndex)
        ensures
            r.files() == entries_for(found@),
            r.in_step(),
            r.lists_own(),
            r.indexed_at == indexed_at,
            views(r.roots@) == views(roots@),
    {
        let mut entries: Vec<FileEntry> = Vec::new();
        let mut ext_map: ExtMap = ExtMap::new();
        let mut i: usize = 0;
        proof {
            assert(entry_views(entries@) =~= Seq::<EntryModel>::empty());
            assert(table_for(entry_views(entries@)) =~= Map::<Seq<char>, Seq<usize>>::empty());
        }
        let n: usize = found.len();
        while i < n
            invariant
                i <= n == found@.len(),
                entries@.len() <= i,
                entry_views(entries@) == entries_for(found@.take(i as int)),
                ext_map.wf(),
                ext_map@ == table_for(entry_views(entries@)),
            decreases found@.len() - i,
        {
            let file: &FoundFile = &found[i];
            let ghost before = entry_views(entries@);
            proof {
                assert(found@.take(i + 1).drop_last() =~= found@.take(i as int));
                assert(found@.take(i + 1).last() == found@[i as int]);
                reveal_strlit(".");
                reveal_strlit("$");
                assert("."@.is_prefix_of(file.name@) <==> file.name@.len() > 0 && file.name@[0]
                    == '.') by {
                    if file.name@.len() > 0 {
                        assert(file.name@.take(1) =~= seq![file.name@[0]]);
                        assert("."@ =~= seq!['.']);
                        assert("."@[0] == '.');
                    }
                }
                assert("$"@.is_prefix_of(file.name@) <==> file.name@.len() > 0 && file.name@[0]
                    == '$') by {
                    if file.name@.len() > 0 {
                        assert(file.name@.take(1) =~= seq![file.name@[0]]);
                        assert("$"@ =~= seq!['$']);
                        assert("$"@[0] == '$');
                    }
                }
            }
            if !starts_with(file.name.as_str(), ".") && !starts_with(file.name.as_str(), "$") {
                let entry = FileEntry {
                    path_lower: to_lowercase(file.path.as_str()),
                    path: copy_of(file.path.as_str()),
                    name_lower: to_lowercase(file.name.as_str()),
                    name: copy_of(file.name.as_str()),
                    size: file.size,
                    is_dir: file.is_dir,
                    extension: to_lowercase(file.extension.as_str()),
                };
                assert(entry@ == entry_for(*file));
                let position: usize = entries.len();
                proof {
                    lemma_table_push(before, entry@);
                }
                if !entry.extension.as_str().is_empty() {
                    let mut one: Vec<usize> = Vec::new();
                    one.push(position);
                    assert(one@ =~= seq![position]);
                    ext_map.list_for(entry.extension.as_str(), &one, 0);
                }
                entries.push(entry);
                assert(entry_views(entries@) =~= before.push(entry@));
            }
            i += 1;
        }
        assert(found@.take(i as int) =~= found@);
        proof {
            law_table_in_range(entry_views(entries@));
            law_table_lists_own(entry_views(entries@));
        }
        FileIndex { entries, ext_map, indexed_at, roots: copies(roots) }
    }

    /// Merges another index into this one: appends its entries, lists them by extension, and adds
    /// its roots where they are new.
    pub fn merge(&mut self, other: FileIndex, indexed_at: u64)
        requires
            old(self).ext_map.wf(),
            other.ext_map.wf(),
            other.wf() || lists_fit(other.ext_map@, old(self).entries@.len()),
        ensures
            final(self).files() == old(self).files() + other.files(),
            final(self).ext_map@ == merged_tables(
                old(self).ext_map@,
                other.ext_map@,
                old(self).entries@.len() as usize,
            ),
            final(self).ext_map.wf(),
            old(self).wf() && other.wf() ==> final(self).wf(),
            old(self).in_step() && other.in_step() ==> final(self).in_step(),
            old(self).lists_own() && other.lists_own() ==> final(self).lists_own(),
            views(final(self).roots@) == merged_roots(views(old(self).roots@), views(other.roots@)),
            final(self).indexed_at == indexed_at,
    {
        let ghost first = self.ext_map@;
        let ghost mine = self.files();
        let ghost theirs = other.files();
        let base: usize = self.entries.len();
        let mut more: Vec<FileEntry> = other.entries;
        self.entries.append(&mut more);
        let total: usize = self.entries.len();
        assert(total == base + other.entries@.len());
        assert(self.files() =~= mine + theirs);
        let slots: usize = other.ext_map.len();
        let mut i: usize = 0;
        let ghost names = other.ext_map.names();
        proof {
            other.ext_map.lemma_names();
            if other.wf() {
                assert forall|ext: Seq<char>, k: int|
                    other.ext_map@.contains_key(ext) && 0 <= k < other.ext_map@[ext].len() implies
                    base + #[trigger] other.ext_map@[ext][k] <= usize::MAX by {
                    assert(other.ext_map@[ext][k] < other.entries@.len());
                }
            }
            assert(lists_fit(other.ext_map@, base as nat));
        }
        assert(self.ext_map@ =~= merged_tables(
            first,
            other.ext_map@.restrict(names.take(0).to_set()),
            base,
        )) by {
            assert forall|ext: Seq<char>| first.contains_key(ext) implies first[ext] == listed(
                first,
                ext,
            ) + moved_up(Seq::empty(), base) by {
                assert(moved_up(Seq::empty(), base) =~= Seq::<usize>::empty());
                assert(first[ext] + Seq::<usize>::empty() =~= first[ext]);
            }
        }
        while i < slots
            invariant
                i <= slots == names.len(),
                names == other.ext_map.names(),
                names.no_duplicates(),
                other.ext_map.wf(),
                lists_fit(other.ext_map@, base as nat),
                self.ext_map.wf(),
                self.entries@ == old(self).entries@ + other.entries@,
                self.roots == old(self).roots,
                self.ext_map@ == merged_tables(
                    first,
                    other.ext_map@.restrict(names.take(i as int).to_set()),
                    base,
                ),
            decreases slots - i,
        {
            let (ext, list) = other.ext_map.at(i);
            let ghost before = self.ext_map@;
            let ghost done = other.ext_map@.restrict(names.take(i as int).to_set());
            assert forall|k: int| 0 <= k < list@.len() implies base + #[trigger] list@[k]
                <= usize::MAX by {
                assert(base + other.ext_map@[ext@][k] <= usize::MAX);
            }
            self.ext_map.list_for(ext.as_str(), list, base);
            proof {
                let now = other.ext_map@.restrict(names.take(i + 1).to_set());
                assert(names.take(i + 1) =~= names.take(i as int).push(ext@));
                assert(!names.take(i as int).contains(ext@)) by {
                    if names.take(i as int).contains(ext@) {
                        let k = choose|k: int|
                            0 <= k < names.take(i as int).len() && names.take(i as int)[k] == ext@;
                        assert(names[k] == names[i as int]);
                    }
                }
                assert(now =~= done.insert(ext@, list@)) by {
                    assert(names.take(i + 1).last() == ext@);
                    assert forall|k: Seq<char>| names.take(i + 1).contains(k) <==> (k == ext@
                        || names.take(i as int).contains(k)) by {
                        if names.take(i as int).contains(k) {
                            let j = choose|j: int|
                                0 <= j < names.take(i as int).len() && names.take(i as int)[j] == k;
                            assert(names.take(i + 1)[j] == k);
                        }
                    }
                }
                assert(listed(done, ext@) =~= Seq::<usize>::empty());
                assert(listed(before, ext@) =~= listed(first, ext@)) by {
                    assert(moved_up(Seq::<usize>::empty(), base) =~= Seq::<usize>::empty());
                    assert(listed(first, ext@) + Seq::<usize>::empty() =~= listed(first, ext@));
                }
                assert(self.ext_map@ =~= merged_tables(first, now, base));
            }
            i += 1;
        }
        assert(other.ext_map@.restrict(names.take(slots as int).to_set()) =~= other.ext_map@) by {
            assert(names.take(slots as int) =~= names);
            other.ext_map.lemma_names();
        }
        let mut j: usize = 0;
        while j < other.roots.len()
            invariant
                j <= other.roots@.len(),
                views(self.roots@) == merged_roots(
                    views(old(self).roots@),
                    views(other.roots@).take(j as int),
                ),
                self.entries@ == old(self).entries@ + other.entries@,
                self.ext_map.wf(),
                self.ext_map@ == merged_tables(first, other.ext_map@, base),
            decreases other.roots@.len() - j,
        {
            let root: &str = other.roots[j].as_str();
            let ghost before = views(self.roots@);
            proof {
                let all = views(other.roots@);
                assert(all.take(j + 1).drop_last() =~= all.take(j as int));
                assert(all.take(j + 1).last() == root@);
            }
            if !holds_text(&self.roots, root) {
                self.roots.push(copy_of(root));
                assert(views(self.roots@) =~= before.push(root@));
            }
            j += 1;
        }
        assert(views(other.roots@).take(j as int) =~= views(other.roots@));
        self.indexed_at = indexed_at;
        proof {
            let m = self.ext_map@;
            if old(self).wf() && other.wf() {
                assert forall|ext: Seq<char>, k: int|
                    m.contains_key(ext) && 0 <= k < m[ext].len() implies #[trigger] m[ext][k]
                    < self.entries@.len() by {
                    let a = listed(first, ext);
                    if k >= a.len() {
                        assert(other.ext_map@[ext][k - a.len()] < other.entries@.len());
                    } else {
                        assert(first[ext][k] < base);
                    }
                }
            }
            if old(self).in_step() && other.in_step() {
                law_merge_keeps_table(mine, theirs);
            }
            if old(self).lists_own() && other.lists_own() {
                law_merge_keeps_own_lists(mine, first, theirs, other.ext_map@);
            }
        }
    }

    /// Whether the table of extensions lists positions of entries only, so that it can be followed
    /// without a check.
    pub fn is_wf(&self) -> (r: bool)
        requires
            self.ext_map.wf(),
        ensures
            r == self.wf(),
    {
        let n: usize = self.entries.len();
        let slots: usize = self.ext_map.len();
        let ghost names = self.ext_map.names();
        let ghost map = self.ext_map@;
        let mut i: usize = 0;
        while i < slots
            invariant
                i <= slots == names.len(),
                self.ext_map.wf(),
                n == self.entries@.len(),
                names == self.ext_map.names(),
                map == self.ext_map@,
                forall|s: int, k: int|
                    0 <= s < i && 0 <= k < map[names[s]].len() ==> #[trigger] map[names[s]][k] < n,
            decreases slots - i,
        {
            let (ext, list) = self.ext_map.at(i);
            let mut j: usize = 0;
            while j < list.len()
                invariant
                    j <= list@.len(),
                    n == self.entries@.len(),
                    map == self.ext_map@,
                    map.contains_key(ext@),
                    list@ == map[ext@],
                    forall|k: int| 0 <= k < j ==> #[trigger] list@[k] < n,
                decreases list@.len() - j,
            {
                if list[j] >= n {
                    assert(!(map[ext@][j as int] < n));
                    return false;
                }
                j += 1;
            }
            i += 1;
        }
        proof {
            self.ext_map.lemma_names();
            assert forall|ext: Seq<char>, k: int|
                map.contains_key(ext) && 0 <= k < map[ext].len() implies #[trigger] map[ext][k]
                < n by {
                assert(names.contains(ext));
                let s = choose|s: int| 0 <= s < names.len() && names[s] == ext;
                assert(map[names[s]][k] < n);
            }
        }
        true
    }
}

/// The roots of an index stay as they are when another one is merged into it, and those of the other
/// that are new come behind them, in order.
pub proof fn law_merged_roots_in_order(
    roots: Seq<Seq<char>>,
    more: Seq<Seq<char>>,
    last: Seq<char>,
)
    ensures
        merged_roots(roots, Seq::empty()) == roots,
        merged_roots(roots, more.push(last)) == (if merged_roots(roots, more).contains(last) {
            merged_roots(roots, more)
        } else {
            merged_roots(roots, more).push(last)
        }),
{
    assert(more.push(last).drop_last() =~= more);
}

} // verus!
