//! The cache: an index as bytes, in the format of the crate `postcard`.
use vstd::prelude::*;

use crate::ext_map::ExtMap;
use crate::index::{entry_views, EntryModel, FileEntry, FileIndex};
use crate::text::{copies, copy_of, views};

verus! {

/// An entry as a plain tuple: its path, the path in lowercase, its name, the name in lowercase,
/// its size, whether it is a directory, and its extension.
pub type PlainEntry = (String, String, String, String, u64, bool, String);

/// An index as a plain tuple: its entries, the table of extensions, when it was made, and its
/// roots.
pub type PlainIndex = (Vec<PlainEntry>, Vec<(String, Vec<usize>)>, u64, Vec<String>);

/// One extension of a table and the positions listed for it.
pub struct ListModel {
    pub ext: Seq<char>,
    pub list: Seq<usize>,
}

/// What a plain index says.
pub struct CacheModel {
    pub entries: Seq<EntryModel>,
    pub lists: Seq<ListModel>,
    pub indexed_at: u64,
    pub roots: Seq<Seq<char>>,
}

/// What a plain entry says.
pub open spec fn plain_entry(e: PlainEntry) -> EntryModel {
    EntryModel {
        path: e.0@,
        path_lower: e.1@,
        name: e.2@,
        name_lower: e.3@,
        size: e.4,
        is_dir: e.5,
        extension: e.6@,
    }
}

/// What a plain list of positions says.
pub open spec fn plain_list(l: (String, Vec<usize>)) -> ListModel {
    ListModel { ext: l.0@, list: l.1@ }
}

/// What a plain index says.
pub open spec fn plain_index(p: PlainIndex) -> CacheModel {
    CacheModel {
        entries: p.0@.map_values(|e: PlainEntry| plain_entry(e)),
        lists: p.1@.map_values(|l: (String, Vec<usize>)| plain_list(l)),
        indexed_at: p.2,
        roots: views(p.3@),
    }
}

/// An error of the crate `postcard`, `postcard::Error`.
#[verifier::external_type_specification]
#[verifier::external_body]
pub struct ExPostcardError(postcard::Error);

/// The bytes that `postcard::to_allocvec` writes for an index.
pub uninterp spec fn postcard_bytes(m: CacheModel) -> Seq<u8>;

/// The index that `postcard::from_bytes` reads from bytes, and none where it fails; lengths and
/// positions have to fit a machine word.
pub uninterp spec fn postcard_index(bytes: Seq<u8>, word_bits: nat) -> Option<CacheModel>;

/// What was read, where reading did not fail.
pub open spec fn read_index(r: Result<PlainIndex, postcard::Error>) -> Option<CacheModel> {
    match r {
        Ok(plain) => Some(plain_index(plain)),
        Err(_) => None,
    }
}

/// `postcard::to_allocvec`: writes an index as bytes. It does not fail on tuples, vectors, strings,
/// integers and booleans, whose lengths are known.
#[verifier::external_body]
pub(crate) fn encode_index(plain: &PlainIndex) -> (r: Result<Vec<u8>, postcard::Error>)
    ensures
        r is Ok,
        r->Ok_0@ == postcard_bytes(plain_index(*plain)),
{
    postcard::to_allocvec(plain)
}

/// `postcard::from_bytes`: reads an index from bytes. What was written for an index is read as
/// that index; what comes of other bytes has only a name here.
#[verifier::external_body]
pub(crate) fn decode_index(bytes: &Vec<u8>) -> (r: Result<PlainIndex, postcard::Error>)
    ensures
        read_index(r) == postcard_index(bytes@, usize::BITS as nat),
        forall|m: CacheModel|
            bytes@ == #[trigger] postcard_bytes(m) ==> read_index(r) == Some(m),
{
    postcard::from_bytes(bytes)
}

/// A cache of more bytes than this is not read: 512 MB.
pub const MAX_CACHE_BYTES: usize = 536870912;

/// Why a cache is not written or read.
#[derive(Clone, Copy, PartialEq, Eq, Debug, Structural)]
pub enum CacheError {
    /// It is larger than any index should be.
    TooLarge,
    /// The index cannot be written as bytes.
    Unwritable,
    /// The bytes are no index.
    Unreadable,
}

/// The text of an error.
pub open spec fn error_text(e: CacheError) -> Seq<char> {
    match e {
        CacheError::TooLarge => "cache file exceeds 512MB limit"@,
        CacheError::Unwritable => "index cannot be written"@,
        CacheError::Unreadable => "cache file cannot be read"@,
    }
}

impl CacheError {
    /// The error for people.
    pub fn message(&self) -> (r: &'static str)
        ensures
            r@ == error_text(*self),
    {
        match self {
            CacheError::TooLarge => "cache file exceeds 512MB limit",
            CacheError::Unwritable => "index cannot be written",
            CacheError::Unreadable => "cache file cannot be read",
        }
    }
}

/// The table that the first `n` of some lists make; of two lists for one extension the later one
/// counts.
pub open spec fn table_of(lists: Seq<ListModel>, n: int) -> Map<Seq<char>, Seq<usize>>
    decreases n,
{
    if n <= 0 {
        Map::empty()
    } else {
        table_of(lists, n - 1).insert(lists[n - 1].ext, lists[n - 1].list)
    }
}

/// The lists of a table, in the order of the extensions given.
pub open spec fn lists_of(names: Seq<Seq<char>>, table: Map<Seq<char>, Seq<usize>>) -> Seq<
    ListModel,
> {
    names.map_values(|ext: Seq<char>| ListModel { ext, list: table[ext] })
}

fn copy_positions(list: &Vec<usize>) -> (r: Vec<usize>)
    ensures
        r@ == list@,
{
    let mut out: Vec<usize> = Vec::new();
    let mut i: usize = 0;
    while i < list.len()
        invariant
            i <= list@.len(),
            out@ == list@.take(i as int),
        decreases list@.len() - i,
    {
        out.push(list[i]);
        i += 1;
        assert(list@.take(i as int) =~= list@.take(i - 1).push(list@[i - 1]));
    }
    assert(list@.take(i as int) =~= list@);
    out
}

fn plain_of(e: &FileEntry) -> (r: PlainEntry)
    ensures
        plain_entry(r) == e@,
{
    (
        copy_of(e.path.as_str()),
        copy_of(e.path_lower.as_str()),
        copy_of(e.name.as_str()),
        copy_of(e.name_lower.as_str()),
        e.size,
        e.is_dir,
        copy_of(e.extension.as_str()),
    )
}

fn entry_of(e: &PlainEntry) -> (r: FileEntry)
    ensures
        r@ == plain_entry(*e),
{
    FileEntry {
        path: copy_of(e.0.as_str()),
        path_lower: copy_of(e.1.as_str()),
        name: copy_of(e.2.as_str()),
        name_lower: copy_of(e.3.as_str()),
        size: e.4,
        is_dir: e.5,
        extension: copy_of(e.6.as_str()),
    }
}

impl FileIndex {
    /// What is written to the cache.
    pub open spec fn cached(&self) -> CacheModel {
        CacheModel {
            entries: self.files(),
            lists: lists_of(self.ext_map.names(), self.ext_map@),
            indexed_at: self.indexed_at,
            roots: views(self.roots@),
        }
    }

    /// The index is the one that was written to the cache as `m`.
    pub open spec fn restores(&self, m: CacheModel) -> bool {
        &&& self.files() == m.entries
        &&& self.ext_map.wf()
        &&& self.ext_map@ == table_of(m.lists, m.lists.len() as int)
        &&& self.indexed_at == m.indexed_at
        &&& views(self.roots@) == m.roots
    }

    /// The index as a plain tuple.
    fn to_plain(&self) -> (r: PlainIndex)
        requires
            self.ext_map.wf(),
        ensures
            plain_index(r) == self.cached(),
    {
        let mut entries: Vec<PlainEntry> = Vec::new();
        let ghost pe = |e: PlainEntry| plain_entry(e);
        let ghost files = self.files();
        let mut i: usize = 0;
        assert(entries@.map_values(pe) =~= files.take(0));
        while i < self.entries.len()
            invariant
                i <= self.entries@.len(),
                pe == (|e: PlainEntry| plain_entry(e)),
                files == self.files(),
                entries@.map_values(pe) == files.take(i as int),
            decreases self.entries@.len() - i,
        {
            let ghost before = entries@.map_values(pe);
            entries.push(plain_of(&self.entries[i]));
            i += 1;
            assert(entries@.map_values(pe) =~= before.push(files[i - 1]));
            assert(files.take(i as int) =~= files.take(i - 1).push(files[i - 1]));
        }
        assert(files.take(i as int) =~= files);
        let mut lists: Vec<(String, Vec<usize>)> = Vec::new();
        let ghost pl = |l: (String, Vec<usize>)| plain_list(l);
        let ghost goal = lists_of(self.ext_map.names(), self.ext_map@);
        let n: usize = self.ext_map.len();
        let mut j: usize = 0;
        assert(lists@.map_values(pl) =~= goal.take(0));
        while j < n
            invariant
                j <= n == goal.len(),
                self.ext_map.wf(),
                n == self.ext_map.names().len(),
                pl == (|l: (String, Vec<usize>)| plain_list(l)),
                goal == lists_of(self.ext_map.names(), self.ext_map@),
                lists@.map_values(pl) == goal.take(j as int),
            decreases n - j,
        {
            let ghost before = lists@.map_values(pl);
            let (ext, list) = self.ext_map.at(j);
            lists.push((copy_of(ext.as_str()), copy_positions(list)));
            j += 1;
            assert(lists@.map_values(pl) =~= before.push(goal[j - 1]));
            assert(goal.take(j as int) =~= goal.take(j - 1).push(goal[j - 1]));
        }
        assert(goal.take(j as int) =~= goal);
        (entries, lists, self.indexed_at, copies(&self.roots))
    }

    /// The index that a plain tuple says.
    fn from_plain(plain: PlainIndex) -> (r: FileIndex)
        ensures
            r.restores(plain_index(plain)),
    {
        let ghost m = plain_index(plain);
        let mut entries: Vec<FileEntry> = Vec::new();
        let mut i: usize = 0;
        assert(entry_views(entries@) =~= m.entries.take(0));
        while i < plain.0.len()
            invariant
                i <= plain.0@.len(),
                m == plain_index(plain),
                entry_views(entries@) == m.entries.take(i as int),
            decreases plain.0@.len() - i,
        {
            let ghost before = entry_views(entries@);
            entries.push(entry_of(&plain.0[i]));
            i += 1;
            assert(entry_views(entries@) =~= before.push(m.entries[i - 1]));
            assert(m.entries.take(i as int) =~= m.entries.take(i - 1).push(m.entries[i - 1]));
        }
        assert(m.entries.take(i as int) =~= m.entries);
        let mut ext_map: ExtMap = ExtMap::new();
        let mut j: usize = 0;
        while j < plain.1.len()
            invariant
                j <= plain.1@.len(),
                m == plain_index(plain),
                ext_map.wf(),
                ext_map@ == table_of(m.lists, j as int),
            decreases plain.1@.len() - j,
        {
            let l: &(String, Vec<usize>) = &plain.1[j];
            assert(m.lists[j as int] == plain_list(*l));
            ext_map.set_list(l.0.as_str(), copy_positions(&l.1));
            j += 1;
        }
        let indexed_at: u64 = plain.2;
        FileIndex { entries, ext_map, indexed_at, roots: plain.3 }
    }

    /// The index as bytes.
    pub fn to_bytes(&self) -> (r: Result<Vec<u8>, CacheError>)
        requires
            self.ext_map.wf(),
        ensures
            r matches Ok(bytes) && bytes@ == postcard_bytes(self.cached()),
    {
        match encode_index(&self.to_plain()) {
            Ok(bytes) => Ok(bytes),
            Err(_) => Err(CacheError::Unwritable),
        }
    }

    /// The index that was written as bytes. Bytes that are too many are refused before anything in
    /// them is believed.
    pub fn from_bytes(bytes: &Vec<u8>) -> (r: Result<FileIndex, CacheError>)
        ensures
            match r {
                Ok(index) => {
                    &&& bytes@.len() <= MAX_CACHE_BYTES
                    &&& postcard_index(bytes@, usize::BITS as nat) matches Some(m)
                    &&& index.restores(m)
                },
                Err(CacheError::TooLarge) => bytes@.len() > MAX_CACHE_BYTES,
                Err(CacheError::Unreadable) => bytes@.len() <= MAX_CACHE_BYTES && postcard_index(
                    bytes@,
                    usize::BITS as nat,
                ) is None,
                Err(CacheError::Unwritable) => false,
            },
            forall|m: CacheModel|
                bytes@ == #[trigger] postcard_bytes(m) && bytes@.len() <= MAX_CACHE_BYTES ==> (
                r matches Ok(index) && index.restores(m)),
            r == Err::<FileIndex, CacheError>(CacheError::TooLarge) <==> bytes@.len() > 512 * 1024
                * 1024,
    {
        if bytes.len() > MAX_CACHE_BYTES {
            return Err(CacheError::TooLarge);
        }
        match decode_index(bytes) {
            Ok(plain) => Ok(FileIndex::from_plain(plain)),
            Err(_) => Err(CacheError::Unreadable),
        }
    }
}

/// What is read from the cache is what was written to it: an index that restores what another one
/// wrote has the same entries, the same table of extensions, the same roots and the same time, and
/// is in step and well formed where that one was.
pub proof fn law_restored_index_is_the_same(written: FileIndex, read: FileIndex)
    requires
        written.ext_map.wf(),
        read.restores(written.cached()),
    ensures
        read.files() == written.files(),
        read.ext_map@ == written.ext_map@,
        read.indexed_at == written.indexed_at,
        views(read.roots@) == views(written.roots@),
        read.in_step() <==> written.in_step(),
        read.lists_own() <==> written.lists_own(),
        read.wf() <==> written.wf(),
{
    let names = written.ext_map.names();
    let table = written.ext_map@;
    written.ext_map.lemma_names();
    lemma_table_of_lists(names, table, names.len() as int);
    assert(names.take(names.len() as int) =~= names);
    assert(table_of(lists_of(names, table), names.len() as int) =~= table);
    assert(read.entries@.len() == read.files().len());
    assert(written.entries@.len() == written.files().len());
}

/// The lists of a table make that table, as far as the extensions go.
proof fn lemma_table_of_lists(names: Seq<Seq<char>>, table: Map<Seq<char>, Seq<usize>>, n: int)
    requires
        names.no_duplicates(),
        0 <= n <= names.len(),
    ensures
        forall|ext: Seq<char>| #[trigger]
            table_of(lists_of(names, table), n).contains_key(ext) <==> names.take(n).contains(ext),
        forall|ext: Seq<char>|
            names.take(n).contains(ext) ==> #[trigger] table_of(lists_of(names, table), n)[ext]
                == table[ext],
    decreases n,
{
    let lists = lists_of(names, table);
    if n > 0 {
        lemma_table_of_lists(names, table, n - 1);
        let last = names[n - 1];
        assert(names.take(n) =~= names.take(n - 1).push(last));
        assert forall|ext: Seq<char>| #[trigger]
            names.take(n).contains(ext) <==> names.take(n - 1).contains(ext) || ext == last by {
            if names.take(n - 1).contains(ext) {
                let front = names.take(n - 1);
                let k = choose|k: int| 0 <= k < front.len() && front[k] == ext;
                assert(names.take(n)[k] == ext);
            }
            if ext == last {
                assert(names.take(n)[n - 1] == ext);
            }
        }
        let before = table_of(lists, n - 1);
        let now = table_of(lists, n);
        assert(lists[n - 1] == (ListModel { ext: last, list: table[last] }));
        assert(now == before.insert(last, table[last]));
        assert forall|ext: Seq<char>| #[trigger]
            now.contains_key(ext) <==> names.take(n).contains(ext) by {
            assert(before.contains_key(ext) <==> names.take(n - 1).contains(ext));
        }
        assert forall|ext: Seq<char>| names.take(n).contains(ext) implies #[trigger] now[ext]
            == table[ext] by {
            if ext != last {
                assert(before[ext] == table[ext]);
            }
        }
    } else {
        assert(names.take(0) =~= Seq::<Seq<char>>::empty());
    }
}

} // verus!
