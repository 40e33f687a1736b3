//! Searching the contents of files: which files are read, which lines match, and in what order
//! they are shown.
use regex::Regex;
use vstd::prelude::*;
use vstd::utf8::*;

use crate::display::{sanitize_terminal_text, sanitized};
use crate::ext_map::listed;
use crate::filters::{
    binary_extension, document_extension, is_binary_extension, is_document_extension, path_matches,
    path_passes,
};
use crate::index::{lists_below, EntryModel, FileEntry, FileIndex};
use crate::names::{first_of, hit_views, HitModel, SearchHit, REGEX_SIZE_LIMIT};
use crate::order::{
    as_ints, key_order, law_stable_positions, lemma_same_order, ranks_all, sorted_positions,
    stable_positions, stable_sorted, Sortable,
};
use crate::pattern::{
    compile_regex, regex_compiles, regex_finds, regex_ignores_case, regex_is_match, regex_text,
};
use crate::text::{
    chars_of, contains, copy_of, lines, lines_of, lowercase, opt_str, opt_view, str_eq, string_of,
    to_lowercase, trim, trimmed, views,
};
use crate::utf8::{lemma_encode_injective, occurs};

verus! {

/// Files of more bytes than this are not read: 10 MB.
pub const MAX_FILE_SIZE: u64 = 10485760;

/// How many lines of one file are shown where more than one file is searched.
pub const LINES_PER_FILE: usize = 5;

/// How many characters of a line are shown.
pub const LINE_CHARS: usize = 200;

/// Whether the contents of an entry are searched; `by_ext` says whether the query names its
/// extension. Directories, empty files, large files and files that are not text never are, but for
/// documents, which are where the query names the extension or a path.
pub open spec fn is_candidate(e: EntryModel, by_ext: bool, path: Option<Seq<char>>) -> bool {
    &&& !e.is_dir
    &&& 0 < e.size <= MAX_FILE_SIZE
    &&& !binary_extension(e.extension) || (document_extension(e.extension) && (by_ext
        || path is Some))
    &&& path matches Some(pf) ==> path_passes(e.path_lower, pf)
}

/// The positions below `n`.
pub open spec fn all_positions(n: nat) -> Seq<usize> {
    Seq::new(n, |i: int| i as usize)
}

/// The positions of the entries whose contents are searched.
pub open spec fn candidates_of(
    entries: Seq<EntryModel>,
    table: Map<Seq<char>, Seq<usize>>,
    ext: Option<Seq<char>>,
    path: Option<Seq<char>>,
) -> Seq<usize> {
    let from = match ext {
        Some(ext) => listed(table, ext),
        None => all_positions(entries.len()),
    };
    from.filter(|p: usize| is_candidate(entries[p as int], ext is Some, path))
}

/// How many lines of one file are shown where `n` files are searched.
pub open spec fn lines_per_file(n: nat) -> int {
    if n == 1 {
        usize::MAX as int
    } else {
        LINES_PER_FILE as int
    }
}

/// Whether a line matches what is searched for.
pub open spec fn line_matches(line: Seq<char>, query: Seq<char>, use_regex: bool) -> bool {
    if use_regex {
        regex_finds(query, true, line)
    } else {
        occurs(lowercase(line), lowercase(query))
    }
}

/// How a line is shown.
pub open spec fn shown_line(line: Seq<char>) -> Seq<char> {
    first_of(sanitized(trimmed(line)), LINE_CHARS as int)
}

/// A line of a file that matches: the position of the file's entry, the number of the line from
/// 1, and the line as it is shown.
pub struct LineHit {
    pub position: usize,
    pub line_num: usize,
    pub line_text: String,
}

/// What a line that matches says.
pub struct LineModel {
    pub position: usize,
    pub line_num: usize,
    pub line_text: Seq<char>,
}

impl View for LineHit {
    type V = LineModel;

    open spec fn view(&self) -> LineModel {
        LineModel {
            position: self.position,
            line_num: self.line_num,
            line_text: self.line_text@,
        }
    }
}

/// What a list of lines says.
pub open spec fn line_views(hits: Seq<LineHit>) -> Seq<LineModel> {
    hits.map_values(|h: LineHit| h@)
}

/// The lines among the first `n` of `all` that match, in order.
pub open spec fn matching_lines(
    position: usize,
    all: Seq<Seq<char>>,
    n: int,
    query: Seq<char>,
    use_regex: bool,
) -> Seq<LineModel>
    decreases n,
{
    if n <= 0 {
        Seq::empty()
    } else {
        let before = matching_lines(position, all, n - 1, query, use_regex);
        if line_matches(all[n - 1], query, use_regex) {
            before.push(
                LineModel { position, line_num: n as usize, line_text: shown_line(all[n - 1]) },
            )
        } else {
            before
        }
    }
}

/// The lines of one file that are shown.
pub open spec fn lines_found(
    position: usize,
    text: Seq<char>,
    query: Seq<char>,
    use_regex: bool,
    limit: int,
) -> Seq<LineModel> {
    first_of(
        matching_lines(position, lines_of(text), lines_of(text).len() as int, query, use_regex),
        limit,
    )
}

/// The lines that are shown of the first `n` candidates, where `texts` holds what could be read
/// of each entry.
pub open spec fn lines_of_files(
    candidates: Seq<usize>,
    n: int,
    texts: Seq<Option<Seq<char>>>,
    query: Seq<char>,
    use_regex: bool,
) -> Seq<LineModel>
    decreases n,
{
    if n <= 0 {
        Seq::empty()
    } else {
        let p = candidates[n - 1];
        lines_of_files(candidates, n - 1, texts, query, use_regex) + match texts[p as int] {
            Some(text) => lines_found(
                p,
                text,
                query,
                use_regex,
                lines_per_file(candidates.len()),
            ),
            None => Seq::empty(),
        }
    }
}

/// Whether one byte string comes no later than another in the order of dictionaries.
pub open spec fn bytes_at_most(a: Seq<u8>, b: Seq<u8>) -> bool
    decreases a.len(),
{
    if a.len() == 0 {
        true
    } else if b.len() == 0 {
        false
    } else if a[0] != b[0] {
        a[0] < b[0]
    } else {
        bytes_at_most(a.drop_first(), b.drop_first())
    }
}

/// Where a line stands: the path of its file, and its number.
pub struct Place {
    pub path: Seq<char>,
    pub line_num: usize,
}

/// Whether one place comes no later than another: by path, byte for byte, then by line.
pub open spec fn place_at_most(a: Place, b: Place) -> bool {
    if a.path == b.path {
        a.line_num <= b.line_num
    } else {
        bytes_at_most(encode_utf8(a.path), encode_utf8(b.path))
    }
}

/// Where a matching line stands.
pub open spec fn place_of(entries: Seq<EntryModel>, h: LineModel) -> Place {
    Place { path: entries[h.position as int].path, line_num: h.line_num }
}

/// The order of matching lines.
pub open spec fn by_place(entries: Seq<EntryModel>) -> spec_fn(LineModel, LineModel) -> bool {
    |a: LineModel, b: LineModel| place_at_most(place_of(entries, a), place_of(entries, b))
}

/// The result for a matching line.
pub open spec fn line_hit(entries: Seq<EntryModel>, h: LineModel) -> HitModel {
    HitModel {
        entry: entries[h.position as int],
        score: 0,
        line_num: h.line_num,
        line_text: h.line_text,
    }
}

/// The results for matching lines: sorted by place, `max` at most.
pub open spec fn ranked_lines(entries: Seq<EntryModel>, found: Seq<LineModel>, max: int) -> Seq<
    HitModel,
> {
    first_of(stable_sorted(found, by_place(entries)), max).map_values(
        |h: LineModel| line_hit(entries, h),
    )
}

/// Whether a query for contents can find anything: it has a text, and where that is a regular
/// expression, it compiles.
pub open spec fn can_find(query: Seq<char>, use_regex: bool) -> bool {
    &&& query.len() > 0
    &&& use_regex ==> regex_compiles(query, true, REGEX_SIZE_LIMIT as nat, usize::BITS as nat)
}

/// The results of a search of contents.
pub open spec fn content_results(
    entries: Seq<EntryModel>,
    table: Map<Seq<char>, Seq<usize>>,
    query: Seq<char>,
    use_regex: bool,
    ext: Option<Seq<char>>,
    path: Option<Seq<char>>,
    texts: Seq<Option<Seq<char>>>,
    max: int,
) -> Seq<HitModel> {
    if can_find(query, use_regex) {
        let candidates = candidates_of(entries, table, ext, path);
        ranked_lines(
            entries,
            lines_of_files(candidates, candidates.len() as int, texts, query, use_regex),
            max,
        )
    } else {
        Seq::empty()
    }
}

/// Whether the contents of `e` are searched; `by_ext` says whether the query names its
/// extension.
pub fn is_content_candidate(e: &FileEntry, by_ext: bool, path_filter: Option<&str>) -> (r: bool)
    ensures
        r == is_candidate(e@, by_ext, opt_str(path_filter)),
{
    if e.is_dir || e.size == 0 || e.size > MAX_FILE_SIZE {
        return false;
    }
    let ext: &str = e.extension.as_str();
    if is_binary_extension(ext) && !(is_document_extension(ext) && (by_ext
        || path_filter.is_some())) {
        return false;
    }
    match path_filter {
        Some(pf) => path_matches(e.path_lower.as_str(), pf),
        None => true,
    }
}

/// The first `n` characters of `s`, or all of them.
fn first_chars(s: &str, n: usize) -> (r: String)
    ensures
        r@ == first_of(s@, n as int),
{
    let chars: Vec<char> = chars_of(s);
    let end: usize = if n <= chars.len() {
        n
    } else {
        chars.len()
    };
    let r: String = string_of(&chars, 0, end);
    assert(r@ =~= first_of(s@, n as int));
    r
}

/// How `line` is shown: without the white space around it and without what a terminal could take
/// for a command, cut to a limit.
pub fn show_line(line: &str) -> (r: String)
    ensures
        r@ == shown_line(line@),
{
    let safe: String = sanitize_terminal_text(trim(line).as_str());
    first_chars(safe.as_str(), LINE_CHARS)
}

/// A search of contents, ready to run.
pub struct ContentSearch {
    query: String,
    query_lower: String,
    regex: Option<Regex>,
    candidates: Vec<usize>,
    limit: usize,
}

impl ContentSearch {
    /// The text that is searched for.
    pub closed spec fn query(&self) -> Seq<char> {
        self.query@
    }

    /// Whether that text is a regular expression.
    pub closed spec fn uses_regex(&self) -> bool {
        self.regex is Some
    }

    /// The positions of the entries whose contents are searched.
    pub closed spec fn files(&self) -> Seq<usize> {
        self.candidates@
    }

    /// The pattern is that of the query, and the limit that of the candidates.
    pub closed spec fn wf(&self) -> bool {
        &&& self.query_lower@ == lowercase(self.query@)
        &&& self.limit == lines_per_file(self.candidates@.len())
        &&& self.regex matches Some(re) ==> regex_text(re) == self.query@ && regex_ignores_case(re)
    }

    /// The positions of the entries whose contents are searched.
    pub fn candidates(&self) -> (r: &Vec<usize>)
        ensures
            r@ == self.files(),
    {
        &self.candidates
    }

    /// Whether `line` matches.
    fn matches_line(&self, line: &str) -> (r: bool)
        requires
            self.wf(),
        ensures
            r == line_matches(line@, self.query(), self.uses_regex()),
    {
        match &self.regex {
            Some(re) => regex_is_match(re, line),
            None => contains(to_lowercase(line).as_str(), self.query_lower.as_str()),
        }
    }

    /// The lines of `text`, the contents of the entry at `position`, that are shown.
    pub fn scan(&self, position: usize, text: &str) -> (r: Vec<LineHit>)
        requires
            self.wf(),
        ensures
            line_views(r@) == lines_found(
                position,
                text@,
                self.query(),
                self.uses_regex(),
                lines_per_file(self.files().len()),
            ),
    {
        let all: Vec<String> = lines(text);
        let ghost texts = views(all@);
        let ghost q = self.query();
        let ghost re = self.uses_regex();
        let mut out: Vec<LineHit> = Vec::new();
        let n: usize = all.len();
        let mut i: usize = 0;
        assert(line_views(out@) =~= Seq::<LineModel>::empty());
        while i < n
            invariant
                self.wf(),
                q == self.query(),
                re == self.uses_regex(),
                i <= n == all@.len(),
                texts == views(all@),
                texts == lines_of(text@),
                out@.len() < self.limit,
                line_views(out@) == matching_lines(position, texts, i as int, q, re),
            decreases n - i,
        {
            let line: &str = all[i].as_str();
            let ghost before = line_views(out@);
            assert(texts[i as int] == line@);
            if self.matches_line(line) {
                out.push(LineHit { position, line_num: i + 1, line_text: show_line(line) });
                assert(line_views(out@) =~= matching_lines(position, texts, i + 1, q, re));
                if out.len() >= self.limit {
                    proof {
                        lemma_matching_lines_grow(position, texts, i + 1, n as int, q, re);
                    }
                    assert(line_views(out@) =~= lines_found(
                        position,
                        text@,
                        q,
                        re,
                        self.limit as int,
                    ));
                    return out;
                }
            }
            i += 1;
        }
        assert(line_views(out@) =~= lines_found(position, text@, q, re, self.limit as int));
        out
    }
}

/// The lines that match among the first ones come first.
pub proof fn lemma_matching_lines_grow(
    position: usize,
    all: Seq<Seq<char>>,
    m: int,
    n: int,
    query: Seq<char>,
    use_regex: bool,
)
    requires
        0 <= m <= n,
    ensures
        matching_lines(position, all, m, query, use_regex).is_prefix_of(
            matching_lines(position, all, n, query, use_regex),
        ),
    decreases n - m,
{
    if m < n {
        lemma_matching_lines_grow(position, all, m, n - 1, query, use_regex);
    }
}

proof fn lemma_bytes_order(a: Seq<u8>, b: Seq<u8>, c: Seq<u8>)
    ensures
        bytes_at_most(a, a),
        bytes_at_most(a, b) || bytes_at_most(b, a),
        bytes_at_most(a, b) && bytes_at_most(b, a) ==> a == b,
        bytes_at_most(a, b) && bytes_at_most(b, c) ==> bytes_at_most(a, c),
    decreases a.len() + b.len() + c.len(),
{
    if a.len() > 0 && b.len() > 0 && c.len() > 0 {
        lemma_bytes_order(a.drop_first(), b.drop_first(), c.drop_first());
        assert(a =~= seq![a[0]] + a.drop_first());
        assert(b =~= seq![b[0]] + b.drop_first());
    } else if a.len() > 0 && b.len() > 0 {
        lemma_bytes_order(a.drop_first(), b.drop_first(), c);
        assert(a =~= seq![a[0]] + a.drop_first());
        assert(b =~= seq![b[0]] + b.drop_first());
    } else if a.len() > 0 {
        lemma_bytes_order(a.drop_first(), b, c);
    } else {
        if b.len() == 0 {
            assert(a =~= b);
        }
    }
}

proof fn lemma_place_order(a: Place, b: Place, c: Place)
    ensures
        place_at_most(a, a),
        place_at_most(a, b) || place_at_most(b, a),
        place_at_most(a, b) && place_at_most(b, c) ==> place_at_most(a, c),
{
    let x = encode_utf8(a.path);
    let y = encode_utf8(b.path);
    let z = encode_utf8(c.path);
    lemma_bytes_order(x, y, z);
    if x == y {
        lemma_encode_injective(a.path, b.path);
    }
    if y == z {
        lemma_encode_injective(b.path, c.path);
    }
    if place_at_most(a, b) && place_at_most(b, c) && a.path == c.path && a.path != b.path {
        assert(x == y);
    }
}

proof fn lemma_places_ranked()
    ensures
        ranks_all(|a: Place, b: Place| place_at_most(a, b)),
{
    let le = |a: Place, b: Place| place_at_most(a, b);
    assert forall|x: Place| #[trigger] le(x, x) by {
        lemma_place_order(x, x, x);
    }
    assert forall|x: Place, y: Place, z: Place| #[trigger] le(x, y) && #[trigger] le(
        y,
        z,
    ) implies le(x, z) by {
        lemma_place_order(x, y, z);
    }
    assert forall|x: Place, y: Place| #[trigger] le(x, y) || #[trigger] le(y, x) by {
        lemma_place_order(x, y, y);
    }
}

/// Whether `a` comes no later than `b` in the order of dictionaries, byte for byte.
fn path_at_most(a: &str, b: &str) -> (r: bool)
    ensures
        r == bytes_at_most(encode_utf8(a@), encode_utf8(b@)),
{
    let x: &[u8] = a.as_bytes();
    let y: &[u8] = b.as_bytes();
    let mut i: usize = 0;
    assert(x@.skip(0) =~= x@);
    assert(y@.skip(0) =~= y@);
    while i < x.len() && i < y.len()
        invariant
            i <= x@.len(),
            i <= y@.len(),
            x@ == encode_utf8(a@),
            y@ == encode_utf8(b@),
            bytes_at_most(x@, y@) == bytes_at_most(x@.skip(i as int), y@.skip(i as int)),
        decreases x@.len() - i,
    {
        if x[i] != y[i] {
            return x[i] < y[i];
        }
        assert(x@.skip(i as int).drop_first() =~= x@.skip(i + 1));
        assert(y@.skip(i as int).drop_first() =~= y@.skip(i + 1));
        i += 1;
    }
    i == x.len()
}

/// Matching lines, sorted by place.
struct ByPlace<'a> {
    index: &'a FileIndex,
    found: &'a Vec<LineHit>,
}

impl<'a> ByPlace<'a> {
    spec fn wf(&self) -> bool {
        forall|i: int|
            0 <= i < self.found@.len() ==> (#[trigger] self.found@[i]).position
                < self.index.entries@.len()
    }
}

impl<'a> Sortable for ByPlace<'a> {
    type Key = Place;

    closed spec fn keys(&self) -> Seq<Place> {
        if self.wf() {
            line_views(self.found@).map_values(|h: LineModel| place_of(self.index.files(), h))
        } else {
            Seq::empty()
        }
    }

    closed spec fn at_most(a: Place, b: Place) -> bool {
        place_at_most(a, b)
    }

    proof fn lemma_ranks_all() {
        lemma_places_ranked();
        assert((|a: Place, b: Place| Self::at_most(a, b)) =~= (|a: Place, b: Place|
            place_at_most(a, b)));
    }

    fn is_at_most(&self, a: usize, b: usize) -> (r: bool) {
        let x: &LineHit = &self.found[a];
        let y: &LineHit = &self.found[b];
        let p: &str = self.index.entries[x.position].path.as_str();
        let q: &str = self.index.entries[y.position].path.as_str();
        assert(self.keys()[a as int] == (Place { path: p@, line_num: x.line_num }));
        assert(self.keys()[b as int] == (Place { path: q@, line_num: y.line_num }));
        if str_eq(p, q) {
            x.line_num <= y.line_num
        } else {
            path_at_most(p, q)
        }
    }
}

/// Sorting matching lines by their places is sorting them by the places that they have.
pub proof fn lemma_same_positions(entries: Seq<EntryModel>, found: Seq<LineModel>)
    ensures
        stable_positions(
            found.map_values(|h: LineModel| place_of(entries, h)),
            |a: Place, b: Place| place_at_most(a, b),
        ) == stable_positions(found, by_place(entries)),
        ranks_all(by_place(entries)),
{
    let le = by_place(entries);
    assert forall|x: LineModel| #[trigger] le(x, x) by {
        lemma_place_order(place_of(entries, x), place_of(entries, x), place_of(entries, x));
    }
    assert forall|x: LineModel, y: LineModel, z: LineModel| #[trigger] le(x, y) && #[trigger] le(
        y,
        z,
    ) implies le(x, z) by {
        lemma_place_order(place_of(entries, x), place_of(entries, y), place_of(entries, z));
    }
    assert forall|x: LineModel, y: LineModel| #[trigger] le(x, y) || #[trigger] le(y, x) by {
        lemma_place_order(place_of(entries, x), place_of(entries, y), place_of(entries, y));
    }
    let places = found.map_values(|h: LineModel| place_of(entries, h));
    let ple = |a: Place, b: Place| place_at_most(a, b);
    lemma_places_ranked();
    lemma_same_order(places, ple, found, le);
}

/// Sorts and cuts the matching lines of all files.
pub fn rank_lines<'a>(index: &'a FileIndex, found: &Vec<LineHit>, max_results: usize) -> (r: Vec<
    SearchHit<'a>,
>)
    requires
        forall|i: int|
            0 <= i < found@.len() ==> (#[trigger] found@[i]).position < index.entries@.len(),
    ensures
        hit_views(r@) == ranked_lines(index.files(), line_views(found@), max_results as int),
{
    let n: usize = found.len();
    let keep: usize = if max_results < n {
        max_results
    } else {
        n
    };
    let things = ByPlace { index, found };
    let ghost files = index.files();
    let ghost all = line_views(found@);
    assert(things.wf());
    let order: Vec<usize> = sorted_positions(&things, n);
    let ghost sorted = stable_sorted(all, by_place(files));
    proof {
        assert(key_order::<ByPlace<'_>>() =~= (|a: Place, b: Place| place_at_most(a, b)));
        lemma_same_positions(files, all);
        law_stable_positions(all, by_place(files));
        assert(as_ints(order@).len() == order@.len());
    }
    let mut out: Vec<SearchHit<'a>> = Vec::new();
    let ghost shown = |h: LineModel| line_hit(files, h);
    let mut i: usize = 0;
    assert(hit_views(out@) =~= sorted.take(0).map_values(shown));
    while i < keep
        invariant
            i <= keep <= n == found@.len(),
            order@.len() == n,
            files == index.files(),
            all == line_views(found@),
            shown == (|h: LineModel| line_hit(files, h)),
            forall|k: int|
                0 <= k < found@.len() ==> (#[trigger] found@[k]).position < index.entries@.len(),
            sorted == stable_sorted(all, by_place(files)),
            sorted.len() == n,
            as_ints(order@) == stable_positions(all, by_place(files)),
            forall|k: int|
                0 <= k < all.len() ==> 0 <= #[trigger] stable_positions(all, by_place(files))[k]
                    < all.len(),
            hit_views(out@) == sorted.take(i as int).map_values(shown),
        decreases keep - i,
    {
        assert(as_ints(order@)[i as int] == order@[i as int]);
        assert(stable_positions(all, by_place(files))[i as int] == order@[i as int]);
        let at: usize = order[i];
        let h: &LineHit = &found[at];
        let ghost before = hit_views(out@);
        assert(all[at as int] == h@);
        out.push(
            SearchHit {
                entry: &index.entries[h.position],
                score: 0,
                line_num: h.line_num,
                line_text: copy_of(h.line_text.as_str()),
            },
        );
        i += 1;
        assert(sorted[i - 1] == h@);
        assert(sorted.take(i as int) =~= sorted.take(i - 1).push(sorted[i - 1]));
        assert(sorted.take(i as int).map_values(shown) =~= before.push(line_hit(files, h@)));
        assert(hit_views(out@) =~= before.push(line_hit(files, h@)));
    }
    assert(sorted.take(keep as int) =~= first_of(sorted, max_results as int));
    out
}

/// The texts of a list of optional strings.
pub open spec fn opt_views(texts: Seq<Option<String>>) -> Seq<Option<Seq<char>>> {
    texts.map_values(|t: Option<String>| opt_view(t))
}

impl FileIndex {
    /// The positions of the entries whose contents are searched.
    fn content_candidates(&self, ext_filter: Option<&str>, path_filter: Option<&str>) -> (r: Vec<
        usize,
    >)
        requires
            self.ext_map.wf(),
            ext_filter is Some ==> self.wf(),
        ensures
            r@ == candidates_of(
                self.files(),
                self.ext_map@,
                opt_str(ext_filter),
                opt_str(path_filter),
            ),
    {
        let by_ext: bool = ext_filter.is_some();
        let ghost files = self.files();
        let ghost path = opt_str(path_filter);
        let ghost keep = |p: usize| is_candidate(files[p as int], by_ext, path);
        let mut out: Vec<usize> = Vec::new();
        let mut i: usize = 0;
        match ext_filter {
            Some(ext) => {
                match self.ext_map.get(ext) {
                    Some(list) => {
                        assert(out@ =~= list@.take(0).filter(keep)) by {
                            reveal(Seq::filter);
                        }
                        while i < list.len()
                            invariant
                                i <= list@.len(),
                                self.wf(),
                                self.ext_map@.contains_key(ext@),
                                list@ == self.ext_map@[ext@],
                                by_ext,
                                files == self.files(),
                                path == opt_str(path_filter),
                                keep == (|p: usize| is_candidate(files[p as int], by_ext, path)),
                                out@ == list@.take(i as int).filter(keep),
                            decreases list@.len() - i,
                        {
                            let p: usize = list[i];
                            assert(self.ext_map@[ext@][i as int] < self.entries@.len());
                            assert(files[p as int] == self.entries@[p as int]@);
                            proof {
                                reveal(Seq::filter);
                                assert(list@.take(i + 1).drop_last() =~= list@.take(i as int));
                                assert(list@.take(i + 1).last() == p);
                            }
                            if is_content_candidate(&self.entries[p], by_ext, path_filter) {
                                out.push(p);
                            }
                            i += 1;
                        }
                        assert(list@.take(i as int) =~= list@);
                    },
                    None => {
                        assert(out@ =~= Seq::<usize>::empty().filter(keep)) by {
                            reveal(Seq::filter);
                        }
                    },
                }
            },
            None => {
                let n: usize = self.entries.len();
                let ghost list = all_positions(n as nat);
                assert(out@ =~= list.take(0).filter(keep)) by {
                    reveal(Seq::filter);
                }
                while i < n
                    invariant
                        i <= n == self.entries@.len(),
                        list == all_positions(n as nat),
                        !by_ext,
                        files == self.files(),
                        path == opt_str(path_filter),
                        keep == (|p: usize| is_candidate(files[p as int], by_ext, path)),
                        out@ == list.take(i as int).filter(keep),
                    decreases n - i,
                {
                    assert(files[i as int] == self.entries@[i as int]@);
                    proof {
                        reveal(Seq::filter);
                        assert(list.take(i + 1).drop_last() =~= list.take(i as int));
                        assert(list.take(i + 1).last() == i);
                    }
                    if is_content_candidate(&self.entries[i], by_ext, path_filter) {
                        out.push(i);
                    }
                    i += 1;
                }
                assert(list.take(i as int) =~= list);
            },
        }
        out
    }

    /// Makes a search of contents for `query`; there is none where it has no text or is no
    /// regular expression where it should be one.
    pub fn plan_content(
        &self,
        query: &str,
        use_regex: bool,
        ext_filter: Option<&str>,
        path_filter: Option<&str>,
    ) -> (r: Option<ContentSearch>)
        requires
            self.ext_map.wf(),
            ext_filter is Some ==> self.wf(),
        ensures
            r is Some <==> can_find(query@, use_regex),
            r matches Some(search) ==> {
                &&& search.wf()
                &&& search.query() == query@
                &&& search.uses_regex() == use_regex
                &&& search.files() == candidates_of(
                    self.files(),
                    self.ext_map@,
                    opt_str(ext_filter),
                    opt_str(path_filter),
                )
            },
    {
        if query.is_empty() {
            return None;
        }
        let regex: Option<Regex> = if use_regex {
            match compile_regex(query, true, REGEX_SIZE_LIMIT) {
                Some(re) => Some(re),
                None => {
                    return None;
                },
            }
        } else {
            None
        };
        let candidates: Vec<usize> = self.content_candidates(ext_filter, path_filter);
        let limit: usize = if candidates.len() == 1 {
            usize::MAX
        } else {
            LINES_PER_FILE
        };
        Some(
            ContentSearch {
                query: copy_of(query),
                query_lower: to_lowercase(query),
                regex,
                candidates,
                limit,
            },
        )
    }

    /// Searches the contents of files for `query`, plain text or a regular expression. `texts`
    /// holds what could be read of each entry, by its position.
    pub fn search_content(
        &self,
        query: &str,
        use_regex: bool,
        ext_filter: Option<&str>,
        path_filter: Option<&str>,
        max_results: usize,
        texts: &Vec<Option<String>>,
    ) -> (r: Vec<SearchHit<'_>>)
        requires
            self.ext_map.wf(),
            ext_filter is Some ==> self.wf(),
            texts@.len() == self.entries@.len(),
        ensures
            hit_views(r@) == content_results(
                self.files(),
                self.ext_map@,
                query@,
                use_regex,
                opt_str(ext_filter),
                opt_str(path_filter),
                opt_views(texts@),
                max_results as int,
            ),
    {
        let search: ContentSearch = match self.plan_content(
            query,
            use_regex,
            ext_filter,
            path_filter,
        ) {
            Some(search) => search,
            None => {
                let none: Vec<SearchHit<'_>> = Vec::new();
                assert(hit_views(none@) =~= Seq::<HitModel>::empty());
                return none;
            },
        };
        assert(self.entries@.len() == self.entries.len());
        let ghost cands = search.files();
        let ghost read = opt_views(texts@);
        proof {
            lemma_candidates_in_range(
                self.files(),
                self.ext_map@,
                opt_str(ext_filter),
                opt_str(path_filter),
            );
        }
        let mut found: Vec<LineHit> = Vec::new();
        let mut i: usize = 0;
        assert(line_views(found@) =~= Seq::<LineModel>::empty());
        while i < search.candidates().len()
            invariant
                i <= cands.len(),
                search.wf(),
                cands == search.files(),
                read == opt_views(texts@),
                search.query() == query@,
                search.uses_regex() == use_regex,
                texts@.len() == self.entries@.len(),
                forall|k: int| 0 <= k < cands.len() ==> #[trigger] cands[k] < self.entries@.len(),
                forall|k: int|
                    0 <= k < found@.len() ==> (#[trigger] found@[k]).position
                        < self.entries@.len(),
                line_views(found@) == lines_of_files(cands, i as int, read, query@, use_regex),
            decreases cands.len() - i,
        {
            let p: usize = search.candidates()[i];
            let ghost before = line_views(found@);
            assert(read[p as int] == opt_view(texts@[p as int]));
            assert(before + Seq::<LineModel>::empty() =~= before);
            if let Some(text) = &texts[p] {
                let mut more: Vec<LineHit> = search.scan(p, text.as_str());
                let ghost new = line_views(more@);
                let ghost found_before = found@;
                let ghost more_before = more@;
                proof {
                    lemma_lines_have_position(
                        p,
                        text@,
                        query@,
                        use_regex,
                        lines_per_file(cands.len()),
                    );
                    assert forall|k: int| 0 <= k < more@.len() implies (#[trigger] more@[k]).position
                        == p by {
                        assert(new[k] == more@[k]@);
                    }
                }
                found.append(&mut more);
                assert(found@ =~= found_before + more_before);
                assert(line_views(found@) =~= before + new);
            }
            i += 1;
        }
        rank_lines(self, &found, max_results)
    }
}

/// The positions of candidates are positions of entries.
pub proof fn lemma_candidates_in_range(
    entries: Seq<EntryModel>,
    table: Map<Seq<char>, Seq<usize>>,
    ext: Option<Seq<char>>,
    path: Option<Seq<char>>,
)
    requires
        entries.len() <= usize::MAX,
        ext is Some ==> lists_below(table, entries.len()),
    ensures
        forall|k: int|
            0 <= k < candidates_of(entries, table, ext, path).len() ==> {
                let p = #[trigger] candidates_of(entries, table, ext, path)[k];
                p < entries.len() && is_candidate(entries[p as int], ext is Some, path)
            },
{
    let from = match ext {
        Some(x) => listed(table, x),
        None => all_positions(entries.len()),
    };
    let keep = |p: usize| is_candidate(entries[p as int], ext is Some, path);
    let all = candidates_of(entries, table, ext, path);
    assert forall|k: int| 0 <= k < all.len() implies {
        let p = #[trigger] all[k];
        p < entries.len() && is_candidate(entries[p as int], ext is Some, path)
    } by {
        from.lemma_filter_pred(keep, k);
        assert(all.contains(all[k]));
        from.lemma_filter_contains_rev(keep, all[k]);
        let j = choose|j: int| 0 <= j < from.len() && from[j] == all[k];
        if let Some(x) = ext {
            assert(table[x][j] < entries.len());
        }
    }
}

/// The lines of a file carry the position of its entry.
proof fn lemma_lines_have_position(
    position: usize,
    text: Seq<char>,
    query: Seq<char>,
    use_regex: bool,
    limit: int,
)
    requires
        limit >= 0,
    ensures
        forall|k: int|
            0 <= k < lines_found(position, text, query, use_regex, limit).len() ==> (
            #[trigger] lines_found(position, text, query, use_regex, limit)[k]).position == position,
{
    let all = lines_of(text);
    lemma_matching_have_position(position, all, all.len() as int, query, use_regex);
}

proof fn lemma_matching_have_position(
    position: usize,
    all: Seq<Seq<char>>,
    n: int,
    query: Seq<char>,
    use_regex: bool,
)
    ensures
        forall|k: int|
            0 <= k < matching_lines(position, all, n, query, use_regex).len() ==> (
            #[trigger] matching_lines(position, all, n, query, use_regex)[k]).position == position,
    decreases n,
{
    if n > 0 {
        lemma_matching_have_position(position, all, n - 1, query, use_regex);
        let before = matching_lines(position, all, n - 1, query, use_regex);
        let now = matching_lines(position, all, n, query, use_regex);
        assert forall|k: int| 0 <= k < now.len() implies (#[trigger] now[k]).position
            == position by {
            if k < before.len() {
                assert(now[k] == before[k]);
            }
        }
    }
}

} // verus!
