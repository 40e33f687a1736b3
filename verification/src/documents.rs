//! Extracting text from documents.
use std::io::Cursor;
use vstd::prelude::*;
use vstd::string::*;
use vstd::utf8::*;
use zip::ZipArchive;

use crate::archive::{
    archive_bytes, archive_len, entry_name, entry_text, open_archive, zip_entry_name,
    zip_entry_text, zip_len, zip_opens,
};
use crate::filters::{document_extension, is_letter_byte, letter_byte};
use crate::text::{
    chars_at, chars_of, ends_with, lowercase, opt_view, starts_with, str_eq, str_views,
    to_lowercase, trim, trimmed,
};

verus! {

/// Whether a tag ends a paragraph or row: its name, in lowercase, begins with one of a few.
pub open spec fn ends_block(tag: Seq<char>) -> bool {
    let name = lowercase(tag);
    ||| "/w:p"@.is_prefix_of(name)
    ||| "/text:p"@.is_prefix_of(name)
    ||| "/a:p"@.is_prefix_of(name)
    ||| "/si"@.is_prefix_of(name)
    ||| "/row"@.is_prefix_of(name)
    ||| "/p"@.is_prefix_of(name)
}

/// `out` with a line break at its end, unless it ends with one.
pub open spec fn with_break(out: Seq<char>) -> Seq<char> {
    if out.len() > 0 && out.last() == '\n' {
        out
    } else {
        out.push('\n')
    }
}

/// The text outside the tags, where `out` has been read of it, `tag` is the open tag as far as it
/// has been read, and `in_tag` says whether one is open. A tag that ends a paragraph or row becomes
/// a line break; a closing bracket outside a tag is text.
pub open spec fn text_after(in_tag: bool, tag: Seq<char>, out: Seq<char>, rest: Seq<char>) -> Seq<
    char,
>
    decreases rest.len(),
{
    if rest.len() == 0 {
        out
    } else if rest[0] == '<' {
        text_after(true, Seq::empty(), out, rest.drop_first())
    } else if in_tag && rest[0] == '>' {
        text_after(
            false,
            Seq::empty(),
            if ends_block(tag) {
                with_break(out)
            } else {
                out
            },
            rest.drop_first(),
        )
    } else if in_tag {
        text_after(true, tag.push(rest[0]), out, rest.drop_first())
    } else {
        text_after(false, Seq::empty(), out.push(rest[0]), rest.drop_first())
    }
}

/// The text outside the tags.
pub open spec fn without_tags(xml: Seq<char>) -> Seq<char> {
    text_after(false, Seq::empty(), Seq::empty(), xml)
}

/// The basic entities and the characters that they stand for.
pub open spec fn entities() -> Seq<(Seq<char>, char)> {
    seq![("&amp;"@, '&'), ("&lt;"@, '<'), ("&gt;"@, '>'), ("&quot;"@, '"'), ("&apos;"@, '\'')]
}

/// The number of the entity that a text begins with, at `k` or behind it; the number of entities
/// where there is none.
pub open spec fn entity_from(s: Seq<char>, k: int) -> int
    decreases entities().len() - k,
{
    if k >= entities().len() || entities()[k].0.is_prefix_of(s) {
        k
    } else {
        entity_from(s, k + 1)
    }
}

/// A text with each of its basic entities replaced by what it stands for. What comes of a
/// replacement is not read again.
pub open spec fn without_entities(s: Seq<char>) -> Seq<char>
    decreases s.len(),
    via without_entities_decreases
{
    if s.len() == 0 {
        s
    } else {
        let k = entity_from(s, 0);
        if k < entities().len() {
            seq![entities()[k].1] + without_entities(s.skip(entities()[k].0.len() as int))
        } else {
            seq![s[0]] + without_entities(s.drop_first())
        }
    }
}

pub proof fn lemma_entity_from(s: Seq<char>, k: int)
    requires
        0 <= k <= entities().len(),
    ensures
        k <= entity_from(s, k) <= entities().len(),
        entity_from(s, k) < entities().len() ==> entities()[entity_from(s, k)].0.is_prefix_of(s),
    decreases entities().len() - k,
{
    if k < entities().len() && !entities()[k].0.is_prefix_of(s) {
        lemma_entity_from(s, k + 1);
    }
}

pub proof fn lemma_entities_begin()
    ensures
        forall|k: int|
            0 <= k < entities().len() ==> (#[trigger] entities()[k]).0.len() > 1
                && entities()[k].0[0] == '&',
{
    reveal_strlit("&amp;");
    reveal_strlit("&lt;");
    reveal_strlit("&gt;");
    reveal_strlit("&quot;");
    reveal_strlit("&apos;");
}

#[via_fn]
proof fn without_entities_decreases(s: Seq<char>) {
    lemma_entity_from(s, 0);
    lemma_entities_begin();
    let k = entity_from(s, 0);
    if k < entities().len() {
        assert(entities()[k].0.len() > 1);
        assert(s.skip(entities()[k].0.len() as int).len() < s.len() || s.len() == 0);
    }
}

/// The text that XML stands for.
pub open spec fn xml_text(xml: Seq<char>) -> Seq<char> {
    without_entities(without_tags(xml))
}

fn is_block_end(tag: &str) -> (r: bool)
    ensures
        r == ends_block(tag@),
{
    let lower: String = to_lowercase(tag);
    let name: &str = lower.as_str();
    starts_with(name, "/w:p") || starts_with(name, "/text:p") || starts_with(name, "/a:p")
        || starts_with(name, "/si") || starts_with(name, "/row") || starts_with(name, "/p")
}

/// Strips the tags, with line breaks at the ends of paragraphs and rows.
fn strip_tags(xml: &str) -> (r: String)
    ensures
        r@ == without_tags(xml@),
{
    let mut out: String = String::new();
    let mut in_tag: bool = false;
    let mut tag: String = String::new();
    let mut at_break: bool = false;
    assert(xml@.skip(0) =~= xml@);
    for c in it: xml.chars()
        invariant
            it.seq() == xml@,
            it.index() <= xml@.len(),
            at_break == (out@.len() > 0 && out@.last() == '\n'),
            !in_tag ==> tag@ == Seq::<char>::empty(),
            without_tags(xml@) == text_after(in_tag, tag@, out@, xml@.skip(it.index() as int)),
    {
        assert(xml@.skip(it.index() as int).drop_first() =~= xml@.skip(it.index() as int + 1));
        if c == '<' {
            in_tag = true;
            tag = String::new();
        } else if in_tag && c == '>' {
            in_tag = false;
            if is_block_end(tag.as_str()) {
                if !at_break {
                    out.push('\n');
                    at_break = true;
                }
            }
            tag = String::new();
        } else if in_tag {
            tag.push(c);
        } else {
            out.push(c);
            at_break = c == '\n';
        }
    }
    assert(xml@.skip(xml@.len() as int) =~= Seq::<char>::empty());
    out
}

/// The basic entities and the characters that they stand for, as in [`entities`].
fn entity_list() -> (r: Vec<(Vec<char>, char)>)
    ensures
        r@.len() == entities().len(),
        forall|k: int|
            0 <= k < r@.len() ==> (#[trigger] r@[k]).0@ == entities()[k].0 && r@[k].1
                == entities()[k].1,
{
    let mut out: Vec<(Vec<char>, char)> = Vec::new();
    out.push((chars_of("&amp;"), '&'));
    out.push((chars_of("&lt;"), '<'));
    out.push((chars_of("&gt;"), '>'));
    out.push((chars_of("&quot;"), '"'));
    out.push((chars_of("&apos;"), '\''));
    out
}

/// Replaces the basic entities.
fn decode_entities(s: &str) -> (r: String)
    ensures
        r@ == without_entities(s@),
{
    let list: Vec<(Vec<char>, char)> = entity_list();
    let chars: Vec<char> = chars_of(s);
    let n: usize = chars.len();
    let mut out: String = String::new();
    let mut i: usize = 0;
    assert(s@.skip(0) =~= s@);
    assert(out@ + without_entities(s@) =~= without_entities(s@));
    while i < n
        invariant
            n == chars@.len(),
            chars@ == s@,
            i <= n,
            list@.len() == entities().len(),
            forall|k: int|
                0 <= k < list@.len() ==> (#[trigger] list@[k]).0@ == entities()[k].0 && list@[k].1
                    == entities()[k].1,
            without_entities(s@) == out@ + without_entities(s@.skip(i as int)),
        decreases n - i,
    {
        let ghost rest = s@.skip(i as int);
        let ghost before = out@;
        let mut k: usize = 0;
        while k < list.len() && !chars_at(&chars, &list[k].0, i)
            invariant
                i < n == chars@.len(),
                chars@ == s@,
                rest == s@.skip(i as int),
                k <= list@.len() == entities().len(),
                forall|k: int|
                    0 <= k < list@.len() ==> (#[trigger] list@[k]).0@ == entities()[k].0
                        && list@[k].1 == entities()[k].1,
                entity_from(rest, 0) == entity_from(rest, k as int),
            decreases list@.len() - k,
        {
            assert(list@[k as int].0@ == entities()[k as int].0);
            k += 1;
        }
        if k < list.len() {
            proof {
                lemma_entities_begin();
                assert(list@[k as int].0@ == entities()[k as int].0);
                assert(entities()[k as int].0.len() > 1);
            }
            out.push(list[k].1);
            let ghost tail = without_entities(rest.skip(list@[k as int].0@.len() as int));
            assert(before + (seq![list@[k as int].1] + tail) =~= out@ + tail);
            i += list[k].0.len();
            assert(rest.skip(list@[k as int].0@.len() as int) =~= s@.skip(i as int));
        } else {
            out.push(chars[i]);
            let ghost tail = without_entities(rest.drop_first());
            assert(before + (seq![rest[0]] + tail) =~= out@ + tail);
            i += 1;
            assert(rest.drop_first() =~= s@.skip(i as int));
        }
    }
    assert(s@.skip(i as int) =~= Seq::<char>::empty());
    assert(out@ + Seq::<char>::empty() =~= out@);
    out
}

/// Strips the tags of XML, with line breaks at the ends of paragraphs, and replaces the basic
/// entities.
pub fn strip_xml_tags(xml: &str) -> (r: String)
    ensures
        r@ == xml_text(xml@),
{
    decode_entities(strip_tags(xml).as_str())
}

/// What stands outside the tags holds no opening bracket, so what strips tags leaves none but those
/// that entities stood for.
pub proof fn law_no_tags_are_left(xml: Seq<char>)
    ensures
        !without_tags(xml).contains('<'),
{
    lemma_no_tags(false, Seq::empty(), Seq::empty(), xml);
}

proof fn lemma_no_tags(in_tag: bool, tag: Seq<char>, out: Seq<char>, rest: Seq<char>)
    requires
        !out.contains('<'),
    ensures
        !text_after(in_tag, tag, out, rest).contains('<'),
    decreases rest.len(),
{
    broadcast use vstd::seq_lib::group_seq_properties;

    if rest.len() > 0 {
        let tail = rest.drop_first();
        if rest[0] == '<' {
            lemma_no_tags(true, Seq::empty(), out, tail);
        } else if in_tag && rest[0] == '>' {
            lemma_no_tags(
                false,
                Seq::empty(),
                if ends_block(tag) {
                    with_break(out)
                } else {
                    out
                },
                tail,
            );
        } else if in_tag {
            lemma_no_tags(true, tag.push(rest[0]), out, tail);
        } else {
            lemma_no_tags(false, Seq::empty(), out.push(rest[0]), tail);
        }
    }
}

/// A text that holds neither an opening bracket nor an ampersand stands for itself.
pub proof fn law_plain_xml_is_itself(xml: Seq<char>)
    requires
        !xml.contains('<'),
        !xml.contains('&'),
    ensures
        xml_text(xml) == xml,
{
    lemma_text_kept(Seq::empty(), xml);
    assert(Seq::<char>::empty() + xml =~= xml);
    lemma_no_entities(xml);
}

proof fn lemma_text_kept(out: Seq<char>, rest: Seq<char>)
    requires
        !rest.contains('<'),
    ensures
        text_after(false, Seq::empty(), out, rest) == out + rest,
    decreases rest.len(),
{
    if rest.len() > 0 {
        assert(rest.contains(rest[0]));
        lemma_rest_without(rest, '<');
        lemma_text_kept(out.push(rest[0]), rest.drop_first());
        assert(out.push(rest[0]) + rest.drop_first() =~= out + rest);
    } else {
        assert(out + rest =~= out);
    }
}

pub proof fn lemma_no_entities(s: Seq<char>)
    requires
        !s.contains('&'),
    ensures
        without_entities(s) == s,
    decreases s.len(),
{
    if s.len() > 0 {
        let k = entity_from(s, 0);
        lemma_entity_from(s, 0);
        lemma_entities_begin();
        assert(s.contains(s[0]));
        if k < entities().len() {
            assert(entities()[k].0[0] == s.take(entities()[k].0.len() as int)[0]);
        }
        lemma_rest_without(s, '&');
        lemma_no_entities(s.drop_first());
        assert(seq![s[0]] + s.drop_first() =~= s);
    }
}

proof fn lemma_rest_without(s: Seq<char>, c: char)
    requires
        s.len() > 0,
        !s.contains(c),
    ensures
        !s.drop_first().contains(c),
{
    let rest = s.drop_first();
    if rest.contains(c) {
        let k = choose|k: int| 0 <= k < rest.len() && rest[k] == c;
        assert(s[k + 1] == c);
    }
}

/// Each entity is read once: behind an escaped ampersand nothing is taken for the rest of an entity.
pub proof fn law_entities_are_read_once(rest: Seq<char>)
    ensures
        without_entities("&amp;"@ + rest) == seq!['&'] + without_entities(rest),
{
    lemma_entities_begin();
    let s = "&amp;"@ + rest;
    assert(entities()[0].0 == "&amp;"@);
    assert(s.take("&amp;"@.len() as int) =~= "&amp;"@);
    assert(s.skip("&amp;"@.len() as int) =~= rest);
    assert(entity_from(s, 0) == 0);
}

/// One part of an archive: its name, and its text where it was read.
pub struct ArchivePart {
    pub name: String,
    pub text: Option<String>,
}

/// What a part of an archive says.
pub struct PartModel {
    pub name: Seq<char>,
    pub text: Option<Seq<char>>,
}

impl View for ArchivePart {
    type V = PartModel;

    open spec fn view(&self) -> PartModel {
        PartModel { name: self.name@, text: opt_view(self.text) }
    }
}

/// What a list of parts says.
pub open spec fn part_views(parts: Seq<ArchivePart>) -> Seq<PartModel> {
    parts.map_values(|p: ArchivePart| p@)
}

/// Whether a part of an archive is XML under one of some prefixes.
pub open spec fn wanted_part(name: Seq<char>, prefixes: Seq<Seq<char>>) -> bool {
    ".xml"@.is_suffix_of(name) && exists|i: int|
        0 <= i < prefixes.len() && (#[trigger] prefixes[i]).is_prefix_of(name)
}

/// Whether the part of an archive with this name is XML under one of some prefixes.
pub fn is_wanted_part(name: &str, prefixes: &Vec<&str>) -> (r: bool)
    ensures
        r == wanted_part(name@, str_views(prefixes@)),
{
    if !ends_with(name, ".xml") {
        return false;
    }
    let ghost all = str_views(prefixes@);
    let mut i: usize = 0;
    while i < prefixes.len()
        invariant
            i <= prefixes@.len(),
            all == str_views(prefixes@),
            ".xml"@.is_suffix_of(name@),
            forall|k: int| 0 <= k < i ==> !(#[trigger] all[k]).is_prefix_of(name@),
        decreases prefixes@.len() - i,
    {
        if starts_with(name, prefixes[i]) {
            assert(all[i as int].is_prefix_of(name@));
            return true;
        }
        assert(all[i as int] == prefixes@[i as int]@);
        i += 1;
    }
    false
}

/// The text of the wanted parts, each with a line break behind it.
pub open spec fn parts_text(parts: Seq<PartModel>, prefixes: Seq<Seq<char>>) -> Seq<char>
    decreases parts.len(),
{
    if parts.len() == 0 {
        Seq::empty()
    } else {
        let before = parts_text(parts.drop_last(), prefixes);
        match parts.last().text {
            Some(xml) => if wanted_part(parts.last().name, prefixes) {
                before + xml_text(xml) + seq!['\n']
            } else {
                before
            },
            None => before,
        }
    }
}

/// A text, unless it is empty.
pub open spec fn unless_empty(s: Seq<char>) -> Option<Seq<char>> {
    if s.len() == 0 {
        None
    } else {
        Some(s)
    }
}

/// Extracts the text of the wanted parts of an archive.
pub fn text_of_parts(parts: &Vec<ArchivePart>, prefixes: &Vec<&str>) -> (r: Option<String>)
    ensures
        opt_view(r) == unless_empty(parts_text(part_views(parts@), str_views(prefixes@))),
{
    let mut all: String = String::new();
    let ghost ps = part_views(parts@);
    let ghost fs = str_views(prefixes@);
    let mut i: usize = 0;
    while i < parts.len()
        invariant
            i <= parts@.len(),
            ps == part_views(parts@),
            fs == str_views(prefixes@),
            all@ == parts_text(ps.take(i as int), fs),
        decreases parts@.len() - i,
    {
        let part: &ArchivePart = &parts[i];
        proof {
            assert(ps.take(i + 1).drop_last() =~= ps.take(i as int));
            assert(ps.take(i + 1).last() == part@);
        }
        if let Some(xml) = &part.text {
            if is_wanted_part(part.name.as_str(), prefixes) {
                let ghost before = all@;
                all.append(strip_xml_tags(xml.as_str()).as_str());
                all.push('\n');
                assert(all@ =~= before + xml_text(xml@) + seq!['\n']);
            }
        }
        i += 1;
    }
    assert(ps.take(i as int) =~= ps);
    if all.as_str().is_empty() {
        None
    } else {
        Some(all)
    }
}

/// The parts that are read of an archive: each entry that can be opened, with its text where it
/// is wanted.
pub open spec fn archive_parts(bytes: Seq<u8>, prefixes: Seq<Seq<char>>, n: nat) -> Seq<PartModel>
    decreases n,
{
    if n == 0 {
        Seq::empty()
    } else {
        let i = (n - 1) as nat;
        let before = archive_parts(bytes, prefixes, i);
        match zip_entry_name(bytes, i, usize::BITS as nat) {
            Some(name) => before.push(
                PartModel {
                    name,
                    text: if wanted_part(name, prefixes) {
                        zip_entry_text(bytes, i, usize::BITS as nat)
                    } else {
                        None
                    },
                },
            ),
            None => before,
        }
    }
}

/// The text of the wanted parts of an archive.
pub open spec fn archive_text(bytes: Seq<u8>, prefixes: Seq<Seq<char>>) -> Option<Seq<char>> {
    if zip_opens(bytes, usize::BITS as nat) {
        unless_empty(
            parts_text(
                archive_parts(bytes, prefixes, zip_len(bytes, usize::BITS as nat)),
                prefixes,
            ),
        )
    } else {
        None
    }
}

/// Extracts the text of a document that is an archive of XML files.
pub fn extract_zip_xml_text(bytes: Vec<u8>, prefixes: &Vec<&str>) -> (r: Option<String>)
    ensures
        opt_view(r) == archive_text(bytes@, str_views(prefixes@)),
{
    let ghost data = bytes@;
    let ghost fs = str_views(prefixes@);
    let mut archive: ZipArchive<Cursor<Vec<u8>>> = match open_archive(bytes) {
        Some(archive) => archive,
        None => {
            return None;
        },
    };
    let mut parts: Vec<ArchivePart> = Vec::new();
    let n: usize = archive_len(&archive);
    let mut i: usize = 0;
    assert(part_views(parts@) =~= Seq::<PartModel>::empty());
    while i < n
        invariant
            i <= n,
            archive_bytes(archive) == data,
            fs == str_views(prefixes@),
            part_views(parts@) == archive_parts(data, fs, i as nat),
        decreases n - i,
    {
        let ghost before = part_views(parts@);
        if let Some(name) = entry_name(&mut archive, i) {
            let text: Option<String> = if is_wanted_part(name.as_str(), prefixes) {
                entry_text(&mut archive, i)
            } else {
                None
            };
            let part = ArchivePart { name, text };
            parts.push(part);
            assert(part_views(parts@) =~= before.push(part@));
        }
        i += 1;
        assert(archive_parts(data, fs, i as nat) == part_views(parts@));
    }
    text_of_parts(&parts, prefixes)
}

/// The value of a hexadecimal digit.
pub open spec fn hex_value(b: u8) -> Option<u8> {
    if 48 <= b <= 57 {
        Some((b - 48) as u8)
    } else if 65 <= b <= 70 {
        Some((b - 55) as u8)
    } else if 97 <= b <= 102 {
        Some((b - 87) as u8)
    } else {
        None
    }
}

/// The number that two bytes write in hexadecimal: two digits, or a plus sign and a digit.
pub open spec fn hex_pair(a: u8, b: u8) -> Option<u8> {
    match (hex_value(a), hex_value(b)) {
        (Some(x), Some(y)) => Some((16 * x + y) as u8),
        (None, Some(y)) => if a == 43 {
            Some(y)
        } else {
            None
        },
        _ => None,
    }
}

/// Whether a byte is an ASCII digit.
pub open spec fn digit_byte(b: u8) -> bool {
    48 <= b <= 57
}

/// The end of the letters that begin at `i`.
pub open spec fn letters_end(b: Seq<u8>, i: int) -> int
    decreases b.len() - i,
{
    if 0 <= i < b.len() && letter_byte(b[i]) {
        letters_end(b, i + 1)
    } else {
        i
    }
}

/// The end of the digits that begin at `i`.
pub open spec fn digits_end(b: Seq<u8>, i: int) -> int
    decreases b.len() - i,
{
    if 0 <= i < b.len() && digit_byte(b[i]) {
        digits_end(b, i + 1)
    } else {
        i
    }
}

/// The end of the number that begins at `i`: a minus sign and digits, either of which may be
/// missing.
pub open spec fn number_end(b: Seq<u8>, i: int) -> int {
    if 0 <= i < b.len() && b[i] == 45 {
        digits_end(b, i + 1)
    } else {
        digits_end(b, i)
    }
}

/// The end of the space that may stand at `i`.
pub open spec fn space_end(b: Seq<u8>, i: int) -> int {
    if 0 <= i < b.len() && b[i] == 32 {
        i + 1
    } else {
        i
    }
}

/// What a control word stands for.
pub open spec fn word_text(word: Seq<u8>) -> Seq<char> {
    if word == encode_utf8("par"@) || word == encode_utf8("line"@) {
        seq!['\n']
    } else if word == encode_utf8("tab"@) {
        seq!['\t']
    } else {
        Seq::empty()
    }
}

/// The character that an optional byte stands for.
pub open spec fn byte_text(b: Option<u8>) -> Seq<char> {
    match b {
        Some(b) => seq![b as char],
        None => Seq::empty(),
    }
}

/// How a piece of RTF at `i` reads: what it stands for, and where the next one begins.
pub open spec fn rtf_piece(b: Seq<u8>, i: int) -> (Seq<char>, int) {
    if b[i] == 123 || b[i] == 125 || b[i] == 13 || b[i] == 10 {
        // a brace that groups, or a line break of the file
        (Seq::empty(), i + 1)
    } else if b[i] != 92 {
        (seq![b[i] as char], i + 1)
    } else if i + 1 >= b.len() {
        (Seq::empty(), i + 1)
    } else if b[i + 1] == 92 || b[i + 1] == 123 || b[i + 1] == 125 {
        // an escaped backslash or brace
        (seq![b[i + 1] as char], i + 2)
    } else if b[i + 1] == 13 || b[i + 1] == 10 {
        (Seq::empty(), i + 2)
    } else if b[i + 1] == 39 {
        // a character by its number
        if i + 3 < b.len() {
            (byte_text(hex_pair(b[i + 2], b[i + 3])), i + 4)
        } else {
            (Seq::empty(), i + 2)
        }
    } else {
        // a control word, with a number and a space behind it or without
        let end = letters_end(b, i + 1);
        (word_text(b.subrange(i + 1, end)), space_end(b, number_end(b, end)))
    }
}

/// The text of RTF from position `i` on.
pub open spec fn rtf_from(b: Seq<u8>, i: int) -> Seq<char>
    decreases b.len() - i,
    when 0 <= i
    via rtf_from_decreases
{
    if i >= b.len() {
        Seq::empty()
    } else {
        rtf_piece(b, i).0 + rtf_from(b, rtf_piece(b, i).1)
    }
}

pub proof fn lemma_ends(b: Seq<u8>, i: int)
    requires
        0 <= i <= b.len(),
    ensures
        i <= letters_end(b, i) <= b.len(),
        i <= digits_end(b, i) <= b.len(),
    decreases b.len() - i,
{
    if i < b.len() {
        lemma_ends(b, i + 1);
    }
}

pub proof fn lemma_piece_end(b: Seq<u8>, i: int)
    requires
        0 <= i < b.len(),
    ensures
        i < rtf_piece(b, i).1 <= b.len(),
{
    if i + 1 < b.len() {
        lemma_ends(b, i + 1);
        let end = letters_end(b, i + 1);
        lemma_ends(b, end);
        if end < b.len() {
            lemma_ends(b, end + 1);
        }
    }
}

#[via_fn]
proof fn rtf_from_decreases(b: Seq<u8>, i: int) {
    if 0 <= i < b.len() {
        lemma_piece_end(b, i);
    }
}

/// The text of RTF.
pub open spec fn rtf_text(raw: Seq<char>) -> Seq<char> {
    rtf_from(encode_utf8(raw), 0)
}

fn is_digit_byte(b: u8) -> (r: bool)
    ensures
        r == digit_byte(b),
{
    48 <= b && b <= 57
}

fn value_of_hex(b: u8) -> (r: Option<u8>)
    ensures
        r == hex_value(b),
{
    if 48 <= b && b <= 57 {
        Some(b - 48)
    } else if 65 <= b && b <= 70 {
        Some(b - 55)
    } else if 97 <= b && b <= 102 {
        Some(b - 87)
    } else {
        None
    }
}

/// The number that two bytes write in hexadecimal.
fn value_of_pair(a: u8, b: u8) -> (r: Option<u8>)
    ensures
        r == hex_pair(a, b),
{
    match value_of_hex(b) {
        Some(y) => match value_of_hex(a) {
            Some(x) => Some(16 * x + y),
            None => if a == 43 {
                Some(y)
            } else {
                None
            },
        },
        None => None,
    }
}

/// Whether the bytes `from..to` of `bytes` are those of `word`.
fn is_word(bytes: &[u8], from: usize, to: usize, word: &str) -> (r: bool)
    requires
        from <= to <= bytes@.len(),
    ensures
        r == (bytes@.subrange(from as int, to as int) == encode_utf8(word@)),
{
    let w: &[u8] = word.as_bytes();
    let ghost part = bytes@.subrange(from as int, to as int);
    if to - from != w.len() {
        return false;
    }
    let mut i: usize = 0;
    while i < w.len()
        invariant
            i <= w@.len(),
            from + w@.len() == to,
            to <= bytes@.len(),
            part == bytes@.subrange(from as int, to as int),
            w@ == encode_utf8(word@),
            forall|k: int| 0 <= k < i ==> part[k] == w@[k],
        decreases w@.len() - i,
    {
        if bytes[from + i] != w[i] {
            assert(part[i as int] != w@[i as int]);
            return false;
        }
        i += 1;
    }
    assert(part =~= w@);
    true
}

/// Reads the control word at `from`: appends what it stands for, and returns where it ends.
fn read_control_word(bytes: &[u8], from: usize, out: &mut String) -> (end: usize)
    requires
        from < bytes@.len(),
    ensures
        end == space_end(bytes@, number_end(bytes@, letters_end(bytes@, from as int))),
        from <= end <= bytes@.len(),
        final(out)@ == old(out)@ + word_text(
            bytes@.subrange(from as int, letters_end(bytes@, from as int)),
        ),
{
    let len: usize = bytes.len();
    let mut i: usize = from;
    while i < len && is_letter_byte(bytes[i])
        invariant
            from <= i <= len == bytes@.len(),
            letters_end(bytes@, from as int) == letters_end(bytes@, i as int),
        decreases len - i,
    {
        i += 1;
    }
    let word_end: usize = i;
    assert(word_end == letters_end(bytes@, from as int));
    if i < len && bytes[i] == 45 {
        i += 1;
    }
    let digits: usize = i;
    while i < len && is_digit_byte(bytes[i])
        invariant
            from <= i <= len == bytes@.len(),
            digits_end(bytes@, digits as int) == digits_end(bytes@, i as int),
        decreases len - i,
    {
        i += 1;
    }
    assert(i == number_end(bytes@, word_end as int));
    if i < len && bytes[i] == 32 {
        i += 1;
    }
    let ghost before = out@;
    if is_word(bytes, from, word_end, "par") || is_word(bytes, from, word_end, "line") {
        out.push('\n');
        assert(out@ =~= before + seq!['\n']);
    } else if is_word(bytes, from, word_end, "tab") {
        out.push('\t');
        assert(out@ =~= before + seq!['\t']);
    } else {
        assert(out@ =~= before + Seq::<char>::empty());
    }
    i
}

/// Reads one piece of RTF at `i`: appends what it stands for, and returns where the next one
/// begins.
fn read_piece(bytes: &[u8], i: usize, out: &mut String) -> (next: usize)
    requires
        i < bytes@.len(),
    ensures
        next == rtf_piece(bytes@, i as int).1,
        final(out)@ == old(out)@ + rtf_piece(bytes@, i as int).0,
{
    let len: usize = bytes.len();
    let ghost before = out@;
    let b: u8 = bytes[i];
    assert(before + Seq::<char>::empty() =~= before);
    if b == 123 || b == 125 || b == 13 || b == 10 {
        return i + 1;
    }
    if b != 92 {
        out.push(b as char);
        assert(out@ =~= before + seq![b as char]);
        return i + 1;
    }
    if i + 1 >= len {
        return i + 1;
    }
    let c: u8 = bytes[i + 1];
    if c == 92 || c == 123 || c == 125 {
        out.push(c as char);
        assert(out@ =~= before + seq![c as char]);
        return i + 2;
    }
    if c == 13 || c == 10 {
        return i + 2;
    }
    if c == 39 {
        if len - i > 3 {
            if let Some(value) = value_of_pair(bytes[i + 2], bytes[i + 3]) {
                out.push(value as char);
                assert(out@ =~= before + seq![value as char]);
            }
            return i + 4;
        }
        return i + 2;
    }
    read_control_word(bytes, i + 1, out)
}

/// Extracts the text of RTF; there is none where it is all white space.
pub fn extract_rtf_text(raw: &str) -> (r: Option<String>)
    ensures
        opt_view(r) == (if trimmed(rtf_text(raw@)).len() == 0 {
            None
        } else {
            Some(rtf_text(raw@))
        }),
{
    let bytes: &[u8] = raw.as_bytes();
    let len: usize = bytes.len();
    let mut out: String = String::new();
    let mut i: usize = 0;
    assert(out@ + rtf_from(bytes@, 0) =~= rtf_from(bytes@, 0));
    while i < len
        invariant
            i <= len == bytes@.len(),
            bytes@ == encode_utf8(raw@),
            rtf_text(raw@) == out@ + rtf_from(bytes@, i as int),
        decreases len - i,
    {
        let ghost before = out@;
        let ghost piece = rtf_piece(bytes@, i as int);
        proof {
            lemma_piece_end(bytes@, i as int);
            assert(before + (piece.0 + rtf_from(bytes@, piece.1)) =~= (before + piece.0)
                + rtf_from(bytes@, piece.1));
        }
        i = read_piece(bytes, i, &mut out);
    }
    assert(rtf_from(bytes@, i as int) =~= Seq::<char>::empty());
    assert(out@ + Seq::<char>::empty() =~= out@);
    if trim(out.as_str()).as_str().is_empty() {
        None
    } else {
        Some(out)
    }
}

/// Whether a character means something other than itself in RTF, or is not written as one byte.
pub open spec fn rtf_special(c: char) -> bool {
    c == '\\' || c == '{' || c == '}' || c == '\r' || c == '\n' || c > '\u{7f}'
}

/// A plain text reads as itself in RTF.
pub proof fn law_plain_rtf_is_itself(raw: Seq<char>)
    requires
        forall|i: int| 0 <= i < raw.len() ==> !rtf_special(#[trigger] raw[i]),
    ensures
        rtf_text(raw) == raw,
{
    assert(is_ascii_chars(raw)) by {
        assert forall|i: int| 0 <= i < raw.len() implies '\0' <= #[trigger] raw[i] <= '\u{7f}' by {
            assert(!rtf_special(raw[i]));
            lemma_not_below_zero(raw[i]);
        }
    }
    is_ascii_chars_encode_utf8(raw);
    lemma_plain_rtf(raw, 0);
    assert(raw.skip(0) =~= raw);
}

proof fn lemma_not_below_zero(c: char)
    ensures
        '\0' <= c,
{
}

proof fn lemma_plain_rtf(raw: Seq<char>, i: int)
    requires
        0 <= i <= raw.len(),
        is_ascii_chars(raw),
        encode_utf8(raw).len() == raw.len(),
        forall|k: int| 0 <= k < raw.len() ==> #[trigger] encode_utf8(raw)[k] == raw[k] as u8,
        forall|k: int| 0 <= k < raw.len() ==> !rtf_special(#[trigger] raw[k]),
    ensures
        rtf_from(encode_utf8(raw), i) == raw.skip(i),
    decreases raw.len() - i,
{
    let b = encode_utf8(raw);
    if i < raw.len() {
        lemma_plain_rtf(raw, i + 1);
        assert(!rtf_special(raw[i]));
        assert('\0' <= raw[i] <= '\u{7f}');
        assert(b[i] == raw[i] as u8);
        assert(b[i] as char == raw[i]);
        assert(rtf_piece(b, i) == (seq![raw[i]], i + 1));
        assert(seq![raw[i]] + raw.skip(i + 1) =~= raw.skip(i));
    } else {
        assert(raw.skip(i) =~= Seq::<char>::empty());
    }
}

/// How the text of a document is come by.
#[derive(Clone, Copy, PartialEq, Eq, Structural)]
pub enum DocumentKind {
    /// A PDF file.
    Pdf,
    /// An archive of XML files: a Word, Excel or PowerPoint document.
    Word,
    Sheet,
    Slides,
    /// An archive of XML files: an OpenDocument text, spreadsheet or presentation.
    OpenDocument,
    /// Rich Text Format.
    Rtf,
    /// No document that text can be extracted from.
    Unsupported,
}

/// What kind of document files with an extension are.
pub open spec fn kind_of(ext: Seq<char>) -> DocumentKind {
    if ext == "pdf"@ {
        DocumentKind::Pdf
    } else if ext == "docx"@ {
        DocumentKind::Word
    } else if ext == "xlsx"@ {
        DocumentKind::Sheet
    } else if ext == "pptx"@ {
        DocumentKind::Slides
    } else if ext == "odt"@ || ext == "ods"@ || ext == "odp"@ {
        DocumentKind::OpenDocument
    } else if ext == "rtf"@ {
        DocumentKind::Rtf
    } else {
        DocumentKind::Unsupported
    }
}

/// What kind of document files with the extension `ext` are.
pub fn document_kind(ext: &str) -> (r: DocumentKind)
    ensures
        r == kind_of(ext@),
{
    if str_eq(ext, "pdf") {
        DocumentKind::Pdf
    } else if str_eq(ext, "docx") {
        DocumentKind::Word
    } else if str_eq(ext, "xlsx") {
        DocumentKind::Sheet
    } else if str_eq(ext, "pptx") {
        DocumentKind::Slides
    } else if str_eq(ext, "odt") || str_eq(ext, "ods") || str_eq(ext, "odp") {
        DocumentKind::OpenDocument
    } else if str_eq(ext, "rtf") {
        DocumentKind::Rtf
    } else {
        DocumentKind::Unsupported
    }
}

/// The kinds of documents that text can be extracted from are those whose extensions say so.
pub proof fn law_document_kinds(ext: Seq<char>)
    ensures
        document_extension(ext) <==> kind_of(ext) != DocumentKind::Unsupported,
{
}

/// What was read of a document.
pub enum DocumentSource {
    /// It could not be read.
    Unread,
    /// Its bytes.
    Bytes(Vec<u8>),
    /// Its text, as it stands in the file, or as a PDF reader gave it.
    Text(String),
}

/// Where the text of a document stands in its archive.
pub open spec fn text_parts(kind: DocumentKind) -> Seq<Seq<char>> {
    match kind {
        DocumentKind::Word => seq!["word/document"@, "word/header"@, "word/footer"@],
        DocumentKind::Sheet => seq!["xl/sharedStrings"@, "xl/worksheets/"@],
        DocumentKind::Slides => seq!["ppt/slides/slide"@],
        DocumentKind::OpenDocument => seq!["content"@],
        _ => Seq::empty(),
    }
}

/// The text of a document, from what was read of it.
pub open spec fn document_text(kind: DocumentKind, source: DocumentSource) -> Option<Seq<char>> {
    match (kind, source) {
        (DocumentKind::Unsupported, _) => None,
        (DocumentKind::Pdf, DocumentSource::Text(text)) => Some(text@),
        (DocumentKind::Pdf, _) => None,
        (DocumentKind::Rtf, DocumentSource::Text(raw)) => if trimmed(rtf_text(raw@)).len() == 0 {
            None
        } else {
            Some(rtf_text(raw@))
        },
        (DocumentKind::Rtf, _) => None,
        (_, DocumentSource::Bytes(bytes)) => archive_text(bytes@, text_parts(kind)),
        _ => None,
    }
}

fn part_names(kind: DocumentKind) -> (r: Vec<&'static str>)
    ensures
        str_views(r@) == text_parts(kind),
{
    let mut out: Vec<&'static str> = Vec::new();
    match kind {
        DocumentKind::Word => {
            out.push("word/document");
            out.push("word/header");
            out.push("word/footer");
        },
        DocumentKind::Sheet => {
            out.push("xl/sharedStrings");
            out.push("xl/worksheets/");
        },
        DocumentKind::Slides => {
            out.push("ppt/slides/slide");
        },
        DocumentKind::OpenDocument => {
            out.push("content");
        },
        _ => {},
    }
    assert(str_views(out@) =~= text_parts(kind));
    out
}

/// Extracts the text of a document with the extension `ext` from what was read of it.
pub fn extract_document_text(ext: &str, source: DocumentSource) -> (r: Option<String>)
    ensures
        opt_view(r) == document_text(kind_of(ext@), source),
{
    let kind: DocumentKind = document_kind(ext);
    match kind {
        DocumentKind::Unsupported => None,
        DocumentKind::Pdf => match source {
            DocumentSource::Text(text) => Some(text),
            _ => None,
        },
        DocumentKind::Rtf => match source {
            DocumentSource::Text(raw) => extract_rtf_text(raw.as_str()),
            _ => None,
        },
        _ => match source {
            DocumentSource::Bytes(bytes) => extract_zip_xml_text(bytes, &part_names(kind)),
            _ => None,
        },
    }
}

} // verus!
