//! What the text of a document holds.
use vstd::prelude::*;
use vstd::utf8::*;

use crate::archive::{zip_entry_name, zip_entry_text, zip_len, zip_opens};
use crate::documents::{
    archive_parts, archive_text, document_text, ends_block, entities, entity_from, kind_of,
    lemma_entities_begin, lemma_entity_from, lemma_no_entities, parts_text, rtf_text, text_after,
    text_parts, wanted_part, with_break, without_entities, without_tags, xml_text, DocumentSource,
};
use crate::text::{decimal, lines_after, lines_of, lowercase, whitespace};
use crate::text_laws::law_trimmed;

verus! {

/// The text of an entry of an archive, with a line break behind it.
spec fn entry_piece(bytes: Seq<u8>, i: int) -> Seq<char> {
    xml_text(zip_entry_text(bytes, i as nat, usize::BITS as nat)->0) + seq!['\n']
}

/// Whether the text of an entry of an archive is taken.
spec fn entry_taken(bytes: Seq<u8>, prefixes: Seq<Seq<char>>, i: int) -> bool {
    &&& zip_entry_name(bytes, i as nat, usize::BITS as nat) matches Some(name)
    &&& wanted_part(name, prefixes)
    &&& zip_entry_text(bytes, i as nat, usize::BITS as nat) is Some
}

proof fn lemma_taken(bytes: Seq<u8>, prefixes: Seq<Seq<char>>, n: nat) -> (picked: Seq<int>)
    ensures
        forall|i: int, j: int| 0 <= i < j < picked.len() ==> picked[i] < picked[j],
        forall|i: int| #[trigger]
            picked.contains(i) <==> 0 <= i < n && entry_taken(bytes, prefixes, i),
        parts_text(archive_parts(bytes, prefixes, n), prefixes) == picked.map_values(
            |i: int| entry_piece(bytes, i),
        ).flatten(),
    decreases n,
{
    let f = |i: int| entry_piece(bytes, i);
    let parts = archive_parts(bytes, prefixes, n);
    if n == 0 {
        let none = Seq::<int>::empty();
        assert(none.map_values(f).flatten() =~= Seq::<char>::empty());
        none
    } else {
        let at = (n - 1) as nat;
        let before = lemma_taken(bytes, prefixes, at);
        let front = archive_parts(bytes, prefixes, at);
        if zip_entry_name(bytes, at, usize::BITS as nat) is Some {
            assert(parts.drop_last() =~= front);
        }
        if entry_taken(bytes, prefixes, at as int) {
            let picked = before.push(at as int);
            assert(picked.map_values(f) =~= before.map_values(f).push(f(at as int)));
            let all = before.map_values(f).push(f(at as int));
            all.lemma_flatten_and_flatten_alt_are_equivalent();
            before.map_values(f).lemma_flatten_and_flatten_alt_are_equivalent();
            assert(all.drop_last() =~= before.map_values(f));
            assert(parts_text(parts, prefixes) =~= picked.map_values(f).flatten());
            assert forall|i: int| #[trigger]
                picked.contains(i) <==> 0 <= i < n && entry_taken(bytes, prefixes, i) by {
                if before.contains(i) {
                    let k = choose|k: int| 0 <= k < before.len() && before[k] == i;
                    assert(picked[k] == i);
                }
                if i == at {
                    assert(picked[before.len() as int] == i);
                }
                if picked.contains(i) && i != at {
                    let k = choose|k: int| 0 <= k < picked.len() && picked[k] == i;
                    assert(before[k] == i);
                }
            }
            assert forall|i: int, j: int| 0 <= i < j < picked.len() implies picked[i]
                < picked[j] by {
                assert(before.contains(before[i]));
            }
            picked
        } else {
            assert(parts_text(parts, prefixes) == parts_text(front, prefixes));
            assert forall|i: int| #[trigger]
                before.contains(i) <==> 0 <= i < n && entry_taken(bytes, prefixes, i) by {}
            before
        }
    }
}

/// The text of an archive is that of its wanted parts, all of them that can be read, in order, each
/// with a line break behind it. A part is wanted where its name ends with `.xml` and begins with
/// one of the prefixes. `picked` are the numbers of these parts.
pub proof fn law_archive_text(bytes: Seq<u8>, prefixes: Seq<Seq<char>>) -> (picked: Seq<int>)
    requires
        zip_opens(bytes, usize::BITS as nat),
    ensures
        forall|i: int, j: int| 0 <= i < j < picked.len() ==> picked[i] < picked[j],
        forall|i: int| #[trigger]
            picked.contains(i) <==> {
                &&& 0 <= i < zip_len(bytes, usize::BITS as nat)
                &&& zip_entry_name(bytes, i as nat, usize::BITS as nat) matches Some(name)
                &&& ".xml"@.is_suffix_of(name)
                &&& exists|k: int|
                    0 <= k < prefixes.len() && (#[trigger] prefixes[k]).is_prefix_of(name)
                &&& zip_entry_text(bytes, i as nat, usize::BITS as nat) is Some
            },
        archive_text(bytes, prefixes) == (if picked.len() == 0 {
            None
        } else {
            Some(
                picked.map_values(
                    |i: int|
                        xml_text(zip_entry_text(bytes, i as nat, usize::BITS as nat)->0) + seq![
                            '\n',
                        ],
                ).flatten(),
            )
        }),
{
    let f = |i: int| entry_piece(bytes, i);
    let picked = lemma_taken(bytes, prefixes, zip_len(bytes, usize::BITS as nat));
    let pieces = picked.map_values(f);
    assert(pieces =~= picked.map_values(
        |i: int| xml_text(zip_entry_text(bytes, i as nat, usize::BITS as nat)->0) + seq!['\n'],
    ));
    if picked.len() > 0 {
        pieces.lemma_flatten_length_ge_single_element_length(0);
        pieces.lemma_flatten_and_flatten_alt_are_equivalent();
        assert(pieces[0].len() > 0);
    } else {
        assert(pieces.flatten() =~= Seq::<char>::empty());
    }
    picked
}

/// What cannot be opened as an archive has no text.
pub proof fn law_no_archive_no_text(bytes: Seq<u8>, prefixes: Seq<Seq<char>>)
    requires
        !zip_opens(bytes, usize::BITS as nat),
    ensures
        archive_text(bytes, prefixes) is None,
{
}

/// A name that begins with a prefix without dots and ends with `.xml` has something between.
proof fn lemma_xml_name(name: Seq<char>, prefix: Seq<char>)
    requires
        !prefix.contains('.'),
    ensures
        prefix.is_prefix_of(name) && ".xml"@.is_suffix_of(name) <==> exists|mid: Seq<char>|
            name == #[trigger] (prefix + mid) + ".xml"@,
{
    reveal_strlit(".xml");
    let end = ".xml"@;
    if prefix.is_prefix_of(name) && end.is_suffix_of(name) {
        let at = name.len() - 4;
        assert(name.skip(at) =~= end) by {
            assert(end.is_suffix_of(name));
        }
        if at < prefix.len() {
            assert(name[at] == name.skip(at)[0]);
            assert(prefix[at] == name.take(prefix.len() as int)[at]);
            assert(prefix.contains('.'));
        }
        let mid = name.subrange(prefix.len() as int, at);
        assert(name =~= (prefix + mid) + end);
    }
    if exists|mid: Seq<char>| name == #[trigger] (prefix + mid) + end {
        let mid = choose|mid: Seq<char>| name == #[trigger] (prefix + mid) + end;
        assert(name.take(prefix.len() as int) =~= prefix);
        assert(name.skip(name.len() - 4) =~= end);
    }
}

/// The parts of a presentation that are read are its slides, whatever their numbers.
pub proof fn law_parts_of_slides(name: Seq<char>)
    ensures
        wanted_part(name, text_parts(kind_of("pptx"@))) <==> exists|mid: Seq<char>|
            name == #[trigger] ("ppt/slides/slide"@ + mid) + ".xml"@,
{
    lemma_document_extensions();
    reveal_strlit("ppt/slides/slide");
    let prefixes = text_parts(kind_of("pptx"@));
    lemma_xml_name(name, "ppt/slides/slide"@);
    if "ppt/slides/slide"@.is_prefix_of(name) {
        assert(prefixes[0].is_prefix_of(name));
    }
}

/// The parts of a workbook that are read are its worksheets, whatever their names, and the strings
/// that they share.
pub proof fn law_parts_of_sheets(name: Seq<char>)
    ensures
        wanted_part(name, text_parts(kind_of("xlsx"@))) <==> (exists|mid: Seq<char>|
            name == #[trigger] ("xl/worksheets/"@ + mid) + ".xml"@) || (exists|mid: Seq<char>|
            name == #[trigger] ("xl/sharedStrings"@ + mid) + ".xml"@),
{
    lemma_document_extensions();
    reveal_strlit("xl/worksheets/");
    reveal_strlit("xl/sharedStrings");
    let prefixes = text_parts(kind_of("xlsx"@));
    lemma_xml_name(name, "xl/worksheets/"@);
    lemma_xml_name(name, "xl/sharedStrings"@);
    if "xl/sharedStrings"@.is_prefix_of(name) {
        assert(prefixes[0].is_prefix_of(name));
    }
    if "xl/worksheets/"@.is_prefix_of(name) {
        assert(prefixes[1].is_prefix_of(name));
    }
}

/// The parts of a text document that are read are its body, its headers and its footers, whatever
/// their numbers.
pub proof fn law_parts_of_text_documents(name: Seq<char>)
    ensures
        wanted_part(name, text_parts(kind_of("docx"@))) <==> (exists|mid: Seq<char>|
            name == #[trigger] ("word/document"@ + mid) + ".xml"@) || (exists|mid: Seq<char>|
            name == #[trigger] ("word/header"@ + mid) + ".xml"@) || (exists|mid: Seq<char>|
            name == #[trigger] ("word/footer"@ + mid) + ".xml"@),
{
    lemma_document_extensions();
    reveal_strlit("word/document");
    reveal_strlit("word/header");
    reveal_strlit("word/footer");
    let prefixes = text_parts(kind_of("docx"@));
    lemma_xml_name(name, "word/document"@);
    lemma_xml_name(name, "word/header"@);
    lemma_xml_name(name, "word/footer"@);
    if "word/document"@.is_prefix_of(name) {
        assert(prefixes[0].is_prefix_of(name));
    }
    if "word/header"@.is_prefix_of(name) {
        assert(prefixes[1].is_prefix_of(name));
    }
    if "word/footer"@.is_prefix_of(name) {
        assert(prefixes[2].is_prefix_of(name));
    }
}

/// The part of an OpenDocument file that is read is its content.
pub proof fn law_parts_of_open_documents(name: Seq<char>)
    ensures
        wanted_part(name, text_parts(kind_of("odt"@))) <==> exists|mid: Seq<char>|
            name == #[trigger] ("content"@ + mid) + ".xml"@,
        text_parts(kind_of("ods"@)) == text_parts(kind_of("odt"@)),
        text_parts(kind_of("odp"@)) == text_parts(kind_of("odt"@)),
{
    lemma_document_extensions();
    reveal_strlit("content");
    let prefixes = text_parts(kind_of("odt"@));
    lemma_xml_name(name, "content"@);
    if "content"@.is_prefix_of(name) {
        assert(prefixes[0].is_prefix_of(name));
    }
}

/// The extensions of documents are told apart.
proof fn lemma_document_extensions()
    ensures
        "docx"@ != "pdf"@,
        "xlsx"@ != "pdf"@ && "xlsx"@ != "docx"@,
        "pptx"@ != "pdf"@ && "pptx"@ != "docx"@ && "pptx"@ != "xlsx"@,
        "odt"@ != "pdf"@ && "odt"@ != "docx"@ && "odt"@ != "xlsx"@ && "odt"@ != "pptx"@,
        "ods"@ != "pdf"@ && "ods"@ != "docx"@ && "ods"@ != "xlsx"@ && "ods"@ != "pptx"@,
        "odp"@ != "pdf"@ && "odp"@ != "docx"@ && "odp"@ != "xlsx"@ && "odp"@ != "pptx"@,
        "rtf"@ != "pdf"@ && "rtf"@ != "docx"@ && "rtf"@ != "xlsx"@ && "rtf"@ != "pptx"@ && "rtf"@
            != "odt"@ && "rtf"@ != "ods"@ && "rtf"@ != "odp"@,
{
    reveal_strlit("pdf");
    reveal_strlit("docx");
    reveal_strlit("xlsx");
    reveal_strlit("pptx");
    reveal_strlit("odt");
    reveal_strlit("ods");
    reveal_strlit("odp");
    reveal_strlit("rtf");
    assert("pdf"@[0] == 'p' && "docx"@[0] == 'd' && "xlsx"@[0] == 'x' && "pptx"@[0] == 'p');
    assert("odt"@[0] == 'o' && "ods"@[0] == 'o' && "odp"@[0] == 'o' && "rtf"@[0] == 'r');
    assert("pdf"@.len() == 3 && "pptx"@.len() == 4);
}

/// Some piece of a text, with what stands before and behind it.
pub open spec fn holds_piece(text: Seq<char>, piece: Seq<char>) -> bool {
    exists|a: Seq<char>, b: Seq<char>| text == #[trigger] (a + piece + b)
}

/// The text of a document holds the text of every slide, of every worksheet and the shared strings,
/// of the body and every header and footer, or of the content, as its kind has them, where that
/// part of the archive can be read.
pub proof fn law_document_holds_every_part(
    ext: Seq<char>,
    bytes: Vec<u8>,
    i: int,
    name: Seq<char>,
    xml: Seq<char>,
    mid: Seq<char>,
)
    requires
        zip_opens(bytes@, usize::BITS as nat),
        0 <= i < zip_len(bytes@, usize::BITS as nat),
        zip_entry_name(bytes@, i as nat, usize::BITS as nat) == Some(name),
        zip_entry_text(bytes@, i as nat, usize::BITS as nat) == Some(xml),
        ({
            ||| ext == "pptx"@ && name == "ppt/slides/slide"@ + mid + ".xml"@
            ||| ext == "xlsx"@ && name == "xl/worksheets/"@ + mid + ".xml"@
            ||| ext == "xlsx"@ && name == "xl/sharedStrings"@ + mid + ".xml"@
            ||| ext == "docx"@ && name == "word/document"@ + mid + ".xml"@
            ||| ext == "docx"@ && name == "word/header"@ + mid + ".xml"@
            ||| ext == "docx"@ && name == "word/footer"@ + mid + ".xml"@
            ||| (ext == "odt"@ || ext == "ods"@ || ext == "odp"@) && name == "content"@ + mid
                + ".xml"@
        }),
    ensures
        document_text(kind_of(ext), DocumentSource::Bytes(bytes)) matches Some(text) && holds_piece(
            text,
            xml_text(xml) + seq!['\n'],
        ),
{
    lemma_document_extensions();
    law_parts_of_slides(name);
    law_parts_of_sheets(name);
    law_parts_of_text_documents(name);
    law_parts_of_open_documents(name);
    let prefixes = text_parts(kind_of(ext));
    let picked = law_archive_text(bytes@, prefixes);
    assert(wanted_part(name, prefixes));
    assert(picked.contains(i));
    let f = |i: int|
        xml_text(zip_entry_text(bytes@, i as nat, usize::BITS as nat)->0) + seq!['\n'];
    let k = choose|k: int| 0 <= k < picked.len() && picked[k] == i;
    let pieces = picked.map_values(f);
    assert(pieces[k] == xml_text(xml) + seq!['\n']);
    lemma_flatten_holds(pieces, k);
}

/// The pieces of a flattened list stand in it.
proof fn lemma_flatten_holds(pieces: Seq<Seq<char>>, k: int)
    requires
        0 <= k < pieces.len(),
    ensures
        holds_piece(pieces.flatten(), pieces[k]),
    decreases pieces.len(),
{
    let rest = pieces.drop_first();
    if k == 0 {
        let a = Seq::<char>::empty();
        assert(pieces.flatten() =~= a + pieces[0] + rest.flatten());
    } else {
        lemma_flatten_holds(rest, k - 1);
        let (a, b) = choose|a: Seq<char>, b: Seq<char>|
            rest.flatten() == #[trigger] (a + rest[k - 1] + b);
        assert(pieces.flatten() =~= (pieces[0] + a) + pieces[k] + b);
    }
}

/// The slides of a presentation, the headers and footers of a text document and the worksheets of a
/// workbook are numbered: with any number, they are read.
pub proof fn law_numbered_parts_are_read(n: nat)
    ensures
        wanted_part("ppt/slides/slide"@ + decimal(n) + ".xml"@, text_parts(kind_of("pptx"@))),
        wanted_part("xl/worksheets/sheet"@ + decimal(n) + ".xml"@, text_parts(kind_of("xlsx"@))),
        wanted_part("word/header"@ + decimal(n) + ".xml"@, text_parts(kind_of("docx"@))),
        wanted_part("word/footer"@ + decimal(n) + ".xml"@, text_parts(kind_of("docx"@))),
{
    law_parts_of_slides("ppt/slides/slide"@ + decimal(n) + ".xml"@);
    reveal_strlit("xl/worksheets/sheet");
    reveal_strlit("xl/worksheets/");
    reveal_strlit("sheet");
    assert("xl/worksheets/sheet"@ + decimal(n) + ".xml"@ =~= ("xl/worksheets/"@ + ("sheet"@
        + decimal(n))) + ".xml"@);
    law_parts_of_sheets("xl/worksheets/sheet"@ + decimal(n) + ".xml"@);
    law_parts_of_text_documents("word/header"@ + decimal(n) + ".xml"@);
    law_parts_of_text_documents("word/footer"@ + decimal(n) + ".xml"@);
}

/// The text of a PDF file is what the reader gave, and RTF and PDF files are no archives: bytes of
/// theirs have no text, as no other file has.
pub proof fn law_other_documents(ext: Seq<char>, text: String, bytes: Vec<u8>)
    ensures
        document_text(kind_of("pdf"@), DocumentSource::Text(text)) == Some(text@),
        document_text(kind_of(ext), DocumentSource::Unread) is None,
        ext == "pdf"@ || ext == "rtf"@ ==> document_text(
            kind_of(ext),
            DocumentSource::Bytes(bytes),
        ) is None,
        ext != "pdf"@ && ext != "rtf"@ ==> document_text(
            kind_of(ext),
            DocumentSource::Text(text),
        ) is None,
{
    lemma_document_extensions();
}

/// What has been read of XML: whether a tag is open, the tag as far as it has been read, and the
/// text.
struct XmlState {
    in_tag: bool,
    tag: Seq<char>,
    out: Seq<char>,
}

/// The state behind one more character.
spec fn xml_step(s: XmlState, c: char) -> XmlState {
    if c == '<' {
        XmlState { in_tag: true, tag: Seq::empty(), out: s.out }
    } else if s.in_tag && c == '>' {
        XmlState {
            in_tag: false,
            tag: Seq::empty(),
            out: if ends_block(s.tag) {
                with_break(s.out)
            } else {
                s.out
            },
        }
    } else if s.in_tag {
        XmlState { in_tag: true, tag: s.tag.push(c), out: s.out }
    } else {
        XmlState { in_tag: false, tag: Seq::empty(), out: s.out.push(c) }
    }
}

/// The state behind a text.
spec fn xml_state(s: XmlState, x: Seq<char>) -> XmlState
    decreases x.len(),
{
    if x.len() == 0 {
        s
    } else {
        xml_step(xml_state(s, x.drop_last()), x.last())
    }
}

proof fn lemma_state_step(s: XmlState, x: Seq<char>, c: char)
    ensures
        xml_state(s, x.push(c)) == xml_step(xml_state(s, x), c),
{
    assert(x.push(c).drop_last() =~= x);
}

proof fn lemma_text_of_state(s: XmlState, x: Seq<char>, y: Seq<char>)
    requires
        !s.in_tag ==> s.tag.len() == 0,
    ensures
        ({
            let t = xml_state(s, x);
            &&& text_after(s.in_tag, s.tag, s.out, x + y) == text_after(t.in_tag, t.tag, t.out, y)
            &&& !t.in_tag ==> t.tag.len() == 0
        }),
    decreases x.len(),
{
    if x.len() == 0 {
        assert(x + y =~= y);
    } else {
        let front = x.drop_last();
        let c = x.last();
        let more = seq![c] + y;
        assert(x + y =~= front + more);
        lemma_text_of_state(s, front, more);
        assert(more.drop_first() =~= y);
        let t = xml_state(s, front);
        if !t.in_tag {
            assert(t.tag =~= Seq::<char>::empty());
        }
    }
}

/// What is read first.
spec fn xml_start() -> XmlState {
    XmlState { in_tag: false, tag: Seq::empty(), out: Seq::empty() }
}

proof fn lemma_text_is_state(x: Seq<char>)
    ensures
        without_tags(x) == xml_state(xml_start(), x).out,
{
    let none = Seq::<char>::empty();
    lemma_text_of_state(xml_start(), x, none);
    assert(x + none =~= x);
}

/// Whether no tag is open at the end of a text: behind each opening bracket stands a closing one.
pub open spec fn outside_tags(x: Seq<char>) -> bool {
    forall|i: int|
        0 <= i < x.len() && #[trigger] x[i] == '<' ==> exists|j: int|
            i < j < x.len() && #[trigger] x[j] == '>'
}

proof fn lemma_outside(x: Seq<char>)
    ensures
        xml_state(xml_start(), x).in_tag <==> !outside_tags(x),
    decreases x.len(),
{
    if x.len() > 0 {
        let front = x.drop_last();
        let c = x.last();
        lemma_outside(front);
        assert(x[x.len() - 1] == c);
        if c == '<' {
            assert(!outside_tags(x)) by {
                assert(x[x.len() - 1] == '<');
            }
        } else if c == '>' {
            assert forall|i: int| 0 <= i < x.len() && #[trigger] x[i] == '<' implies exists|j: int|
                i < j < x.len() && #[trigger] x[j] == '>' by {
                assert(x[x.len() - 1] == '>');
            }
        } else {
            if outside_tags(front) {
                assert forall|i: int|
                    0 <= i < x.len() && #[trigger] x[i] == '<' implies exists|j: int|
                    i < j < x.len() && #[trigger] x[j] == '>' by {
                    assert(front[i] == '<');
                    let j = choose|j: int| i < j < front.len() && #[trigger] front[j] == '>';
                    assert(x[j] == '>');
                }
            }
            if outside_tags(x) {
                assert forall|i: int|
                    0 <= i < front.len() && #[trigger] front[i] == '<' implies exists|j: int|
                    i < j < front.len() && #[trigger] front[j] == '>' by {
                    assert(x[i] == '<');
                    let j = choose|j: int| i < j < x.len() && #[trigger] x[j] == '>';
                    assert(front[j] == '>');
                }
            }
        }
    }
}

/// Outside tags, text is kept as it is.
pub proof fn law_text_between_tags_is_kept(x: Seq<char>, c: char)
    requires
        outside_tags(x),
        c != '<',
    ensures
        without_tags(x.push(c)) == without_tags(x).push(c),
{
    lemma_text_is_state(x);
    lemma_text_is_state(x.push(c));
    lemma_outside(x);
    lemma_state_step(xml_start(), x, c);
}

/// The characters of a tag that is being read.
proof fn lemma_tag_read(x: Seq<char>, t: Seq<char>)
    requires
        !t.contains('<'),
        !t.contains('>'),
    ensures
        xml_state(xml_start(), x + seq!['<'] + t) == (XmlState {
            in_tag: true,
            tag: t,
            out: without_tags(x),
        }),
    decreases t.len(),
{
    let open = x + seq!['<'];
    if t.len() == 0 {
        assert(open + t =~= x.push('<'));
        lemma_state_step(xml_start(), x, '<');
        lemma_text_is_state(x);
        assert(t =~= Seq::<char>::empty());
    } else {
        let front = t.drop_last();
        let c = t.last();
        assert(t.contains(t[t.len() - 1]));
        assert forall|d: char| front.contains(d) implies t.contains(d) by {
            let k = choose|k: int| 0 <= k < front.len() && front[k] == d;
            assert(t[k] == d);
        }
        lemma_tag_read(x, front);
        assert(open + t =~= (open + front).push(c));
        lemma_state_step(xml_start(), open + front, c);
        assert(front.push(c) =~= t);
    }
}

/// A tag is dropped. At the end of a paragraph, of a shared string or of a row stands a line break
/// instead, unless one stands there.
pub proof fn law_tags_are_dropped(x: Seq<char>, t: Seq<char>)
    requires
        !t.contains('<'),
        !t.contains('>'),
    ensures
        ({
            let name = lowercase(t);
            let breaks = "/w:p"@.is_prefix_of(name) || "/text:p"@.is_prefix_of(name)
                || "/a:p"@.is_prefix_of(name) || "/si"@.is_prefix_of(name) || "/row"@.is_prefix_of(
                name,
            ) || "/p"@.is_prefix_of(name);
            let text = without_tags(x);
            without_tags(x + seq!['<'] + t + seq!['>']) == (if breaks && (text.len() == 0
                || text.last() != '\n') {
                text.push('\n')
            } else {
                text
            })
        }),
        without_tags(x + seq!['<'] + t) == without_tags(x),
{
    lemma_tag_read(x, t);
    let open = x + seq!['<'] + t;
    assert(open + seq!['>'] =~= open.push('>'));
    lemma_state_step(xml_start(), open, '>');
    lemma_text_is_state(open);
    lemma_text_is_state(open.push('>'));
}

/// Nothing but text without brackets stands outside tags as it stood, whatever stands before.
proof fn lemma_text_kept_behind(x: Seq<char>, text: Seq<char>)
    requires
        outside_tags(x),
        !text.contains('<'),
    ensures
        without_tags(x + text) == without_tags(x) + text,
        outside_tags(x + text),
    decreases text.len(),
{
    if text.len() == 0 {
        assert(x + text =~= x);
        assert(without_tags(x) + text =~= without_tags(x));
    } else {
        let front = text.drop_last();
        let c = text.last();
        assert(text.contains(text[text.len() - 1]));
        assert(!front.contains('<')) by {
            if front.contains('<') {
                let k = choose|k: int| 0 <= k < front.len() && front[k] == '<';
                assert(text[k] == '<');
            }
        }
        lemma_text_kept_behind(x, front);
        law_text_between_tags_is_kept(x + front, c);
        assert(x + text =~= (x + front).push(c));
        assert((without_tags(x) + front).push(c) =~= without_tags(x) + text);
        lemma_outside(x + front);
        lemma_outside((x + front).push(c));
        lemma_state_step(xml_start(), x + front, c);
    }
}

proof fn lemma_outside_behind_tag(x: Seq<char>, t: Seq<char>)
    requires
        !t.contains('<'),
        !t.contains('>'),
    ensures
        outside_tags(x + seq!['<'] + t + seq!['>']),
{
    let all = x + seq!['<'] + t + seq!['>'];
    assert forall|i: int| 0 <= i < all.len() && #[trigger] all[i] == '<' implies exists|j: int|
        i < j < all.len() && #[trigger] all[j] == '>' by {
        assert(all[all.len() - 1] == '>');
    }
}

/// The XML of some paragraphs: each between an opening and a closing tag.
pub open spec fn paragraphs(open: Seq<char>, close: Seq<char>, texts: Seq<Seq<char>>) -> Seq<char>
    decreases texts.len(),
{
    if texts.len() == 0 {
        Seq::empty()
    } else {
        paragraphs(open, close, texts.drop_last()) + seq!['<'] + open + seq!['>'] + texts.last()
            + seq!['<'] + close + seq!['>']
    }
}

/// Texts with a line break behind each.
pub open spec fn broken_lines(texts: Seq<Seq<char>>) -> Seq<char>
    decreases texts.len(),
{
    if texts.len() == 0 {
        Seq::empty()
    } else {
        broken_lines(texts.drop_last()) + texts.last() + seq!['\n']
    }
}

/// A tag that ends a paragraph, a shared string or a row.
pub open spec fn block_end(close: Seq<char>) -> bool {
    close == "/w:p"@ || close == "/text:p"@ || close == "/a:p"@ || close == "/si"@ || close
        == "/row"@ || close == "/p"@
}

proof fn lemma_paragraph_text(open: Seq<char>, close: Seq<char>, texts: Seq<Seq<char>>)
    requires
        !open.contains('<'),
        !open.contains('>'),
        !ends_block(open),
        !close.contains('<'),
        !close.contains('>'),
        ends_block(close),
        forall|i: int|
            0 <= i < texts.len() ==> (#[trigger] texts[i]).len() > 0 && !texts[i].contains('<')
                && !texts[i].contains('\n'),
    ensures
        without_tags(paragraphs(open, close, texts)) == broken_lines(texts),
        outside_tags(paragraphs(open, close, texts)),
    decreases texts.len(),
{
    if texts.len() == 0 {
        lemma_text_is_state(Seq::empty());
    } else {
        let front = texts.drop_last();
        let last = texts.last();
        assert forall|i: int| 0 <= i < front.len() implies (#[trigger] front[i]).len() > 0
            && !front[i].contains('<') && !front[i].contains('\n') by {
            assert(front[i] == texts[i]);
        }
        assert(texts[texts.len() - 1] == last);
        lemma_paragraph_text(open, close, front);
        let x = paragraphs(open, close, front);
        let opened = x + seq!['<'] + open + seq!['>'];
        law_tags_are_dropped(x, open);
        lemma_outside_behind_tag(x, open);
        lemma_text_kept_behind(opened, last);
        let filled = opened + last;
        law_tags_are_dropped(filled, close);
        lemma_outside_behind_tag(filled, close);
        let text = broken_lines(front) + last;
        assert(text.last() == last.last());
        assert(last.contains(last[last.len() - 1]));
        assert(text.push('\n') =~= broken_lines(texts));
        assert(paragraphs(open, close, texts) =~= filled + seq!['<'] + close + seq!['>']);
    }
}

/// The text of lines with a break behind each has these lines.
proof fn lemma_broken_lines(texts: Seq<Seq<char>>, rest: Seq<char>)
    requires
        forall|i: int|
            0 <= i < texts.len() ==> !(#[trigger] texts[i]).contains('\n') && !texts[i].contains(
                '\r',
            ),
    ensures
        lines_of(broken_lines(texts) + rest) == texts + lines_of(rest),
    decreases texts.len(),
{
    let none = Seq::<char>::empty();
    if texts.len() == 0 {
        assert(broken_lines(texts) + rest =~= rest);
        assert(texts + lines_of(rest) =~= lines_of(rest));
    } else {
        let front = texts.drop_last();
        let last = texts.last();
        assert forall|i: int| 0 <= i < front.len() implies !(#[trigger] front[i]).contains('\n')
            && !front[i].contains('\r') by {
            assert(front[i] == texts[i]);
        }
        assert(!texts[texts.len() - 1].contains('\n'));
        let more = last + (seq!['\n'] + rest);
        assert(broken_lines(texts) + rest =~= broken_lines(front) + more);
        lemma_broken_lines(front, more);
        lemma_line_read(none, last, seq!['\n'] + rest);
        assert(none + last =~= last);
        assert((seq!['\n'] + rest).drop_first() =~= rest);
        if last.len() > 0 {
            assert(last.contains(last[last.len() - 1]));
        }
        assert(lines_of(more) == seq![last] + lines_of(rest));
        assert(front + (seq![last] + lines_of(rest)) =~= texts + lines_of(rest));
    }
}

proof fn lemma_line_read(done: Seq<char>, line: Seq<char>, rest: Seq<char>)
    requires
        !line.contains('\n'),
    ensures
        lines_after(done, line + rest) == lines_after(done + line, rest),
    decreases line.len(),
{
    if line.len() == 0 {
        assert(line + rest =~= rest);
        assert(done + line =~= done);
    } else {
        let tail = line.drop_first();
        assert(line.contains(line[0]));
        assert(!tail.contains('\n')) by {
            if tail.contains('\n') {
                let k = choose|k: int| 0 <= k < tail.len() && tail[k] == '\n';
                assert(line[k + 1] == '\n');
            }
        }
        assert((line + rest).drop_first() =~= tail + rest);
        lemma_line_read(done.push(line[0]), tail, rest);
        assert(done.push(line[0]) + tail =~= done + line);
    }
}

/// The lines of the text that XML stands for are its paragraphs, shared strings or rows.
pub proof fn law_paragraphs_are_lines(open: Seq<char>, close: Seq<char>, texts: Seq<Seq<char>>)
    requires
        block_end(close),
        is_ascii_chars(open),
        open.len() > 0,
        open[0] != '/',
        !open.contains('<'),
        !open.contains('>'),
        forall|i: int|
            0 <= i < texts.len() ==> {
                &&& (#[trigger] texts[i]).len() > 0
                &&& !texts[i].contains('<')
                &&& !texts[i].contains('&')
                &&& !texts[i].contains('\n')
                &&& !texts[i].contains('\r')
            },
    ensures
        lines_of(xml_text(paragraphs(open, close, texts))) == texts,
{
    lemma_block_ends(open, close);
    lemma_paragraph_text(open, close, texts);
    lemma_no_ampersands(texts);
    lemma_no_entities(broken_lines(texts));
    let none = Seq::<char>::empty();
    lemma_broken_lines(texts, none);
    assert(broken_lines(texts) + none =~= broken_lines(texts));
    assert(texts + lines_of(none) =~= texts);
}

proof fn lemma_no_ampersands(texts: Seq<Seq<char>>)
    requires
        forall|i: int| 0 <= i < texts.len() ==> !(#[trigger] texts[i]).contains('&'),
    ensures
        !broken_lines(texts).contains('&'),
    decreases texts.len(),
{
    if texts.len() > 0 {
        let front = texts.drop_last();
        assert forall|i: int| 0 <= i < front.len() implies !(#[trigger] front[i]).contains(
            '&',
        ) by {
            assert(front[i] == texts[i]);
        }
        lemma_no_ampersands(front);
        let a = broken_lines(front);
        let last = texts.last();
        assert(!texts[texts.len() - 1].contains('&'));
        let all = broken_lines(texts);
        assert forall|k: int| 0 <= k < all.len() implies all[k] != '&' by {
            if k < a.len() {
                assert(a.contains(a[k]));
            } else if k < a.len() + last.len() {
                assert(last.contains(last[k - a.len()]));
            }
        }
    }
}

proof fn lemma_block_ends(open: Seq<char>, close: Seq<char>)
    requires
        block_end(close),
        is_ascii_chars(open),
        open.len() > 0,
        open[0] != '/',
    ensures
        !ends_block(open),
        ends_block(close),
        !close.contains('<'),
        !close.contains('>'),
{
    reveal_strlit("/w:p");
    reveal_strlit("/text:p");
    reveal_strlit("/a:p");
    reveal_strlit("/si");
    reveal_strlit("/row");
    reveal_strlit("/p");
    assert(is_ascii_chars(close));
    assert(lowercase(close) =~= close);
    assert(close.take(close.len() as int) =~= close);
    let name = lowercase(open);
    assert(name[0] != '/');
    if ends_block(open) {
        assert(exists|k: int| 0 < k <= name.len() && #[trigger] name.take(k)[0] == '/') by {
            if "/w:p"@.is_prefix_of(name) {
                assert(name.take(4)[0] == '/');
            } else if "/text:p"@.is_prefix_of(name) {
                assert(name.take(7)[0] == '/');
            } else if "/a:p"@.is_prefix_of(name) {
                assert(name.take(4)[0] == '/');
            } else if "/si"@.is_prefix_of(name) {
                assert(name.take(3)[0] == '/');
            } else if "/row"@.is_prefix_of(name) {
                assert(name.take(4)[0] == '/');
            } else {
                assert(name.take(2)[0] == '/');
            }
        }
    }
}

/// The basic entities stand for the characters that they name, and what comes of one is not read
/// again.
pub proof fn law_entities_are_decoded(rest: Seq<char>)
    ensures
        without_entities("&amp;"@ + rest) == seq!['&'] + without_entities(rest),
        without_entities("&lt;"@ + rest) == seq!['<'] + without_entities(rest),
        without_entities("&gt;"@ + rest) == seq!['>'] + without_entities(rest),
        without_entities("&quot;"@ + rest) == seq!['"'] + without_entities(rest),
        without_entities("&apos;"@ + rest) == seq!['\''] + without_entities(rest),
{
    lemma_entity_decoded(0, rest);
    lemma_entity_decoded(1, rest);
    lemma_entity_decoded(2, rest);
    lemma_entity_decoded(3, rest);
    lemma_entity_decoded(4, rest);
}

proof fn lemma_entity_decoded(k: int, rest: Seq<char>)
    requires
        0 <= k < 5,
    ensures
        without_entities(entities()[k].0 + rest) == seq![entities()[k].1] + without_entities(rest),
{
    let s = entities()[k].0 + rest;
    lemma_entities_begin();
    lemma_entity_from(s, 0);
    assert(s.take(entities()[k].0.len() as int) =~= entities()[k].0);
    assert(s.skip(entities()[k].0.len() as int) =~= rest);
    reveal_strlit("&amp;");
    reveal_strlit("&lt;");
    reveal_strlit("&gt;");
    reveal_strlit("&quot;");
    reveal_strlit("&apos;");
    reveal_with_fuel(entity_from, 6);
    assert forall|j: int| 0 <= j < 5 && j != k implies !(#[trigger] entities()[j]).0.is_prefix_of(
        s,
    ) by {
        let e = entities()[j].0;
        if e.is_prefix_of(s) {
            assert(e[1] == s.take(e.len() as int)[1]);
            assert(e[2] == s.take(e.len() as int)[2]);
            assert(s[1] == entities()[k].0[1]);
            assert(s[2] == entities()[k].0[2]);
        }
    }
    assert(entities()[k].0.is_prefix_of(s));
    assert(entity_from(s, 0) == k);
}

/// Any other text stands for itself, an ampersand that begins no basic entity too.
pub proof fn law_other_text_is_not_decoded(c: char, rest: Seq<char>)
    requires
        c == '&' ==> !"amp;"@.is_prefix_of(rest) && !"lt;"@.is_prefix_of(rest)
            && !"gt;"@.is_prefix_of(rest) && !"quot;"@.is_prefix_of(rest) && !"apos;"@.is_prefix_of(
            rest,
        ),
    ensures
        without_entities(seq![c] + rest) == seq![c] + without_entities(rest),
{
    let s = seq![c] + rest;
    lemma_entities_begin();
    lemma_entity_from(s, 0);
    assert(s.drop_first() =~= rest);
    reveal_strlit("&amp;");
    reveal_strlit("&lt;");
    reveal_strlit("&gt;");
    reveal_strlit("&quot;");
    reveal_strlit("&apos;");
    reveal_strlit("amp;");
    reveal_strlit("lt;");
    reveal_strlit("gt;");
    reveal_strlit("quot;");
    reveal_strlit("apos;");
    let k = entity_from(s, 0);
    if k < entities().len() {
        let e = entities()[k].0;
        assert(e[0] == s.take(e.len() as int)[0]);
        let tail = e.drop_first();
        assert(rest.take(tail.len() as int) =~= s.take(e.len() as int).drop_first());
        assert(tail.is_prefix_of(rest));
        if k == 0 {
            assert(tail =~= "amp;"@);
        } else if k == 1 {
            assert(tail =~= "lt;"@);
        } else if k == 2 {
            assert(tail =~= "gt;"@);
        } else if k == 3 {
            assert(tail =~= "quot;"@);
        } else {
            assert(tail =~= "apos;"@);
        }
    }
}

/// The text of an RTF file is what it stands for, unless that is white space only.
pub proof fn law_rtf_documents(raw: String)
    ensures
        ({
            let text = rtf_text(raw@);
            document_text(kind_of("rtf"@), DocumentSource::Text(raw)) == (if exists|i: int|
                0 <= i < text.len() && !whitespace(#[trigger] text[i]) {
                Some(text)
            } else {
                None
            })
        }),
{
    lemma_document_extensions();
    let text = rtf_text(raw@);
    let (from, to) = law_trimmed(text);
    if exists|i: int| 0 <= i < text.len() && !whitespace(#[trigger] text[i]) {
        let i = choose|i: int| 0 <= i < text.len() && !whitespace(#[trigger] text[i]);
        assert(from <= i < to);
    } else if from < to {
        assert(whitespace(text[from]));
    }
}

} // verus!
