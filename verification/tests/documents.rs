use std::io::{Cursor, Write};

use turbofind::documents::{
    document_kind, extract_document_text, extract_rtf_text, extract_zip_xml_text, is_wanted_part,
    strip_xml_tags, text_of_parts, ArchivePart, DocumentKind, DocumentSource,
};

#[test]
fn test_strip_xml_tags() {
    let xml = "<w:p><w:r><w:t>Hello World</w:t></w:r></w:p>";
    let result = strip_xml_tags(xml);
    assert!(result.contains("Hello World"));
    assert!(!result.contains("<"));
    assert!(!result.contains(">"));
}

#[test]
fn test_strip_xml_entities() {
    let xml = "<t>A &amp; B &lt; C</t>";
    let result = strip_xml_tags(xml);
    assert!(result.contains("A & B < C"));
}

#[test]
fn test_strip_xml_paragraph_breaks() {
    let xml = "<w:p><w:t>Line 1</w:t></w:p><w:p><w:t>Line 2</w:t></w:p>";
    let result = strip_xml_tags(xml);
    let lines: Vec<&str> = result.lines().filter(|l| !l.trim().is_empty()).collect();
    assert_eq!(lines.len(), 2);
}

#[test]
fn test_extract_rtf_basic() {
    let result = extract_rtf_text(r"{\rtf1\ansi Hello World\par Second line}");
    assert!(result.is_some());
    let text = result.unwrap();
    assert!(text.contains("Hello World"));
    assert!(text.contains("Second line"));
}

#[test]
fn test_extract_rtf_hex_escape() {
    let result = extract_rtf_text(r"{\rtf1 caf\'e9}");
    assert!(result.is_some());
    let text = result.unwrap();
    assert!(text.contains("caf\u{e9}"));
}

#[test]
fn test_extract_document_unsupported() {
    assert!(extract_document_text("xyz", DocumentSource::Unread).is_none());
    assert!(extract_document_text("xyz", DocumentSource::Text("text".to_string())).is_none());
    assert!(extract_document_text("xyz", DocumentSource::Bytes(vec![1])).is_none());
}

#[test]
fn xml_breaks_lines_at_the_ends_of_blocks() {
    assert_eq!(strip_xml_tags("<a:p>x</A:P>y"), "x\ny");
    assert_eq!(strip_xml_tags("<si>1</si></row><row>2</row>"), "1\n2\n");
    assert_eq!(strip_xml_tags("a</text:p>b</p>c</q>d"), "a\nb\ncd");
    // a closing bracket outside tags is text
    assert_eq!(strip_xml_tags("a</p>b>c"), "a\nb>c");
    assert_eq!(strip_xml_tags("a<b>c>d"), "ac>d");
    assert_eq!(strip_xml_tags("a > b"), "a > b");
    assert_eq!(strip_xml_tags("x<unclosed"), "x");
    assert_eq!(strip_xml_tags("&quot;&apos;&gt;&unknown;"), "\"'>&unknown;");
}

#[test]
fn entities_are_decoded_once() {
    assert_eq!(strip_xml_tags("&amp;lt;"), "&lt;");
    assert_eq!(strip_xml_tags("&amp;amp;amp;"), "&amp;amp;");
    assert_eq!(strip_xml_tags("&lt;b&gt;&amp;&amp;x;"), "<b>&&x;");
    assert_eq!(strip_xml_tags("&&amp;&am"), "&&&am");
}

#[test]
fn rtf_control_words_and_escapes() {
    assert_eq!(extract_rtf_text("a\\tab b\\line c"), Some("a\tb\nc".to_string()));
    assert_eq!(extract_rtf_text("\\\\\\{\\}x"), Some("\\{}x".to_string()));
    assert_eq!(extract_rtf_text("a\\b-12 c\\fs24d"), Some("acd".to_string()));
    assert_eq!(extract_rtf_text("a\\'4"), Some("a4".to_string()));
    assert_eq!(extract_rtf_text("a\\'zzb"), Some("ab".to_string()));
    assert_eq!(extract_rtf_text("a\\'+fb"), Some("a\u{f}b".to_string()));
    assert_eq!(extract_rtf_text("a\\\nb\r\nc"), Some("abc".to_string()));
    assert_eq!(extract_rtf_text("x\\~y"), Some("x~y".to_string()));
    assert_eq!(extract_rtf_text("x\\-y"), Some("xy".to_string()));
    assert_eq!(extract_rtf_text("é"), Some("\u{c3}\u{a9}".to_string()));
    assert_eq!(extract_rtf_text("x\\"), Some("x".to_string()));
    assert_eq!(extract_rtf_text("{\\par \\tab}"), None);
    assert_eq!(extract_rtf_text(""), None);
    assert_eq!(extract_rtf_text("plain text"), Some("plain text".to_string()));
}

fn zip_of(parts: &[(&str, &[u8])]) -> Vec<u8> {
    let mut writer = zip::ZipWriter::new(Cursor::new(Vec::new()));
    for (name, bytes) in parts {
        writer.start_file(*name, zip::write::SimpleFileOptions::default()).unwrap();
        writer.write_all(bytes).unwrap();
    }
    writer.finish().unwrap().into_inner()
}

#[test]
fn archives_give_the_text_of_their_parts() {
    let bytes = zip_of(&[
        ("word/header1.xml", b"<w:p>Head</w:p>"),
        ("word/document.xml", b"<w:p>Body</w:p>"),
        ("word/styles.xml", b"<x>no</x>"),
        ("word/document.bin", b"no"),
        ("word/footer1.xml", b"\xff\xfe"),
    ]);
    assert_eq!(
        extract_document_text("docx", DocumentSource::Bytes(bytes.clone())),
        Some("Head\n\nBody\n\n".to_string())
    );
    assert_eq!(extract_document_text("pptx", DocumentSource::Bytes(bytes.clone())), None);
    assert_eq!(
        extract_zip_xml_text(bytes, &vec!["word/styles"]),
        Some("no\n".to_string())
    );
    assert_eq!(extract_document_text("docx", DocumentSource::Bytes(b"no zip".to_vec())), None);
    assert_eq!(extract_document_text("docx", DocumentSource::Unread), None);
}

#[test]
fn other_documents_keep_their_text_elsewhere() {
    let sheet = zip_of(&[
        ("xl/sharedStrings.xml", b"<si><t>cell</t></si>"),
        ("xl/worksheets/sheet1.xml", b"<row>7</row>"),
    ]);
    assert_eq!(
        extract_document_text("xlsx", DocumentSource::Bytes(sheet)),
        Some("cell\n\n7\n\n".to_string())
    );
    let slides = zip_of(&[("ppt/slides/slide1.xml", b"<a:p>Slide</a:p>")]);
    assert_eq!(
        extract_document_text("pptx", DocumentSource::Bytes(slides)),
        Some("Slide\n\n".to_string())
    );
    for ext in ["odt", "ods", "odp"] {
        let odf = zip_of(&[("content.xml", b"<text:p>Text</text:p>"), ("meta.xml", b"no")]);
        assert_eq!(
            extract_document_text(ext, DocumentSource::Bytes(odf)),
            Some("Text\n\n".to_string())
        );
    }
    assert_eq!(
        extract_document_text("pdf", DocumentSource::Text("page".to_string())),
        Some("page".to_string())
    );
    assert_eq!(extract_document_text("pdf", DocumentSource::Bytes(vec![1])), None);
    assert_eq!(
        extract_document_text("rtf", DocumentSource::Text("x\\par y".to_string())),
        Some("x\ny".to_string())
    );
    assert_eq!(extract_document_text("rtf", DocumentSource::Unread), None);
}

#[test]
fn parts_are_wanted_by_prefix_and_ending() {
    let prefixes = vec!["word/document", "word/header"];
    assert!(is_wanted_part("word/document2.xml", &prefixes));
    assert!(!is_wanted_part("word/document.xml.rels", &prefixes));
    assert!(!is_wanted_part("xword/document.xml", &prefixes));
    assert!(!is_wanted_part("word/document.xml", &vec![]));
    let parts = vec![
        ArchivePart { name: "word/header.xml".to_string(), text: None },
        ArchivePart { name: "word/document.xml".to_string(), text: Some("<t>x</t>".to_string()) },
        ArchivePart { name: "other.xml".to_string(), text: Some("y".to_string()) },
    ];
    assert_eq!(text_of_parts(&parts, &prefixes), Some("x\n".to_string()));
    assert_eq!(text_of_parts(&Vec::new(), &prefixes), None);
}

#[test]
fn kinds_go_by_the_extension() {
    assert!(document_kind("pdf") == DocumentKind::Pdf);
    assert!(document_kind("ods") == DocumentKind::OpenDocument);
    assert!(document_kind("doc") == DocumentKind::Unsupported);
}
