use std::io::{Cursor, Write};

use turbofind::contents::{rank_lines, LineHit};
use turbofind::documents::{document_kind, extract_document_text, DocumentKind, DocumentSource};
use turbofind::index::{FileIndex, FoundFile};
use turbofind::names::{
    hits_for, passes_filters, rank_names, score_match, NameMatch, Scored, SearchHit,
};
use turbofind::pattern::PatternTest;
use turbofind::query::parse_query;
use turbofind::search::SearchPlan;

/// A file or directory under the root, with its contents.
struct Node {
    path: &'static str,
    content: Option<Vec<u8>>,
}

fn file(path: &'static str, content: &str) -> Node {
    Node { path, content: Some(content.as_bytes().to_vec()) }
}

fn dir(path: &'static str) -> Node {
    Node { path, content: None }
}

fn found(root: &str, node: &Node) -> FoundFile {
    let path = if node.path.is_empty() {
        root.to_string()
    } else {
        format!("{}\\{}", root, node.path)
    };
    let name = path.rsplit('\\').next().unwrap().to_string();
    let extension = match name.rfind('.') {
        Some(at) if at > 0 => name[at + 1..].to_string(),
        _ => String::new(),
    };
    FoundFile {
        path,
        name,
        extension,
        size: node.content.as_ref().map_or(4096, |c| c.len() as u64),
        is_dir: node.content.is_none(),
    }
}

/// What can be read of a file, by its extension.
fn text_of(ext: &str, bytes: &[u8]) -> Option<String> {
    match document_kind(ext) {
        DocumentKind::Unsupported => String::from_utf8(bytes.to_vec()).ok(),
        DocumentKind::Rtf => extract_document_text(
            ext,
            DocumentSource::Text(String::from_utf8(bytes.to_vec()).unwrap()),
        ),
        _ => extract_document_text(ext, DocumentSource::Bytes(bytes.to_vec())),
    }
}

/// An index of the nodes under a root whose own name is hidden, and what can be read of each entry.
fn index_of(root: &str, nodes: &[Node]) -> (FileIndex, Vec<Option<String>>) {
    let mut all = vec![found(root, &dir(""))];
    all.extend(nodes.iter().map(|n| found(root, n)));
    let index = FileIndex::build(all, &vec![root.to_string()], 1000);
    let texts = index
        .entries
        .iter()
        .map(|e| {
            let node = nodes.iter().find(|n| format!("{}\\{}", root, n.path) == e.path)?;
            node.content.as_ref().and_then(|c| text_of(&e.extension, c))
        })
        .collect();
    (index, texts)
}

fn build_test_index() -> (FileIndex, Vec<Option<String>>) {
    index_of(
        "c:\\work\\.tmpA1",
        &[
            file("readme.txt", "Hello world"),
            file("config.rs", "fn main() { println!(\"hello\"); }"),
            file("data.json", "{\"key\": \"value\"}"),
            file("notes.txt", "some notes here"),
            file("test.py", "import os\nprint('hello')"),
            dir("subdir"),
            file("subdir\\nested.rs", "// nested rust file\nfn nested() {}"),
            file("subdir\\deep.txt", "deep content with TODO marker"),
        ],
    )
}

fn search<'a>(
    index: &'a FileIndex,
    texts: &Vec<Option<String>>,
    query: &str,
    max: usize,
) -> Vec<SearchHit<'a>> {
    assert!(index.is_wf());
    assert!(index.can_search(query));
    index.search(query, max, texts)
}

#[test]
fn test_index_finds_all_files() {
    let (index, _texts) = build_test_index();
    assert!(index.entries.len() >= 8);
}

#[test]
fn test_index_extension_map() {
    let (index, _texts) = build_test_index();
    assert!(index.ext_map.contains_key("txt"));
    assert!(index.ext_map.contains_key("rs"));
    assert!(index.ext_map.contains_key("json"));
    assert!(index.ext_map.contains_key("py"));
    assert_eq!(index.ext_map.get("txt").unwrap().len(), 3);
    assert_eq!(index.ext_map.get("rs").unwrap().len(), 2);
}

#[test]
fn test_fuzzy_search() {
    let (index, texts) = build_test_index();
    let results = search(&index, &texts, "readme", 100);
    assert!(!results.is_empty());
    assert_eq!(results[0].entry.name, "readme.txt");
}

#[test]
fn test_fuzzy_search_empty_query() {
    let (index, texts) = build_test_index();
    let results = search(&index, &texts, "", 100);
    assert_eq!(results.len(), index.entries.len());
}

#[test]
fn test_extension_filter() {
    let (index, texts) = build_test_index();
    let results = search(&index, &texts, "ext:rs", 100);
    assert_eq!(results.len(), 2);
    for hit in &results {
        assert_eq!(hit.entry.extension, "rs");
    }
}

#[test]
fn test_dir_filter() {
    let (index, texts) = build_test_index();
    let results = search(&index, &texts, "dir:", 100);
    assert!(!results.is_empty());
    for hit in &results {
        assert!(hit.entry.is_dir);
    }
}

#[test]
fn test_regex_search() {
    let (index, texts) = build_test_index();
    let results = search(&index, &texts, "regex:\\.txt$", 100);
    assert_eq!(results.len(), 3);
    for hit in &results {
        assert!(hit.entry.name.ends_with(".txt"));
    }
}

#[test]
fn test_regex_invalid_pattern() {
    let (index, texts) = build_test_index();
    let results = search(&index, &texts, "regex:[invalid", 100);
    assert!(results.is_empty());
}

#[test]
fn test_content_search() {
    let (index, texts) = build_test_index();
    let results = search(&index, &texts, "grep:TODO", 100);
    assert_eq!(results.len(), 1);
    assert_eq!(results[0].entry.name, "deep.txt");
    assert!(results[0].line_num > 0);
    assert!(results[0].line_text.contains("TODO"));
}

#[test]
fn test_content_search_no_match() {
    let (index, texts) = build_test_index();
    let results = search(&index, &texts, "grep:NONEXISTENT_STRING_XYZ", 100);
    assert!(results.is_empty());
}

#[test]
fn test_content_search_with_ext_filter() {
    let (index, texts) = build_test_index();
    let results = search(&index, &texts, "grep:hello ext:rs", 100);
    assert_eq!(results.len(), 1);
    assert_eq!(results[0].entry.extension, "rs");
}

#[test]
fn test_content_search_cancel() {
    let (index, texts) = build_test_index();
    // cancelled before anything was read
    let unread: Vec<Option<String>> = texts.iter().map(|_| None).collect();
    let results = search(&index, &unread, "grep:hello", 100);
    assert!(results.is_empty());
}

#[test]
fn test_path_filter() {
    let (index, texts) = build_test_index();
    let results = search(&index, &texts, "in:subdir", 100);
    assert!(!results.is_empty());
    for hit in &results {
        assert!(hit.entry.path_lower.contains("subdir"));
    }
}

#[test]
fn test_combined_filters() {
    let (index, texts) = build_test_index();
    let results = search(&index, &texts, "ext:txt in:subdir", 100);
    assert_eq!(results.len(), 1);
    assert_eq!(results[0].entry.name, "deep.txt");
}

#[test]
fn test_index_merge() {
    let (mut index_a, _) = index_of("c:\\tmp\\a", &[file("file_a.txt", "aaa")]);
    let (index_b, _) = index_of("c:\\tmp\\b", &[file("file_b.txt", "bbb")]);

    let count_a = index_a.entries.len();
    let count_b = index_b.entries.len();
    index_a.merge(index_b, 2000);

    assert_eq!(index_a.entries.len(), count_a + count_b);
    assert_eq!(index_a.roots.len(), 2);
}

#[test]
fn test_content_search_strips_control_chars() {
    let (index, texts) = index_of(
        "c:\\.t",
        &[file("escape.txt", "normal line\n\x1b[47mwhite background\x1b[0m\n")],
    );
    let results = search(&index, &texts, "grep:white", 100);
    assert_eq!(results.len(), 1);
    assert!(!results[0].line_text.chars().any(|c| c.is_control()));
}

#[test]
fn test_content_search_strips_unicode_line_separators() {
    let (index, texts) = index_of("c:\\.t", &[file("u2028.txt", "prefix\u{2028}needle")]);
    let results = search(&index, &texts, "grep:needle", 100);

    assert_eq!(results.len(), 1);
    assert!(!results[0].line_text.contains('\u{2028}'));
    assert!(results[0].line_text.contains("needle"));
}

#[test]
fn test_hidden_files_skipped() {
    let (index, _) = index_of("c:\\.t", &[file("visible.txt", "yes"), file(".hidden", "no")]);
    let names: Vec<&str> = index.entries.iter().map(|e| e.name.as_str()).collect();
    assert!(names.contains(&"visible.txt"));
    assert!(!names.contains(&".hidden"));
}

#[test]
fn test_max_results_limit() {
    let all = (0..50)
        .map(|i| FoundFile {
            path: format!("c:\\t\\file_{}.txt", i),
            name: format!("file_{}.txt", i),
            extension: "txt".to_string(),
            size: 7,
            is_dir: false,
        })
        .collect();
    let index = FileIndex::build(all, &vec!["c:\\t".to_string()], 0);
    let texts = index.entries.iter().map(|_| None).collect();
    let results = search(&index, &texts, "file", 10);
    assert!(results.len() <= 10);
    assert_eq!(results.len(), 10);
}

#[test]
fn test_content_search_multiple_matches() {
    let (index, texts) = index_of(
        "c:\\.t",
        &[file("multi.txt", "line one TODO\nline two\nline three TODO\nline four TODO\n")],
    );
    let results = search(&index, &texts, "grep:TODO", 100);
    assert_eq!(results.len(), 3);
    assert_eq!(results[0].line_num, 1);
    assert_eq!(results[1].line_num, 3);
    assert_eq!(results[2].line_num, 4);
}

fn many_matches() -> String {
    (0..10).map(|i| format!("line {} MATCH\n", i)).collect()
}

#[test]
fn test_content_search_max_per_file() {
    let (index, texts) = index_of(
        "c:\\.t",
        &[file("many1.txt", &many_matches()), file("many2.txt", &many_matches())],
    );
    let results = search(&index, &texts, "grep:MATCH", 100);
    assert_eq!(results.len(), 10);
}

#[test]
fn test_content_search_single_file_no_cap() {
    let (index, texts) = index_of("c:\\.t", &[file("many.txt", &many_matches())]);
    let results = search(&index, &texts, "grep:MATCH", 100);
    assert_eq!(results.len(), 10);
}

#[test]
fn test_content_search_rtf() {
    let (index, texts) = index_of(
        "c:\\.t",
        &[file("doc.rtf", r"{\rtf1\ansi Important TODO item here\par Done}")],
    );
    let results = search(&index, &texts, "ext:rtf grep:TODO", 100);
    assert_eq!(results.len(), 1);
    assert!(results[0].line_text.contains("TODO"));
}

fn docx(parts: &[(&str, &str)]) -> Vec<u8> {
    let mut zip_writer = zip::ZipWriter::new(Cursor::new(Vec::new()));
    for (name, text) in parts {
        zip_writer.start_file(*name, zip::write::SimpleFileOptions::default()).unwrap();
        zip_writer.write_all(text.as_bytes()).unwrap();
    }
    zip_writer.finish().unwrap().into_inner()
}

#[test]
fn test_docx_extraction_via_zip() {
    let bytes = docx(&[(
        "word/document.xml",
        "<w:document><w:body><w:p><w:r><w:t>Budget Report 2026</w:t></w:r></w:p></w:body></w:document>",
    )]);
    let (index, texts) =
        index_of("c:\\.t", &[Node { path: "test.docx", content: Some(bytes) }]);
    let results = search(&index, &texts, "ext:docx grep:Budget", 100);
    assert_eq!(results.len(), 1);
    assert!(results[0].line_text.contains("Budget"));
}

#[test]
fn documents_are_read_only_where_targeted() {
    let rtf = r"{\rtf1 needle}";
    let (index, texts) =
        index_of("c:\\.t", &[file("a.rtf", rtf), file("b.txt", "needle"), file("c.zip", "needle")]);
    let names = |q: &str| -> Vec<String> {
        search(&index, &texts, q, 100).iter().map(|h| h.entry.name.clone()).collect()
    };
    assert_eq!(names("grep:needle"), vec!["b.txt"]);
    assert_eq!(names("grep:needle ext:rtf"), vec!["a.rtf"]);
    assert_eq!(names("grep:needle in:a.rtf"), vec!["a.rtf"]);
    assert_eq!(names("grep:needle in:c:"), vec!["a.rtf", "b.txt"]);
    // files that are neither text nor documents are never read
    assert_eq!(names("grep:needle ext:zip"), Vec::<String>::new());
    assert_eq!(names("grep:needle in:c.zip"), Vec::<String>::new());
    assert_eq!(names("grep:needle ext:none"), Vec::<String>::new());
}

#[test]
fn empty_and_large_files_are_not_read() {
    let sizes = [0u64, 1, 10 * 1024 * 1024, 10 * 1024 * 1024 + 1];
    let all = sizes
        .iter()
        .enumerate()
        .map(|(i, &size)| FoundFile {
            path: format!("c:\\{}.txt", i),
            name: format!("{}.txt", i),
            extension: "txt".to_string(),
            size,
            is_dir: false,
        })
        .collect();
    let index = FileIndex::build(all, &vec![], 0);
    let texts: Vec<Option<String>> = sizes.iter().map(|_| Some("x".to_string())).collect();
    let names: Vec<String> =
        search(&index, &texts, "grep:x", 100).iter().map(|h| h.entry.name.clone()).collect();
    assert_eq!(names, vec!["1.txt", "2.txt"]);
}

#[test]
fn content_results_come_by_path_and_line() {
    let (index, texts) = index_of(
        "c:\\.t",
        &[file("b.txt", "x\ny\nx"), file("a.txt", "y\nX"), file("a\\z.txt", "x")],
    );
    let places: Vec<(String, usize)> = search(&index, &texts, "grep:x", 100)
        .iter()
        .map(|h| (h.entry.path.clone(), h.line_num))
        .collect();
    assert_eq!(
        places,
        vec![
            ("c:\\.t\\a.txt".to_string(), 2),
            ("c:\\.t\\a\\z.txt".to_string(), 1),
            ("c:\\.t\\b.txt".to_string(), 1),
            ("c:\\.t\\b.txt".to_string(), 3),
        ]
    );
    assert_eq!(search(&index, &texts, "grep:x", 2).len(), 2);
}

#[test]
fn content_lines_are_trimmed_and_cut() {
    let long = format!("   {}needle\t", "é".repeat(300));
    let (index, texts) = index_of("c:\\.t", &[file("a.txt", &long)]);
    let results = search(&index, &texts, "grep:NEEDLE", 10);
    assert_eq!(results.len(), 1);
    assert_eq!(results[0].line_text, "é".repeat(200));
    assert_eq!(results[0].score, 0);
}

#[test]
fn content_search_takes_regular_expressions() {
    let (index, texts) = index_of("c:\\.t", &[file("a.rs", "fn main() {}\nlet x;\nFN other()")]);
    let lines: Vec<usize> = search(&index, &texts, "grep:fn\\s+\\w+ regex:", 10)
        .iter()
        .map(|h| h.line_num)
        .collect();
    assert_eq!(lines, vec![1, 3]);
    assert!(search(&index, &texts, "grep:fn( regex:", 10).is_empty());
    assert!(search(&index, &texts, "grep:", 10).is_empty());
    assert!(search(&index, &texts, "grep:fn(", 10).is_empty());
}

#[test]
fn regular_expressions_keep_the_order_of_the_index() {
    let (index, texts) = build_test_index();
    let names: Vec<&str> = search(&index, &texts, "re:T$ ", 2)
        .iter()
        .map(|h| h.entry.name.as_str())
        .collect();
    assert_eq!(names, vec!["readme.txt", "notes.txt"]);
    // a flag without a pattern filters only
    assert_eq!(search(&index, &texts, "regex:", 100).len(), index.entries.len());
    // a pattern that compiles to too much is refused
    assert!(search(&index, &texts, "re:(\\w{900}){900}", 100).is_empty());
}

#[test]
fn exact_names_come_before_fuzzy_ones() {
    let (index, texts) = index_of(
        "c:\\.t",
        &[file("m_a_i_n.txt", "x"), file("domain.rs", "x"), file("other.md", "x")],
    );
    let results = search(&index, &texts, "MAIN", 100);
    let names: Vec<&str> = results.iter().map(|h| h.entry.name.as_str()).collect();
    assert_eq!(names, vec!["domain.rs", "m_a_i_n.txt"]);
    assert!(results[0].score >= 10000 && results[1].score < 10000);
    assert!(results[1].score > 0);
}

#[test]
fn ranges_of_a_name_search_add_up() {
    let (index, texts) = build_test_index();
    for query in ["e", "", "re:t", "in:subdir", "zzzz"] {
        let search_plan = index.plan(query);
        let names = match &search_plan {
            SearchPlan::Names(names) => names,
            _ => panic!("no search of names"),
        };
        let n = index.entries.len();
        let mut parts = names.scan(&index, 0, 3);
        parts.extend(names.scan(&index, 3, 7));
        parts.extend(names.scan(&index, 7, n));
        let shown = names.rank(&parts, 4);
        let pieced: Vec<&str> =
            hits_for(&index, &shown).iter().map(|h| h.entry.name.as_str()).collect();
        let whole: Vec<&str> =
            search(&index, &texts, query, 4).iter().map(|h| h.entry.name.as_str()).collect();
        assert_eq!(pieced, whole, "{}", query);
    }
}

#[test]
fn plans_go_by_the_query() {
    let (index, _) = build_test_index();
    assert!(matches!(index.plan("abc"), SearchPlan::Names(_)));
    assert!(matches!(index.plan("re:("), SearchPlan::Nothing));
    assert!(matches!(index.plan("grep:"), SearchPlan::Nothing));
    match index.plan("grep:x ext:rs") {
        SearchPlan::Contents(search) => {
            assert_eq!(search.candidates(), index.ext_map.get("rs").unwrap());
            let lines = search.scan(1, "a\nx y\nX");
            let numbers: Vec<(usize, usize)> =
                lines.iter().map(|l| (l.position, l.line_num)).collect();
            assert_eq!(numbers, vec![(1, 2), (1, 3)]);
        }
        _ => panic!("no search of contents"),
    }
}

#[test]
fn scores_follow_from_matches() {
    assert_eq!(score_match(NameMatch::NoText, true), Some(0));
    assert_eq!(score_match(NameMatch::Regex(true), true), Some(0));
    assert_eq!(score_match(NameMatch::Regex(false), true), None);
    assert_eq!(score_match(NameMatch::Fuzzy(None), true), None);
    assert_eq!(score_match(NameMatch::Fuzzy(Some(7)), false), Some(7));
    assert_eq!(score_match(NameMatch::Fuzzy(Some(7)), true), Some(10007));
}

#[test]
fn ranking_is_stable_and_cuts() {
    let found: Vec<Scored> = [(0, 5), (1, 9), (2, 5), (3, 9), (4, 1)]
        .iter()
        .map(|&(position, score)| Scored { position, score })
        .collect();
    let order = |q: &str, max: usize| -> Vec<usize> {
        rank_names(&found, &parse_query(q), max).iter().map(|s| s.position).collect()
    };
    assert_eq!(order("x", 10), vec![1, 3, 0, 2, 4]);
    assert_eq!(order("x", 3), vec![1, 3, 0]);
    assert_eq!(order("re:x", 3), vec![0, 1, 2]);
    assert_eq!(order("x", 0), Vec::<usize>::new());
}

#[test]
fn ranking_agrees_with_a_std_sort() {
    let mut n: u64 = 42;
    for size in [0usize, 1, 2, 3, 10, 257] {
        let found: Vec<Scored> = (0..size)
            .map(|position| {
                n = n.wrapping_mul(6364136223846793005).wrapping_add(1442695040888963407);
                Scored { position, score: (n >> 60) as i64 }
            })
            .collect();
        let mut expected: Vec<(i64, usize)> = found.iter().map(|s| (s.score, s.position)).collect();
        expected.sort_by(|a, b| b.0.cmp(&a.0));
        let ranked: Vec<(i64, usize)> = rank_names(&found, &parse_query("x"), size)
            .iter()
            .map(|s| (s.score, s.position))
            .collect();
        assert_eq!(ranked, expected);
    }
}

#[test]
fn lines_are_ranked_by_the_bytes_of_the_path() {
    let (index, _) = index_of("c:\\.t", &[file("é", "x"), file("z", "x"), file("Z", "x")]);
    let found: Vec<LineHit> = [(0, 2), (1, 1), (2, 1), (0, 1)]
        .iter()
        .map(|&(position, line_num)| LineHit {
            position,
            line_num,
            line_text: format!("{}", position),
        })
        .collect();
    let places: Vec<(String, usize, String)> = rank_lines(&index, &found, 10)
        .iter()
        .map(|h| (h.entry.name.clone(), h.line_num, h.line_text.clone()))
        .collect();
    assert_eq!(
        places,
        vec![
            ("Z".to_string(), 1, "2".to_string()),
            ("z".to_string(), 1, "1".to_string()),
            ("é".to_string(), 1, "0".to_string()),
            ("é".to_string(), 2, "0".to_string()),
        ]
    );
}

#[test]
fn filters_apply_together() {
    let (index, _) = build_test_index();
    let entry = index.entries.iter().find(|e| e.name == "deep.txt").unwrap();
    let passes = |q: &str| passes_filters(entry, &parse_query(q));
    assert!(passes("ext:txt in:subdir"));
    assert!(!passes("ext:rs in:subdir"));
    assert!(!passes("ext:txt in:other"));
    assert!(!passes("ext:txt dir:"));
    assert!(passes("in:C:\\WORK"));
}

#[test]
fn completing_keeps_the_result() {
    let (index, texts) = build_test_index();
    let query = "ext:txt deep";
    let hit = &search(&index, &texts, query, 10)[0];
    let completed = turbofind::query::complete_in_filter(query, &hit.entry.path);
    let again = search(&index, &texts, &completed, 10);
    assert_eq!(again.len(), 1);
    assert_eq!(again[0].entry.path, hit.entry.path);
}

#[test]
fn merging_keeps_the_table_in_step() {
    let (mut a, _) = build_test_index();
    let (b, _) = index_of("c:\\.u", &[file("new.rs", "x"), file("new.md", "x"), dir("plain")]);
    let base = a.entries.len();
    a.merge(b, 7);
    assert_eq!(a.indexed_at, 7);
    assert_eq!(a.ext_map.get("md"), Some(&vec![base + 1]));
    assert_eq!(a.ext_map.get("rs").unwrap().last(), Some(&base));
    for i in 0..a.ext_map.len() {
        let (ext, list) = a.ext_map.at(i);
        let expected: Vec<usize> =
            (0..a.entries.len()).filter(|&p| &a.entries[p].extension == ext).collect();
        assert_eq!(list, &expected);
    }
    assert!(a.is_wf());
    // a root that is there already is not added again
    let (c, _) = index_of("c:\\.u", &[]);
    a.merge(c, 8);
    assert_eq!(a.roots, vec!["c:\\work\\.tmpA1".to_string(), "c:\\.u".to_string()]);
}

#[test]
fn long_names_and_queries_are_told_apart() {
    let long = "a".repeat(3000);
    let index = FileIndex::build(
        vec![FoundFile {
            path: long.clone(),
            name: long.clone(),
            extension: String::new(),
            size: 1,
            is_dir: false,
        }],
        &vec![],
        0,
    );
    assert!(index.can_search("aaa"));
    assert!(!index.can_search(&long));
    assert!(index.can_search(&format!("re:{}", long)));
    assert!(index.can_search(&format!("grep:{}", long)));
    assert!(index.can_search(&long[..2520]));
    let texts = vec![None];
    assert_eq!(index.search(&long[..2520], 1, &texts).len(), 1);
}

#[test]
fn patterns_beyond_ascii_may_grow() {
    // backslashes in a word beyond ASCII are written twice
    let name = format!("{}é", "\\".repeat(5038));
    let index = FileIndex::build(
        vec![FoundFile {
            path: name.clone(),
            name,
            extension: String::new(),
            size: 1,
            is_dir: false,
        }],
        &vec![],
        0,
    );
    assert!(!index.can_search(&format!("{}é", "\\".repeat(2519))));
    assert!(!index.can_search(&"é".repeat(1261)));
    assert!(index.can_search(&"é".repeat(1260)));
    assert!(index.search(&"é".repeat(1260), 1, &vec![None]).is_empty());
    assert_eq!(index.search("é", 1, &vec![None]).len(), 1);
}

#[test]
fn letters_that_fold_though_lowercase_are_told_apart() {
    let (index, texts) = index_of("c:\\.t", &[file("ſxsé", "x")]);
    assert!(!index.can_search("sé"));
    assert!(!index.can_search("é S"));
    assert!(index.can_search("s"));
    assert!(index.can_search("é"));
    assert!(index.can_search("grep:sé"));
    assert!(index.can_search("re:sé"));
    assert_eq!(search(&index, &texts, "é", 100).len(), 1);
    assert_eq!(search(&index, &texts, "s", 100).len(), 1);

    let names = [file("5µm für.txt", "x"), file("ὁδός", "x"), file("straße.txt", "x")];
    let (index, texts) = index_of("c:\\.t", &names);
    for (query, count) in [("für", 1), ("ὁδός", 1), ("µm", 1), ("straße", 1), ("öß", 0)] {
        assert!(index.can_search(query));
        assert_eq!(search(&index, &texts, query, 100).len(), count);
    }
    assert!(!index.can_search("ü σ"));
}

#[test]
fn patterns_tell_which_names_they_take() {
    let test = PatternTest::new("sé");
    assert!(test.takes("xsé"));
    assert!(test.takes("ςµ"));
    assert!(!test.takes("ſ"));
    assert!(!test.takes("\u{1e9b}"));
    let greek = PatternTest::new("éσ");
    assert!(greek.takes("ſσ"));
    for c in ['µ', 'ς', '\u{345}', '\u{3f5}', '\u{13f8}', '\u{1c88}', '\u{1fbe}', '\u{ab70}'] {
        assert!(!greek.takes(&format!("a{}", c)));
        assert!(PatternTest::new("σ").takes(&format!("a{}", c)));
        assert!(PatternTest::new("é").takes(&format!("a{}", c)));
    }
}

#[test]
fn only_names_that_pass_the_filters_have_to_be_scored() {
    let (index, texts) =
        index_of("c:\\.t", &[file("ſxsé.txt", "x"), file("sé.rs", "x"), dir("sé")]);
    assert!(!index.can_search("sé"));
    assert!(!index.can_search("sé ext:txt"));
    assert!(index.can_search("sé ext:rs"));
    assert!(index.can_search("dir: sé"));
    assert_eq!(search(&index, &texts, "sé ext:rs", 100).len(), 1);
    assert_eq!(search(&index, &texts, "dir: sé", 100).len(), 1);
}

#[test]
fn directories_only_have_no_contents() {
    let (index, texts) =
        index_of("c:\\.t", &[file("hello.txt", "hello"), dir("hello"), file("a.txt", "hello")]);
    assert_eq!(search(&index, &texts, "grep:hello", 100).len(), 2);
    assert!(search(&index, &texts, "dir: grep:hello", 100).is_empty());
    assert!(search(&index, &texts, "folder: content:hello ext:txt", 100).is_empty());
    assert!(matches!(index.plan("dir: grep:hello"), SearchPlan::Nothing));
    let dirs = search(&index, &texts, "dir: hello", 100);
    assert_eq!(dirs.len(), 1);
    assert!(dirs[0].entry.is_dir);
}

#[test]
fn spellings_of_a_query_find_the_same() {
    let (index, texts) = build_test_index();
    let hits = |q: &str| -> Vec<(String, usize, i64)> {
        search(&index, &texts, q, 100)
            .iter()
            .map(|h| (h.entry.path.clone(), h.line_num, h.score))
            .collect()
    };
    for (a, b) in [
        ("grep:hello ext:rs", "content:hello ext:.RS"),
        ("regex:main in:C:\\Work", "re:main in:c:/work"),
        ("dir: in:WORK", "folder: in:work"),
        ("ext:txt r", "ext:..T.xt r"),
    ] {
        assert_eq!(hits(a), hits(b));
    }
    assert!(!hits("ext:txt").is_empty() || !hits("ext:rs").is_empty());
}

#[test]
fn spellings_beyond_ascii_find_the_same() {
    let (index, texts) = index_of("c:\\.t", &[file("É\\x.é", "x"), file("É\\x.txt", "x")]);
    for query in ["ext:é", "ext:.É", "ext:É in:é\\x"] {
        let hits = search(&index, &texts, query, 100);
        assert_eq!(hits.len(), 1);
        assert_eq!(hits[0].entry.name, "x.é");
    }
    for query in ["in:É/x", "in:é\\X"] {
        assert_eq!(search(&index, &texts, query, 100).len(), 2);
    }
}

#[test]
fn merged_indexes_are_those_of_both_roots() {
    let a = [file("a.rs", "x"), file("b.txt", "x")];
    let b = [file("c.rs", "x"), dir("d"), file("e.RS", "x")];
    let found_in = |root: &str, nodes: &[Node]| -> Vec<FoundFile> {
        nodes.iter().map(|n| found(root, n)).collect()
    };
    let mut merged = FileIndex::build(found_in("c:\\a", &a), &vec![], 1);
    merged.merge(FileIndex::build(found_in("c:\\b", &b), &vec![], 2), 3);
    let mut both = found_in("c:\\a", &a);
    both.extend(found_in("c:\\b", &b));
    let whole = FileIndex::build(both, &vec![], 3);
    assert_eq!(merged.to_bytes().unwrap(), whole.to_bytes().unwrap());
    assert_eq!(merged.ext_map.get("rs"), Some(&vec![0, 2, 4]));
}

#[test]
fn merging_takes_what_can_be_moved_up() {
    let (mut index, _) = build_test_index();
    let base = index.entries.len();
    let (mut other, _) = index_of("c:\\.u", &[]);
    other.ext_map.set_list("md", vec![7, usize::MAX - base]);
    index.merge(other, 1);
    assert_eq!(index.ext_map.get("md"), Some(&vec![base + 7, usize::MAX]));
    assert!(!index.is_wf());
}

#[test]
fn an_index_with_wild_positions_is_noticed() {
    let (mut index, _) = build_test_index();
    assert!(index.is_wf());
    index.ext_map.set_list("rs", vec![0, 99]);
    assert!(!index.is_wf());
}
