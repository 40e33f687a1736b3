use turbofind::query::{
    complete_in_filter, extract_search_term, is_content_query, parse_query, split_query,
};

#[test]
fn test_extract_search_term_grep() {
    assert_eq!(extract_search_term("grep:TODO"), "TODO");
    assert_eq!(extract_search_term("content:hello"), "hello");
    assert_eq!(extract_search_term("grep:foo ext:rs"), "foo");
}

#[test]
fn test_extract_search_term_plain() {
    assert_eq!(extract_search_term("config"), "config");
    assert_eq!(extract_search_term("ext:rs main"), "main");
}

#[test]
fn test_split_query_simple() {
    let parts = split_query("ext:rs config");
    assert_eq!(parts, vec!["ext:rs", "config"]);
}

#[test]
fn test_split_query_quoted_path() {
    let parts = split_query("in:\"C:\\Path With Spaces\\file.docx\" grep:hello");
    assert_eq!(parts, vec!["in:C:\\Path With Spaces\\file.docx", "grep:hello"]);
}

#[test]
fn test_split_query_no_quotes() {
    let parts = split_query("in:C:\\NoSpaces\\file.rs grep:test");
    assert_eq!(parts, vec!["in:C:\\NoSpaces\\file.rs", "grep:test"]);
}

#[test]
fn test_split_query_empty() {
    let parts = split_query("");
    assert!(parts.is_empty());
}

#[test]
fn split_query_drops_empty_tokens_and_quotes() {
    assert_eq!(split_query("  a   b  "), vec!["a", "b"]);
    assert_eq!(split_query("\"\" x"), vec!["x"]);
    assert_eq!(split_query("a\"b c\"d"), vec!["ab cd"]);
    assert_eq!(split_query("\"open to the end "), vec!["open to the end "]);
    assert_eq!(split_query("é\u{a0}ü"), vec!["é\u{a0}ü"]);
}

#[test]
fn parse_query_reads_every_filter() {
    let q = parse_query("ext:.RS in:Src/Utils dir: re:^lib main");
    assert_eq!(q.ext_filter.as_deref(), Some("rs"));
    assert_eq!(q.path_filter.as_deref(), Some("src\\utils"));
    assert!(q.dir_only);
    assert!(q.use_regex);
    assert!(!q.content_search);
    assert_eq!(q.search_query, "^lib main");
}

#[test]
fn parse_query_combines_grep_and_terms() {
    let q = parse_query("grep:fn\\s+\\w+ regex: extra");
    assert!(q.content_search && q.use_regex);
    assert_eq!(q.search_query, "fn\\s+\\w+ extra");
    let q = parse_query("grep: hello world");
    assert!(q.content_search);
    assert_eq!(q.search_query, "hello world");
    let q = parse_query("grep:a content:b grep:");
    assert_eq!(q.search_query, "b");
    assert_eq!(parse_query("in:").path_filter, None);
    assert_eq!(parse_query("ext:").ext_filter.as_deref(), Some(""));
    assert_eq!(parse_query("ext:a ext:b").ext_filter.as_deref(), Some("b"));
}

#[test]
fn parse_query_knows_the_other_names() {
    assert!(parse_query("folder:").dir_only);
    assert!(!parse_query("dir:x").dir_only);
    assert_eq!(parse_query("dir:x").search_query, "dir:x");
    assert!(parse_query("regex:x").use_regex);
    assert_eq!(parse_query("regex:x").search_query, parse_query("re:x").search_query);
    assert_eq!(parse_query("content:x").search_query, parse_query("grep:x").search_query);
}

#[test]
fn parse_query_lowercases_beyond_ascii() {
    assert_eq!(parse_query("in:ÄÖÜ").path_filter.as_deref(), Some("äöü"));
    assert_eq!(parse_query("ext:ÉX").ext_filter.as_deref(), Some("éx"));
}

#[test]
fn content_queries_are_seen_by_their_words() {
    assert!(is_content_query("grep:"));
    assert!(is_content_query("ext:rs\tcontent:x"));
    assert!(is_content_query("a\u{3000}grep:b"));
    assert!(!is_content_query("xgrep:"));
    assert!(!is_content_query("\"grep:x\""));
    assert!(!is_content_query(""));
}

#[test]
fn completing_replaces_the_in_filter() {
    assert_eq!(
        complete_in_filter("in:down budget", "c:\\My Docs\\a.txt"),
        "in:\"c:\\My Docs\\a.txt\" budget"
    );
    assert_eq!(complete_in_filter("in:x in:y", "c:\\a"), "in:c:\\a");
    let done = complete_in_filter("ext:rs in:x main", "c:\\A b");
    assert_eq!(split_query(&done), vec!["in:c:\\A b", "ext:rs", "main"]);
    let q = parse_query(&done);
    assert_eq!(q.path_filter.as_deref(), Some("c:\\a b"));
    assert_eq!(q.ext_filter.as_deref(), Some("rs"));
    assert_eq!(q.search_query, "main");
}

#[test]
fn words_joined_with_spaces_split_again() {
    let words = vec!["in:c:\\x", "grep:TODO", "é"];
    assert_eq!(split_query(&words.join(" ")), words);
}

#[test]
fn tokens_of_two_queries_add_up() {
    for left in ["", "ext:rs", " a  b ", "in:c:\\x grep:y"] {
        for right in ["", "main", "in:\"c:\\my docs\" z", "\"open"] {
            let mut expected = split_query(left);
            expected.extend(split_query(right));
            assert_eq!(split_query(&format!("{} {}", left, right)), expected);
        }
    }
}

#[test]
fn content_queries_are_those_that_search_contents() {
    for query in ["grep:x", "ext:rs content:", "regex:a grep:b c", "xgrep:y", "in:grep:z", "", "a b"] {
        assert_eq!(is_content_query(query), parse_query(query).content_search);
    }
    // quotes part the two
    assert!(!is_content_query("\"grep:x\"") && parse_query("\"grep:x\"").content_search);
}
