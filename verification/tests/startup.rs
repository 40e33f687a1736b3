use turbofind::cache::{CacheError, MAX_CACHE_BYTES};
use turbofind::index::{FileIndex, FoundFile};
use turbofind::prompt::{
    complete_path, draw_prompt, name_completes, path_typed, take_prompt_key, Completion, PathMatch,
    PromptStep,
};
use turbofind::session::Key;
use turbofind::startup::{judge_cache, parse_args, same_texts, CacheVerdict, IndexSource};

fn strings(list: &[&str]) -> Vec<String> {
    list.iter().map(|s| s.to_string()).collect()
}

fn sample() -> FileIndex {
    let files = ["readme.txt", "config.rs", "notes.txt", "plain", ".hidden"];
    let found = files
        .iter()
        .map(|name| FoundFile {
            path: format!("C:\\Work\\{}", name),
            name: name.to_string(),
            extension: name.split('.').nth(1).unwrap_or("").to_string(),
            size: name.len() as u64,
            is_dir: *name == "plain",
        })
        .collect();
    FileIndex::build(found, &strings(&["C:\\Work", "D:\\"]), 1234567890123)
}

#[test]
fn test_index_save_load_roundtrip() {
    let index = sample();
    let bytes = index.to_bytes().unwrap();
    let loaded = FileIndex::from_bytes(&bytes).unwrap();
    assert_eq!(loaded.entries.len(), index.entries.len());
    assert_eq!(loaded.roots, index.roots);
    assert_eq!(loaded.ext_map.len(), index.ext_map.len());
}

#[test]
fn everything_comes_back_from_the_cache() {
    let index = sample();
    let loaded = FileIndex::from_bytes(&index.to_bytes().unwrap()).unwrap();
    assert_eq!(loaded.indexed_at, 1234567890123);
    for (a, b) in loaded.entries.iter().zip(&index.entries) {
        assert_eq!(
            (&a.path, &a.path_lower, &a.name, &a.name_lower, a.size, a.is_dir, &a.extension),
            (&b.path, &b.path_lower, &b.name, &b.name_lower, b.size, b.is_dir, &b.extension)
        );
    }
    for ext in ["txt", "rs", "md"] {
        assert_eq!(loaded.ext_map.get(ext), index.ext_map.get(ext));
    }
    assert!(loaded.is_wf());
    assert_eq!(loaded.to_bytes().unwrap(), index.to_bytes().unwrap());
}

#[test]
fn the_bytes_of_an_index_are_those_of_its_fields() {
    let found = vec![FoundFile {
        path: "A".to_string(),
        name: "B.c".to_string(),
        extension: "C".to_string(),
        size: 300,
        is_dir: false,
    }];
    let bytes = FileIndex::build(found, &strings(&["r"]), 5).to_bytes().unwrap();
    let expected = vec![
        1, 1, b'A', 1, b'a', 3, b'B', b'.', b'c', 3, b'b', b'.', b'c', 0xac, 2, 0, 1, b'c', // entries
        1, 1, b'c', 1, 0, // table
        5, // time
        1, 1, b'r', // roots
    ];
    assert_eq!(bytes, expected);
}

#[test]
fn bad_caches_are_refused() {
    assert_eq!(FileIndex::from_bytes(&vec![]).err(), Some(CacheError::Unreadable));
    assert_eq!(FileIndex::from_bytes(&vec![0xff; 40]).err(), Some(CacheError::Unreadable));
    let mut cut = sample().to_bytes().unwrap();
    cut.pop();
    assert_eq!(FileIndex::from_bytes(&cut).err(), Some(CacheError::Unreadable));
    let huge = vec![0u8; MAX_CACHE_BYTES + 1];
    assert_eq!(FileIndex::from_bytes(&huge).err(), Some(CacheError::TooLarge));
    assert_eq!(CacheError::TooLarge.message(), "cache file exceeds 512MB limit");
    assert_eq!(CacheError::Unwritable.message(), "index cannot be written");
    assert_eq!(CacheError::Unreadable.message(), "cache file cannot be read");
}

#[test]
fn the_last_of_two_lists_counts() {
    // two lists for one extension, as no index writes them
    let bytes = vec![0, 2, 1, b'x', 1, 7, 1, b'x', 1, 9, 0, 0];
    let index = FileIndex::from_bytes(&bytes).unwrap();
    assert_eq!(index.ext_map.get("x"), Some(&vec![9]));
    assert_eq!(index.ext_map.len(), 1);
    assert!(!index.is_wf());
}

#[test]
fn arguments_are_flags_and_roots() {
    let args = parse_args(&strings(&["--reindex", "C:\\a", "-x", "--unknown", "."]));
    assert!(args.reindex && !args.no_cache && !args.help);
    assert_eq!(args.roots, vec!["C:\\a", "-x", "."]);
    assert!(parse_args(&strings(&["a", "-h"])).help);
    assert!(parse_args(&strings(&["--help"])).help);
    assert!(parse_args(&strings(&["--no-cache"])).no_cache);
    assert!(parse_args(&Vec::new()).roots.is_empty());
}

#[test]
fn the_cache_is_used_unless_told_otherwise() {
    let source = |list: &[&str], exists| parse_args(&strings(list)).index_source(exists);
    assert!(source(&[], true) == IndexSource::Cache);
    assert!(source(&[], false) == IndexSource::BuildAndSave);
    assert!(source(&["--reindex"], true) == IndexSource::BuildAndSave);
    assert!(source(&["--no-cache"], true) == IndexSource::BuildOnly);
    assert!(source(&["--no-cache", "--reindex"], true) == IndexSource::BuildOnly);
    assert!(parse_args(&Vec::new()).writes_cache());
    assert!(!parse_args(&strings(&["--no-cache"])).writes_cache());
}

#[test]
fn caches_are_judged_by_roots_and_age() {
    let verdict = |a: &[&str], b: &[&str], age| judge_cache(&strings(a), &strings(b), age);
    assert!(verdict(&["a", "b"], &["b", "a"], 3600) == CacheVerdict::Fresh);
    assert!(verdict(&["a", "b"], &["b", "a"], 3601) == CacheVerdict::Stale);
    assert!(verdict(&["a"], &["a", "b"], 9999) == CacheVerdict::OtherRoots);
    assert!(verdict(&["a", "a"], &["a", "b"], 0) == CacheVerdict::OtherRoots);
    assert!(!same_texts(&strings(&["a", "b", "b"]), &strings(&["a", "a", "b"])));
    assert!(same_texts(&strings(&["b", "a", "b"]), &strings(&["b", "b", "a"])));
    assert!(same_texts(&Vec::new(), &Vec::new()));
}

#[test]
fn the_prompt_takes_keys() {
    let mut text = Vec::new();
    assert!(take_prompt_key(&mut text, Key::Backspace) == PromptStep::Nothing);
    assert!(take_prompt_key(&mut text, Key::Char('a')) == PromptStep::Redraw);
    assert!(take_prompt_key(&mut text, Key::Char('é')) == PromptStep::Redraw);
    assert!(take_prompt_key(&mut text, Key::Backspace) == PromptStep::Redraw);
    assert_eq!(text, vec!['a']);
    assert!(take_prompt_key(&mut text, Key::Tab) == PromptStep::Complete);
    assert!(take_prompt_key(&mut text, Key::Enter) == PromptStep::Accept);
    assert!(take_prompt_key(&mut text, Key::Esc) == PromptStep::Cancel);
    assert!(take_prompt_key(&mut text, Key::Up) == PromptStep::Nothing);
    assert_eq!(path_typed("  c:\\x y \t"), Some("c:\\x y".to_string()));
    assert_eq!(path_typed(" \u{3000}"), None);
    assert_eq!(draw_prompt("ab"), "\r  > ab\x1b[K");
}

fn matches_of(n: usize) -> Vec<PathMatch> {
    (0..n)
        .map(|i| PathMatch {
            path: format!("d\\n{}", i),
            name: format!("n{}", i),
            is_dir: i % 2 == 0,
        })
        .collect()
}

#[test]
fn names_complete_without_regard_to_case() {
    assert!(name_completes("Documents", "doc"));
    assert!(name_completes("ÄRGER", "är"));
    assert!(!name_completes("Documents", "Doc"));
    assert!(name_completes("anything", ""));
}

#[test]
fn completions_are_typed_or_listed() {
    assert!(matches!(complete_path(&matches_of(0), "x", '/'), Completion::Nothing));
    match complete_path(&matches_of(1), "x", '/') {
        Completion::Typed(text) => assert_eq!(text, "d\\n0/"),
        _ => panic!("one match is typed"),
    }
    let mut one = matches_of(2);
    one.remove(0);
    match complete_path(&one, "x", '/') {
        Completion::Typed(text) => assert_eq!(text, "d\\n1"),
        _ => panic!("one match is typed"),
    }
    match complete_path(&matches_of(5), "x", '/') {
        Completion::List(text) => {
            assert_eq!(text, "\r\n  n0\\  n1  n2\\  n3\r\n  n4\\\r\n  > x")
        }
        _ => panic!("several matches are listed"),
    }
    match complete_path(&matches_of(17), "", '/') {
        Completion::List(text) => {
            assert!(text.ends_with("\r\n  n12\\  n13  n14\\  ...(2 more)\r\n  > "));
            assert!(!text.contains("n15"));
        }
        _ => panic!("several matches are listed"),
    }
}
