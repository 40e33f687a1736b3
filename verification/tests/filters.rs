use turbofind::filters::{
    is_absolute_filter, is_binary_extension, is_document_extension, path_matches,
};

#[test]
fn test_is_absolute_filter() {
    assert!(is_absolute_filter("C:\\Users"));
    assert!(is_absolute_filter("D:\\"));
    assert!(is_absolute_filter("\\\\server\\share"));
    assert!(!is_absolute_filter("src"));
    assert!(!is_absolute_filter("downloads\\foo"));
    assert!(!is_absolute_filter(""));
}

#[test]
fn test_path_matches_absolute() {
    assert!(path_matches("c:\\users\\docs\\file.txt", "c:\\users"));
    assert!(path_matches("c:\\users\\docs\\file.txt", "c:\\users\\docs"));
    assert!(!path_matches("c:\\users\\docs\\file.txt", "d:\\users"));
}

#[test]
fn test_path_matches_relative() {
    assert!(path_matches("c:\\users\\docs\\file.txt", "docs"));
    assert!(path_matches("c:\\users\\docs\\file.txt", "file"));
    assert!(!path_matches("c:\\users\\docs\\file.txt", "photos"));
}

#[test]
fn test_is_binary_extension() {
    assert!(is_binary_extension("exe"));
    assert!(is_binary_extension("jpg"));
    assert!(is_binary_extension("pdf"));
    assert!(is_binary_extension("zip"));
    assert!(!is_binary_extension("rs"));
    assert!(!is_binary_extension("txt"));
    assert!(!is_binary_extension("py"));
    assert!(!is_binary_extension(""));
}

#[test]
fn test_is_document_extension() {
    assert!(is_document_extension("pdf"));
    assert!(is_document_extension("docx"));
    assert!(is_document_extension("xlsx"));
    assert!(is_document_extension("pptx"));
    assert!(is_document_extension("odt"));
    assert!(is_document_extension("ods"));
    assert!(is_document_extension("odp"));
    assert!(is_document_extension("rtf"));
    assert!(!is_document_extension("doc"));
    assert!(!is_document_extension("txt"));
    assert!(!is_document_extension("rs"));
}

#[test]
fn absolute_filters_begin_with_a_drive_letter() {
    assert!(is_absolute_filter("x:"));
    assert!(is_absolute_filter("Z:\\a"));
    assert!(!is_absolute_filter("1:foo"));
    assert!(!is_absolute_filter("::"));
    assert!(!is_absolute_filter("@:x"));
    assert!(!is_absolute_filter(":"));
    assert!(!is_absolute_filter("é:"));
    assert!(!is_absolute_filter("x"));
    assert!(is_absolute_filter("\\"));
    assert!(!is_absolute_filter("/home"));
}

#[test]
fn an_absolute_filter_is_a_prefix_only() {
    assert!(!path_matches("e:\\backup\\c:\\users", "c:\\users"));
    assert!(path_matches("", ""));
    assert!(path_matches("größe\\datei", "öße\\d"));
    assert!(!path_matches("größe", "grösse"));
}

#[test]
fn every_binary_extension_is_known() {
    for ext in [
        "exe", "dll", "so", "dylib", "bin", "obj", "o", "a", "lib", "zip", "rar", "7z", "tar", "gz",
        "bz2", "xz", "zst", "jpg", "jpeg", "png", "gif", "bmp", "ico", "webp", "tiff", "mp3", "wav",
        "flac", "ogg", "m4a", "aac", "wma", "mp4", "mkv", "avi", "mov", "webm", "wmv", "flv", "pdf",
        "doc", "docx", "xls", "xlsx", "ppt", "pptx", "odt", "ods", "odp", "rtf", "msi", "cab",
        "iso", "img", "dmg", "class", "pyc", "pyo", "wasm", "ttf", "otf", "woff", "woff2", "eot",
        "db", "sqlite", "mdb", "pdb", "dmp",
    ] {
        assert!(is_binary_extension(ext), "{}", ext);
    }
    for ext in ["EXE", "exe ", "svg", "md", "sqlite3"] {
        assert!(!is_binary_extension(ext), "{}", ext);
    }
}
