//! Which paths and files the filters let through.
use vstd::prelude::*;

use crate::filters::{binary_extension, document_extension, path_passes};
use crate::index::{entries_for, EntryModel, FoundFile};
use crate::screen::{preview_kind_of, tag_of};
use crate::text::lowercase;
use crate::text_laws::law_occurs;

verus! {

/// A full path, with a drive or a backslash in front, lets through the paths that begin with it; any
/// other filter lets through the paths that hold it anywhere.
pub proof fn law_path_filter(path: Seq<char>, pf: Seq<char>)
    ensures
        ({
            let drive = pf.len() >= 2 && ('a' <= pf[0] <= 'z' || 'A' <= pf[0] <= 'Z') && pf[1]
                == ':';
            let rooted = pf.len() >= 1 && pf[0] == '\\';
            path_passes(path, pf) <==> if drive || rooted {
                exists|b: Seq<char>| path == #[trigger] (pf + b)
            } else {
                exists|a: Seq<char>, b: Seq<char>| path == #[trigger] (a + pf + b)
            }
        }),
{
    law_occurs(path, pf);
    if pf.is_prefix_of(path) {
        assert(path =~= pf + path.skip(pf.len() as int));
    }
    if exists|b: Seq<char>| path == #[trigger] (pf + b) {
        let b = choose|b: Seq<char>| path == #[trigger] (pf + b);
        assert(path.take(pf.len() as int) =~= pf);
    }
}

/// A filter lets through the whole of what stands under a path that it lets through: a path that is
/// longer at its end passes too.
pub proof fn law_path_filter_takes_what_is_below(path: Seq<char>, below: Seq<char>, pf: Seq<char>)
    requires
        path_passes(path, pf),
    ensures
        path_passes(path + below, pf),
{
    law_path_filter(path, pf);
    law_path_filter(path + below, pf);
    if exists|b: Seq<char>| path == #[trigger] (pf + b) {
        let b = choose|b: Seq<char>| path == #[trigger] (pf + b);
        assert(path + below =~= pf + (b + below));
    }
    if exists|a: Seq<char>, b: Seq<char>| path == #[trigger] (a + pf + b) {
        let (a, b) = choose|a: Seq<char>, b: Seq<char>| path == #[trigger] (a + pf + b);
        assert(path + below =~= a + pf + (b + below));
    }
}

/// The documents that text can be extracted from.
pub proof fn law_document_extensions(ext: Seq<char>)
    ensures
        document_extension(ext) <==> seq![
            "pdf"@,
            "docx"@,
            "xlsx"@,
            "pptx"@,
            "odt"@,
            "ods"@,
            "odp"@,
            "rtf"@,
        ].contains(ext),
        document_extension(ext) ==> binary_extension(ext),
{
    let all = seq!["pdf"@, "docx"@, "xlsx"@, "pptx"@, "odt"@, "ods"@, "odp"@, "rtf"@];
    assert(all[0] == "pdf"@ && all[1] == "docx"@ && all[2] == "xlsx"@ && all[3] == "pptx"@);
    assert(all[4] == "odt"@ && all[5] == "ods"@ && all[6] == "odp"@ && all[7] == "rtf"@);
}

/// The files that are no text: programs, archives, pictures, sound, films, office documents, disk
/// images, compiled code, fonts and databases.
pub proof fn law_binary_extensions(ext: Seq<char>)
    ensures
        binary_extension(ext) <==> {
            ||| seq!["exe"@, "dll"@, "so"@, "dylib"@, "bin"@, "obj"@, "o"@, "a"@, "lib"@].contains(
                ext,
            )
            ||| seq!["zip"@, "rar"@, "7z"@, "tar"@, "gz"@, "bz2"@, "xz"@, "zst"@].contains(ext)
            ||| seq![
                "jpg"@,
                "jpeg"@,
                "png"@,
                "gif"@,
                "bmp"@,
                "ico"@,
                "webp"@,
                "tiff"@,
            ].contains(ext)
            ||| seq!["mp3"@, "wav"@, "flac"@, "ogg"@, "m4a"@, "aac"@, "wma"@].contains(ext)
            ||| seq!["mp4"@, "mkv"@, "avi"@, "mov"@, "webm"@, "wmv"@, "flv"@].contains(ext)
            ||| seq![
                "pdf"@,
                "doc"@,
                "docx"@,
                "xls"@,
                "xlsx"@,
                "ppt"@,
                "pptx"@,
                "odt"@,
                "ods"@,
                "odp"@,
                "rtf"@,
            ].contains(ext)
            ||| seq!["msi"@, "cab"@, "iso"@, "img"@, "dmg"@].contains(ext)
            ||| seq!["class"@, "pyc"@, "pyo"@, "wasm"@].contains(ext)
            ||| seq!["ttf"@, "otf"@, "woff"@, "woff2"@, "eot"@].contains(ext)
            ||| seq!["db"@, "sqlite"@, "mdb"@, "pdb"@, "dmp"@].contains(ext)
        },
{
    let a = seq!["exe"@, "dll"@, "so"@, "dylib"@, "bin"@, "obj"@, "o"@, "a"@, "lib"@];
    assert(a[0] == "exe"@ && a[1] == "dll"@ && a[2] == "so"@ && a[3] == "dylib"@ && a[4] == "bin"@);
    assert(a[5] == "obj"@ && a[6] == "o"@ && a[7] == "a"@ && a[8] == "lib"@);
    let b = seq!["zip"@, "rar"@, "7z"@, "tar"@, "gz"@, "bz2"@, "xz"@, "zst"@];
    assert(b[0] == "zip"@ && b[1] == "rar"@ && b[2] == "7z"@ && b[3] == "tar"@ && b[4] == "gz"@);
    assert(b[5] == "bz2"@ && b[6] == "xz"@ && b[7] == "zst"@);
    let c = seq!["jpg"@, "jpeg"@, "png"@, "gif"@, "bmp"@, "ico"@, "webp"@, "tiff"@];
    assert(c[0] == "jpg"@ && c[1] == "jpeg"@ && c[2] == "png"@ && c[3] == "gif"@ && c[4] == "bmp"@);
    assert(c[5] == "ico"@ && c[6] == "webp"@ && c[7] == "tiff"@);
    let d = seq!["mp3"@, "wav"@, "flac"@, "ogg"@, "m4a"@, "aac"@, "wma"@];
    assert(d[0] == "mp3"@ && d[1] == "wav"@ && d[2] == "flac"@ && d[3] == "ogg"@ && d[4] == "m4a"@);
    assert(d[5] == "aac"@ && d[6] == "wma"@);
    let e = seq!["mp4"@, "mkv"@, "avi"@, "mov"@, "webm"@, "wmv"@, "flv"@];
    assert(e[0] == "mp4"@ && e[1] == "mkv"@ && e[2] == "avi"@ && e[3] == "mov"@ && e[4] == "webm"@);
    assert(e[5] == "wmv"@ && e[6] == "flv"@);
    let f = seq![
        "pdf"@,
        "doc"@,
        "docx"@,
        "xls"@,
        "xlsx"@,
        "ppt"@,
        "pptx"@,
        "odt"@,
        "ods"@,
        "odp"@,
        "rtf"@,
    ];
    assert(f[0] == "pdf"@ && f[1] == "doc"@ && f[2] == "docx"@ && f[3] == "xls"@ && f[4]
        == "xlsx"@);
    assert(f[5] == "ppt"@ && f[6] == "pptx"@ && f[7] == "odt"@ && f[8] == "ods"@ && f[9] == "odp"@);
    assert(f[10] == "rtf"@);
    let g = seq!["msi"@, "cab"@, "iso"@, "img"@, "dmg"@];
    assert(g[0] == "msi"@ && g[1] == "cab"@ && g[2] == "iso"@ && g[3] == "img"@ && g[4] == "dmg"@);
    let h = seq!["class"@, "pyc"@, "pyo"@, "wasm"@];
    assert(h[0] == "class"@ && h[1] == "pyc"@ && h[2] == "pyo"@ && h[3] == "wasm"@);
    let i = seq!["ttf"@, "otf"@, "woff"@, "woff2"@, "eot"@];
    assert(i[0] == "ttf"@ && i[1] == "otf"@ && i[2] == "woff"@ && i[3] == "woff2"@ && i[4]
        == "eot"@);
    let j = seq!["db"@, "sqlite"@, "mdb"@, "pdb"@, "dmp"@];
    assert(j[0] == "db"@ && j[1] == "sqlite"@ && j[2] == "mdb"@ && j[3] == "pdb"@ && j[4]
        == "dmp"@);
}

/// What is shown of the selected file: of a directory and of files that are no text only what they
/// are, of documents the text that can be extracted, and all other files as they are.
pub proof fn law_preview_kinds(path: Seq<char>, ext: Seq<char>)
    ensures
        preview_kind_of(path, ext, true) is Directory,
        preview_kind_of(Seq::empty(), ext, false) is Nothing,
        path.len() > 0 && document_extension(ext) ==> preview_kind_of(path, ext, false) is Document,
        path.len() > 0 && !document_extension(ext) && binary_extension(ext) ==> preview_kind_of(
            path,
            ext,
            false,
        ) is Binary,
        path.len() > 0 && !binary_extension(ext) ==> preview_kind_of(path, ext, false) is Text,
{
    law_document_extensions(ext);
}

/// The index has an entry for each file that was found whose name begins neither with a dot nor with
/// a dollar sign, and for no other, in the order in which they were found. An entry says what was
/// found, with the path, the name and the extension in lowercase besides.
pub proof fn law_index_lists_visible_files(found: Seq<FoundFile>)
    ensures
        entries_for(found) == found.filter(
            |f: FoundFile| f.name@.len() == 0 || (f.name@[0] != '.' && f.name@[0] != '$'),
        ).map_values(
            |f: FoundFile|
                EntryModel {
                    path: f.path@,
                    path_lower: lowercase(f.path@),
                    name: f.name@,
                    name_lower: lowercase(f.name@),
                    size: f.size,
                    is_dir: f.is_dir,
                    extension: lowercase(f.extension@),
                },
        ),
    decreases found.len(),
{
    reveal(Seq::filter);
    let keep = |f: FoundFile| f.name@.len() == 0 || (f.name@[0] != '.' && f.name@[0] != '$');
    let entry = |f: FoundFile|
        EntryModel {
            path: f.path@,
            path_lower: lowercase(f.path@),
            name: f.name@,
            name_lower: lowercase(f.name@),
            size: f.size,
            is_dir: f.is_dir,
            extension: lowercase(f.extension@),
        };
    if found.len() == 0 {
        assert(found.filter(keep).map_values(entry) =~= Seq::<EntryModel>::empty());
    } else {
        let front = found.drop_last();
        law_index_lists_visible_files(front);
        let kept = front.filter(keep);
        assert(kept.push(found.last()).map_values(entry) =~= kept.map_values(entry).push(
            entry(found.last()),
        ));
    }
}

/// Source text is text.
proof fn lemma_source_is_text(ext: Seq<char>)
    requires
        ext == "rs"@ || ext == "py"@ || ext == "js"@ || ext == "ts"@ || ext == "c"@ || ext
            == "cpp"@ || ext == "java"@ || ext == "go"@,
    ensures
        !binary_extension(ext),
{
    reveal_strlit("rs");
    reveal_strlit("py");
    reveal_strlit("js");
    reveal_strlit("ts");
    reveal_strlit("c");
    reveal_strlit("cpp");
    reveal_strlit("java");
    reveal_strlit("go");
    reveal_strlit("exe");
    reveal_strlit("dll");
    reveal_strlit("so");
    reveal_strlit("dylib");
    reveal_strlit("bin");
    reveal_strlit("obj");
    reveal_strlit("o");
    reveal_strlit("a");
    reveal_strlit("lib");
    reveal_strlit("zip");
    reveal_strlit("rar");
    reveal_strlit("7z");
    reveal_strlit("tar");
    reveal_strlit("gz");
    reveal_strlit("bz2");
    reveal_strlit("xz");
    reveal_strlit("zst");
    reveal_strlit("jpg");
    reveal_strlit("jpeg");
    reveal_strlit("png");
    reveal_strlit("gif");
    reveal_strlit("bmp");
    reveal_strlit("ico");
    reveal_strlit("webp");
    reveal_strlit("tiff");
    reveal_strlit("mp3");
    reveal_strlit("wav");
    reveal_strlit("flac");
    reveal_strlit("ogg");
    reveal_strlit("m4a");
    reveal_strlit("aac");
    reveal_strlit("wma");
    reveal_strlit("mp4");
    reveal_strlit("mkv");
    reveal_strlit("avi");
    reveal_strlit("mov");
    reveal_strlit("webm");
    reveal_strlit("wmv");
    reveal_strlit("flv");
    reveal_strlit("pdf");
    reveal_strlit("doc");
    reveal_strlit("docx");
    reveal_strlit("xls");
    reveal_strlit("xlsx");
    reveal_strlit("ppt");
    reveal_strlit("pptx");
    reveal_strlit("odt");
    reveal_strlit("ods");
    reveal_strlit("odp");
    reveal_strlit("rtf");
    reveal_strlit("msi");
    reveal_strlit("cab");
    reveal_strlit("iso");
    reveal_strlit("img");
    reveal_strlit("dmg");
    reveal_strlit("class");
    reveal_strlit("pyc");
    reveal_strlit("pyo");
    reveal_strlit("wasm");
    reveal_strlit("ttf");
    reveal_strlit("otf");
    reveal_strlit("woff");
    reveal_strlit("woff2");
    reveal_strlit("eot");
    reveal_strlit("db");
    reveal_strlit("sqlite");
    reveal_strlit("mdb");
    reveal_strlit("pdb");
    reveal_strlit("dmp");
    assert("rs"@.len() == 2 && "rs"@[0] == 'r' && "rs"@[1] == 's');
    assert("py"@.len() == 2 && "py"@[0] == 'p' && "py"@[1] == 'y');
    assert("js"@.len() == 2 && "js"@[0] == 'j' && "js"@[1] == 's');
    assert("ts"@.len() == 2 && "ts"@[0] == 't' && "ts"@[1] == 's');
    assert("c"@.len() == 1 && "c"@[0] == 'c');
    assert("cpp"@.len() == 3 && "cpp"@[0] == 'c' && "cpp"@[1] == 'p');
    assert("java"@.len() == 4 && "java"@[0] == 'j' && "java"@[1] == 'a');
    assert("go"@.len() == 2 && "go"@[0] == 'g' && "go"@[1] == 'o');
    assert("exe"@.len() == 3 && "exe"@[0] == 'e' && "exe"@[1] == 'x');
    assert("dll"@.len() == 3 && "dll"@[0] == 'd' && "dll"@[1] == 'l');
    assert("so"@.len() == 2 && "so"@[0] == 's' && "so"@[1] == 'o');
    assert("dylib"@.len() == 5 && "dylib"@[0] == 'd' && "dylib"@[1] == 'y');
    assert("bin"@.len() == 3 && "bin"@[0] == 'b' && "bin"@[1] == 'i');
    assert("obj"@.len() == 3 && "obj"@[0] == 'o' && "obj"@[1] == 'b');
    assert("o"@.len() == 1 && "o"@[0] == 'o');
    assert("a"@.len() == 1 && "a"@[0] == 'a');
    assert("lib"@.len() == 3 && "lib"@[0] == 'l' && "lib"@[1] == 'i');
    assert("zip"@.len() == 3 && "zip"@[0] == 'z' && "zip"@[1] == 'i');
    assert("rar"@.len() == 3 && "rar"@[0] == 'r' && "rar"@[1] == 'a');
    assert("7z"@.len() == 2 && "7z"@[0] == '7' && "7z"@[1] == 'z');
    assert("tar"@.len() == 3 && "tar"@[0] == 't' && "tar"@[1] == 'a');
    assert("gz"@.len() == 2 && "gz"@[0] == 'g' && "gz"@[1] == 'z');
    assert("bz2"@.len() == 3 && "bz2"@[0] == 'b' && "bz2"@[1] == 'z');
    assert("xz"@.len() == 2 && "xz"@[0] == 'x' && "xz"@[1] == 'z');
    assert("zst"@.len() == 3 && "zst"@[0] == 'z' && "zst"@[1] == 's');
    assert("jpg"@.len() == 3 && "jpg"@[0] == 'j' && "jpg"@[1] == 'p');
    assert("jpeg"@.len() == 4 && "jpeg"@[0] == 'j' && "jpeg"@[1] == 'p');
    assert("png"@.len() == 3 && "png"@[0] == 'p' && "png"@[1] == 'n');
    assert("gif"@.len() == 3 && "gif"@[0] == 'g' && "gif"@[1] == 'i');
    assert("bmp"@.len() == 3 && "bmp"@[0] == 'b' && "bmp"@[1] == 'm');
    assert("ico"@.len() == 3 && "ico"@[0] == 'i' && "ico"@[1] == 'c');
    assert("webp"@.len() == 4 && "webp"@[0] == 'w' && "webp"@[1] == 'e');
    assert("tiff"@.len() == 4 && "tiff"@[0] == 't' && "tiff"@[1] == 'i');
    assert("mp3"@.len() == 3 && "mp3"@[0] == 'm' && "mp3"@[1] == 'p');
    assert("wav"@.len() == 3 && "wav"@[0] == 'w' && "wav"@[1] == 'a');
    assert("flac"@.len() == 4 && "flac"@[0] == 'f' && "flac"@[1] == 'l');
    assert("ogg"@.len() == 3 && "ogg"@[0] == 'o' && "ogg"@[1] == 'g');
    assert("m4a"@.len() == 3 && "m4a"@[0] == 'm' && "m4a"@[1] == '4');
    assert("aac"@.len() == 3 && "aac"@[0] == 'a' && "aac"@[1] == 'a');
    assert("wma"@.len() == 3 && "wma"@[0] == 'w' && "wma"@[1] == 'm');
    assert("mp4"@.len() == 3 && "mp4"@[0] == 'm' && "mp4"@[1] == 'p');
    assert("mkv"@.len() == 3 && "mkv"@[0] == 'm' && "mkv"@[1] == 'k');
    assert("avi"@.len() == 3 && "avi"@[0] == 'a' && "avi"@[1] == 'v');
    assert("mov"@.len() == 3 && "mov"@[0] == 'm' && "mov"@[1] == 'o');
    assert("webm"@.len() == 4 && "webm"@[0] == 'w' && "webm"@[1] == 'e');
    assert("wmv"@.len() == 3 && "wmv"@[0] == 'w' && "wmv"@[1] == 'm');
    assert("flv"@.len() == 3 && "flv"@[0] == 'f' && "flv"@[1] == 'l');
    assert("pdf"@.len() == 3 && "pdf"@[0] == 'p' && "pdf"@[1] == 'd');
    assert("doc"@.len() == 3 && "doc"@[0] == 'd' && "doc"@[1] == 'o');
    assert("docx"@.len() == 4 && "docx"@[0] == 'd' && "docx"@[1] == 'o');
    assert("xls"@.len() == 3 && "xls"@[0] == 'x' && "xls"@[1] == 'l');
    assert("xlsx"@.len() == 4 && "xlsx"@[0] == 'x' && "xlsx"@[1] == 'l');
    assert("ppt"@.len() == 3 && "ppt"@[0] == 'p' && "ppt"@[1] == 'p');
    assert("pptx"@.len() == 4 && "pptx"@[0] == 'p' && "pptx"@[1] == 'p');
    assert("odt"@.len() == 3 && "odt"@[0] == 'o' && "odt"@[1] == 'd');
    assert("ods"@.len() == 3 && "ods"@[0] == 'o' && "ods"@[1] == 'd');
    assert("odp"@.len() == 3 && "odp"@[0] == 'o' && "odp"@[1] == 'd');
    assert("rtf"@.len() == 3 && "rtf"@[0] == 'r' && "rtf"@[1] == 't');
    assert("msi"@.len() == 3 && "msi"@[0] == 'm' && "msi"@[1] == 's');
    assert("cab"@.len() == 3 && "cab"@[0] == 'c' && "cab"@[1] == 'a');
    assert("iso"@.len() == 3 && "iso"@[0] == 'i' && "iso"@[1] == 's');
    assert("img"@.len() == 3 && "img"@[0] == 'i' && "img"@[1] == 'm');
    assert("dmg"@.len() == 3 && "dmg"@[0] == 'd' && "dmg"@[1] == 'm');
    assert("class"@.len() == 5 && "class"@[0] == 'c' && "class"@[1] == 'l');
    assert("pyc"@.len() == 3 && "pyc"@[0] == 'p' && "pyc"@[1] == 'y');
    assert("pyo"@.len() == 3 && "pyo"@[0] == 'p' && "pyo"@[1] == 'y');
    assert("wasm"@.len() == 4 && "wasm"@[0] == 'w' && "wasm"@[1] == 'a');
    assert("ttf"@.len() == 3 && "ttf"@[0] == 't' && "ttf"@[1] == 't');
    assert("otf"@.len() == 3 && "otf"@[0] == 'o' && "otf"@[1] == 't');
    assert("woff"@.len() == 4 && "woff"@[0] == 'w' && "woff"@[1] == 'o');
    assert("woff2"@.len() == 5 && "woff2"@[0] == 'w' && "woff2"@[1] == 'o');
    assert("eot"@.len() == 3 && "eot"@[0] == 'e' && "eot"@[1] == 'o');
    assert("db"@.len() == 2 && "db"@[0] == 'd' && "db"@[1] == 'b');
    assert("sqlite"@.len() == 6 && "sqlite"@[0] == 's' && "sqlite"@[1] == 'q');
    assert("mdb"@.len() == 3 && "mdb"@[0] == 'm' && "mdb"@[1] == 'd');
    assert("pdb"@.len() == 3 && "pdb"@[0] == 'p' && "pdb"@[1] == 'd');
    assert("dmp"@.len() == 3 && "dmp"@[0] == 'd' && "dmp"@[1] == 'm');
}

/// Files are marked by what they are: source text is text, and pictures but for vector graphics,
/// sound, films, archives, programs and office documents are not.
pub proof fn law_marks_agree_with_contents(ext: Seq<char>)
    ensures
        tag_of(true, ext) == "DIR"@,
        tag_of(false, ext) == "SRC"@ ==> !binary_extension(ext),
        tag_of(false, ext) == "   "@ || tag_of(false, ext) == "SRC"@ || ext == "svg"@
            || binary_extension(ext),
{
    reveal_strlit("DIR");
    reveal_strlit("SRC");
    reveal_strlit("IMG");
    reveal_strlit("AUD");
    reveal_strlit("VID");
    reveal_strlit("ZIP");
    reveal_strlit("EXE");
    reveal_strlit("PDF");
    reveal_strlit("DOC");
    reveal_strlit("XLS");
    reveal_strlit("   ");
    assert("SRC"@[0] == 'S' && "IMG"@[0] == 'I' && "AUD"@[0] == 'A' && "VID"@[0] == 'V');
    assert("ZIP"@[0] == 'Z' && "EXE"@[0] == 'E' && "PDF"@[0] == 'P' && "DOC"@[0] == 'D');
    assert("XLS"@[0] == 'X' && "   "@[0] == ' ');
    if tag_of(false, ext) == "SRC"@ {
        lemma_source_is_text(ext);
    }
}

} // verus!
