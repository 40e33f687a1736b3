//! Which entries a filter lets through.
use vstd::prelude::*;
use vstd::utf8::*;

use crate::text::{ascii_letter, contains, starts_with, str_eq};
use crate::utf8::occurs;

verus! {

/// Whether a path filter is an absolute path: it begins with a drive letter and a colon, or with a
/// backslash.
pub open spec fn absolute_filter(pf: Seq<char>) -> bool {
    ||| pf.len() >= 2 && ascii_letter(pf[0]) && pf[1] == ':'
    ||| pf.len() >= 1 && pf[0] == '\\'
}

/// Whether a byte is an ASCII letter.
pub open spec fn letter_byte(b: u8) -> bool {
    65 <= b <= 90 || 97 <= b <= 122
}

/// How the bytes of a character begin.
proof fn lemma_char_bytes(c: char)
    ensures
        c <= '\u{7f}' ==> encode_scalar(c as u32) == seq![c as u8],
        c <= '\u{7f}' ==> (c as u8 == 58 <==> c == ':') && (c as u8 == 92 <==> c == '\\') && (
        letter_byte(c as u8) <==> ascii_letter(c)),
        c > '\u{7f}' ==> encode_scalar(c as u32).len() >= 2 && encode_scalar(c as u32)[0] >= 0x80
            && encode_scalar(c as u32)[1] >= 0x80,
{
    let u = c as u32;
    if c <= '\u{7f}' {
        assert(u <= 0x7f ==> (u & 0x7f) as u8 == u as u8) by (bit_vector);
        assert(encode_scalar(u) =~= seq![c as u8]);
    } else {
        assert(0x80u8 | ((u & 0x3f) as u8) >= 0x80) by (bit_vector);
        assert(0x80u8 | (((u >> 6) & 0x3f) as u8) >= 0x80) by (bit_vector);
        assert(0x80u8 | (((u >> 12) & 0x3f) as u8) >= 0x80) by (bit_vector);
        assert(0xc0u8 | (((u >> 6) & 0x1f) as u8) >= 0x80) by (bit_vector);
        assert(0xe0u8 | (((u >> 12) & 0xf) as u8) >= 0x80) by (bit_vector);
        assert(0xf0u8 | (((u >> 18) & 0x7) as u8) >= 0x80) by (bit_vector);
    }
}

/// Whether `b` is an ASCII letter.
pub fn is_letter_byte(b: u8) -> (r: bool)
    ensures
        r == letter_byte(b),
{
    (65 <= b && b <= 90) || (97 <= b && b <= 122)
}

/// Whether a path filter is an absolute path.
pub fn is_absolute_filter(pf: &str) -> (r: bool)
    ensures
        r == absolute_filter(pf@),
{
    let bytes: &[u8] = pf.as_bytes();
    proof {
        if pf@.len() > 0 {
            let rest = pf@.drop_first();
            let first = encode_scalar(pf@[0] as u32);
            lemma_char_bytes(pf@[0]);
            assert(bytes@ == first + encode_utf8(rest));
            assert(bytes@[0] == first[0]);
            if first.len() >= 2 {
                assert(bytes@[1] == first[1]);
            }
            if rest.len() > 0 {
                let second = encode_scalar(rest[0] as u32);
                lemma_char_bytes(rest[0]);
                assert(encode_utf8(rest) == second + encode_utf8(rest.drop_first()));
                if first.len() == 1 {
                    assert(bytes@[1] == second[0]);
                }
            }
        }
    }
    (bytes.len() >= 2 && is_letter_byte(bytes[0]) && bytes[1] == 58) || (bytes.len() >= 1
        && bytes[0] == 92)
}

/// Whether a path is one that a path filter lets through: an absolute filter is a prefix of it,
/// any other filter stands somewhere in it.
pub open spec fn path_passes(path: Seq<char>, pf: Seq<char>) -> bool {
    if absolute_filter(pf) {
        pf.is_prefix_of(path)
    } else {
        occurs(path, pf)
    }
}

/// Whether the filter `pf` lets an entry with this lowercase path through.
pub fn path_matches(entry_path_lower: &str, pf: &str) -> (r: bool)
    ensures
        r == path_passes(entry_path_lower@, pf@),
{
    if is_absolute_filter(pf) {
        starts_with(entry_path_lower, pf)
    } else {
        contains(entry_path_lower, pf)
    }
}

/// The extensions of files that are not text.
pub open spec fn binary_extension(ext: Seq<char>) -> bool {
    ||| ext == "exe"@
    ||| ext == "dll"@
    ||| ext == "so"@
    ||| ext == "dylib"@
    ||| ext == "bin"@
    ||| ext == "obj"@
    ||| ext == "o"@
    ||| ext == "a"@
    ||| ext == "lib"@
    ||| ext == "zip"@
    ||| ext == "rar"@
    ||| ext == "7z"@
    ||| ext == "tar"@
    ||| ext == "gz"@
    ||| ext == "bz2"@
    ||| ext == "xz"@
    ||| ext == "zst"@
    ||| ext == "jpg"@
    ||| ext == "jpeg"@
    ||| ext == "png"@
    ||| ext == "gif"@
    ||| ext == "bmp"@
    ||| ext == "ico"@
    ||| ext == "webp"@
    ||| ext == "tiff"@
    ||| ext == "mp3"@
    ||| ext == "wav"@
    ||| ext == "flac"@
    ||| ext == "ogg"@
    ||| ext == "m4a"@
    ||| ext == "aac"@
    ||| ext == "wma"@
    ||| ext == "mp4"@
    ||| ext == "mkv"@
    ||| ext == "avi"@
    ||| ext == "mov"@
    ||| ext == "webm"@
    ||| ext == "wmv"@
    ||| ext == "flv"@
    ||| ext == "pdf"@
    ||| ext == "doc"@
    ||| ext == "docx"@
    ||| ext == "xls"@
    ||| ext == "xlsx"@
    ||| ext == "ppt"@
    ||| ext == "pptx"@
    ||| ext == "odt"@
    ||| ext == "ods"@
    ||| ext == "odp"@
    ||| ext == "rtf"@
    ||| ext == "msi"@
    ||| ext == "cab"@
    ||| ext == "iso"@
    ||| ext == "img"@
    ||| ext == "dmg"@
    ||| ext == "class"@
    ||| ext == "pyc"@
    ||| ext == "pyo"@
    ||| ext == "wasm"@
    ||| ext == "ttf"@
    ||| ext == "otf"@
    ||| ext == "woff"@
    ||| ext == "woff2"@
    ||| ext == "eot"@
    ||| ext == "db"@
    ||| ext == "sqlite"@
    ||| ext == "mdb"@
    ||| ext == "pdb"@
    ||| ext == "dmp"@
}

/// Whether files with this extension are left out of a content search.
pub fn is_binary_extension(ext: &str) -> (r: bool)
    ensures
        r == binary_extension(ext@),
{
    str_eq(ext, "exe") || str_eq(ext, "dll") || str_eq(ext, "so") || str_eq(ext, "dylib")
        || str_eq(ext, "bin") || str_eq(ext, "obj") || str_eq(ext, "o") || str_eq(ext, "a")
        || str_eq(ext, "lib") || str_eq(ext, "zip") || str_eq(ext, "rar") || str_eq(ext, "7z")
        || str_eq(ext, "tar") || str_eq(ext, "gz") || str_eq(ext, "bz2") || str_eq(ext, "xz")
        || str_eq(ext, "zst") || str_eq(ext, "jpg") || str_eq(ext, "jpeg") || str_eq(ext, "png")
        || str_eq(ext, "gif") || str_eq(ext, "bmp") || str_eq(ext, "ico") || str_eq(ext, "webp")
        || str_eq(ext, "tiff") || str_eq(ext, "mp3") || str_eq(ext, "wav") || str_eq(ext, "flac")
        || str_eq(ext, "ogg") || str_eq(ext, "m4a") || str_eq(ext, "aac") || str_eq(ext, "wma")
        || str_eq(ext, "mp4") || str_eq(ext, "mkv") || str_eq(ext, "avi") || str_eq(ext, "mov")
        || str_eq(ext, "webm") || str_eq(ext, "wmv") || str_eq(ext, "flv") || str_eq(ext, "pdf")
        || str_eq(ext, "doc") || str_eq(ext, "docx") || str_eq(ext, "xls") || str_eq(ext, "xlsx")
        || str_eq(ext, "ppt") || str_eq(ext, "pptx") || str_eq(ext, "odt") || str_eq(ext, "ods")
        || str_eq(ext, "odp") || str_eq(ext, "rtf") || str_eq(ext, "msi") || str_eq(ext, "cab")
        || str_eq(ext, "iso") || str_eq(ext, "img") || str_eq(ext, "dmg") || str_eq(ext, "class")
        || str_eq(ext, "pyc") || str_eq(ext, "pyo") || str_eq(ext, "wasm") || str_eq(ext, "ttf")
        || str_eq(ext, "otf") || str_eq(ext, "woff") || str_eq(ext, "woff2") || str_eq(ext, "eot")
        || str_eq(ext, "db") || str_eq(ext, "sqlite") || str_eq(ext, "mdb") || str_eq(ext, "pdb")
        || str_eq(ext, "dmp")
}

/// The extensions of the documents that text can be extracted from.
pub open spec fn document_extension(ext: Seq<char>) -> bool {
    ||| ext == "pdf"@
    ||| ext == "docx"@
    ||| ext == "xlsx"@
    ||| ext == "pptx"@
    ||| ext == "odt"@
    ||| ext == "ods"@
    ||| ext == "odp"@
    ||| ext == "rtf"@
}

/// Whether text can be extracted from documents with this extension.
pub fn is_document_extension(ext: &str) -> (r: bool)
    ensures
        r == document_extension(ext@),
{
    str_eq(ext, "pdf") || str_eq(ext, "docx") || str_eq(ext, "xlsx") || str_eq(ext, "pptx")
        || str_eq(ext, "odt") || str_eq(ext, "ods") || str_eq(ext, "odp") || str_eq(ext, "rtf")
}

} // verus!
