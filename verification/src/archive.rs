//! Archives of the crate `zip`, read from memory.
use std::io::{Cursor, Read};
use vstd::prelude::*;
use zip::ZipArchive;

verus! {

/// An opened archive, `zip::ZipArchive`.
#[verifier::external_type_specification]
#[verifier::external_body]
#[verifier::reject_recursive_types(R)]
pub struct ExZipArchive<R>(zip::ZipArchive<R>);

/// Bytes that are read like a file, `std::io::Cursor`.
#[verifier::external_type_specification]
#[verifier::external_body]
#[verifier::reject_recursive_types(T)]
pub struct ExCursor<T>(std::io::Cursor<T>);

/// The bytes that an archive was opened from.
pub uninterp spec fn archive_bytes(archive: ZipArchive<Cursor<Vec<u8>>>) -> Seq<u8>;

/// Whether `ZipArchive::new` opens these bytes as an archive; the count of entries that they give
/// is cut to the width of a machine word.
pub uninterp spec fn zip_opens(bytes: Seq<u8>, word_bits: nat) -> bool;

/// How many entries `ZipArchive::len` counts in an archive of these bytes.
pub uninterp spec fn zip_len(bytes: Seq<u8>, word_bits: nat) -> nat;

/// The name of an entry of an archive, and none where `ZipArchive::by_index` does not open it.
pub uninterp spec fn zip_entry_name(bytes: Seq<u8>, i: nat, word_bits: nat) -> Option<Seq<char>>;

/// What `read_to_string` reads of an entry of an archive, and nothing where the entry cannot be
/// opened or is no text.
pub uninterp spec fn zip_entry_text(bytes: Seq<u8>, i: nat, word_bits: nat) -> Option<Seq<char>>;

/// `ZipArchive::new` on a `Cursor`: opens an archive that is held in memory, or fails. Which bytes
/// are an archive has only a name here.
#[verifier::external_body]
pub(crate) fn open_archive(bytes: Vec<u8>) -> (r: Option<ZipArchive<Cursor<Vec<u8>>>>)
    ensures
        r is Some <==> zip_opens(bytes@, usize::BITS as nat),
        r matches Some(archive) ==> archive_bytes(archive) == bytes@,
{
    ZipArchive::new(Cursor::new(bytes)).ok()
}

/// `ZipArchive::len`: how many entries the archive has.
#[verifier::external_body]
pub(crate) fn archive_len(archive: &ZipArchive<Cursor<Vec<u8>>>) -> (r: usize)
    ensures
        r == zip_len(archive_bytes(*archive), usize::BITS as nat),
{
    archive.len()
}

/// `ZipArchive::by_index` and `ZipFile::name`: the name of entry `i`, where it can be opened.
#[verifier::external_body]
pub(crate) fn entry_name(archive: &mut ZipArchive<Cursor<Vec<u8>>>, i: usize) -> (r: Option<
    String,
>)
    ensures
        archive_bytes(*final(archive)) == archive_bytes(*old(archive)),
        match r {
            Some(name) => zip_entry_name(
                archive_bytes(*old(archive)),
                i as nat,
                usize::BITS as nat,
            ) == Some(name@),
            None => zip_entry_name(
                archive_bytes(*old(archive)),
                i as nat,
                usize::BITS as nat,
            ) is None,
        },
{
    match archive.by_index(i) {
        Ok(entry) => Some(entry.name().to_string()),
        Err(_) => None,
    }
}

/// `ZipArchive::by_index` and `Read::read_to_string`: the text of entry `i`, where it can be
/// opened and read as text.
#[verifier::external_body]
pub(crate) fn entry_text(archive: &mut ZipArchive<Cursor<Vec<u8>>>, i: usize) -> (r: Option<
    String,
>)
    ensures
        archive_bytes(*final(archive)) == archive_bytes(*old(archive)),
        match r {
            Some(text) => zip_entry_text(
                archive_bytes(*old(archive)),
                i as nat,
                usize::BITS as nat,
            ) == Some(text@),
            None => zip_entry_text(
                archive_bytes(*old(archive)),
                i as nat,
                usize::BITS as nat,
            ) is None,
        },
{
    let mut text = String::new();
    match archive.by_index(i) {
        Ok(mut entry) => match entry.read_to_string(&mut text) {
            Ok(_) => Some(text),
            Err(_) => None,
        },
        Err(_) => None,
    }
}

} // verus!
