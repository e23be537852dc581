//! The source archive: what it holds, and the calls that read it.

use vstd::prelude::*;

use std::io::Cursor;
use std::io::Read;
use zip::read::ZipFile;
use zip::result::ZipError;
use zip::write::SimpleFileOptions;
use zip::ZipArchive;

verus! {

/// An in-memory byte source with a position; opaque here.
#[verifier::external_type_specification]
#[verifier::external_body]
#[verifier::reject_recursive_types(T)]
pub struct ExCursor<T>(Cursor<T>);

/// A ZIP archive opened for reading; what it holds is `archive_contents`.
#[verifier::external_type_specification]
#[verifier::external_body]
#[verifier::reject_recursive_types(R)]
pub struct ExZipArchive<R>(ZipArchive<R>);

/// The storage options of an entry (compression method, attributes,
/// modification time, ...), held as a `zip::write::SimpleFileOptions`. The
/// library carries them from the entry they were read from to the entry that
/// is written with them and never looks inside.
#[verifier::external_body]
pub struct StorageOptions {
    pub(crate) inner: SimpleFileOptions,
}

impl DeepView for StorageOptions {
    type V = StorageOptions;

    open spec fn deep_view(&self) -> StorageOptions {
        *self
    }
}

/// A handle on one entry of an open archive, from which its metadata and
/// content can be read; it holds a `zip::read::ZipFile`. What it stands on is
/// `reader_entry`.
#[verifier::external_body]
pub struct EntryReader<'a> {
    inner: ZipFile<'a, Cursor<Vec<u8>>>,
}

/// The kind of an archive entry.
#[derive(Clone, Copy, Debug, PartialEq, Eq, Structural)]
pub enum EntryKind {
    /// A regular file.
    File,
    /// A directory.
    Directory,
    /// Anything else, such as a symbolic link.
    Unsupported,
}

/// An entry of a source archive.
pub struct SourceEntry {
    /// The path of the entry inside the archive.
    pub name: Seq<char>,
    /// The kind of the entry.
    pub kind: EntryKind,
    /// The options the entry is stored with.
    pub options: StorageOptions,
    /// The content of the entry, or `None` if it cannot be read.
    pub content: Option<Seq<u8>>,
}

/// What an archive holds.
pub struct Contents {
    /// The names of the entries in stored order, or `None` if one of them is
    /// not text.
    pub names: Option<Seq<Seq<char>>>,
    /// The entries that can be opened, by name.
    pub entries: Map<Seq<char>, SourceEntry>,
}

/// What `ZipArchive::new` makes of a byte sequence: the contents of the
/// archive, or `None` where the bytes are not a ZIP archive.
pub uninterp spec fn parsed(bytes: Seq<u8>) -> Option<Contents>;

/// What an open archive holds.
pub uninterp spec fn archive_contents(archive: ZipArchive<Cursor<Vec<u8>>>) -> Contents;

/// The entry that a reader stands on.
pub uninterp spec fn reader_entry(reader: EntryReader<'_>) -> SourceEntry;

/// Whether `name` ends in a path separator of the ZIP format.
pub open spec fn ends_with_separator(name: Seq<char>) -> bool {
    name.len() > 0 && (name.last() == '/' || name.last() == '\\')
}

/// The views of a sequence of strings.
pub open spec fn views(strings: Seq<String>) -> Seq<Seq<char>> {
    strings.map_values(|s: String| s@)
}

/// Calls `ZipArchive::new` on a cursor over `bytes`. The outcome is a function
/// of the bytes, named `parsed`; an archive that opens holds what `parsed` says.
#[verifier::external_body]
pub(crate) fn open_archive(bytes: Vec<u8>) -> (result: Result<
    ZipArchive<Cursor<Vec<u8>>>,
    ZipError,
>)
    ensures
        result is Ok <==> parsed(bytes@) is Some,
        result matches Ok(archive) ==> archive_contents(archive) == parsed(bytes@)->Some_0,
{
    ZipArchive::new(Cursor::new(bytes))
}

/// Calls `ZipArchive::file_names` and collects the names in stored order. It
/// fails exactly if a stored name cannot be decoded as text.
#[verifier::external_body]
pub(crate) fn entry_names(archive: &ZipArchive<Cursor<Vec<u8>>>) -> (result: Result<
    Vec<String>,
    ZipError,
>)
    ensures
        result is Ok <==> archive_contents(*archive).names is Some,
        result matches Ok(names) ==> views(names@) == archive_contents(*archive).names->Some_0,
{
    archive.file_names().map(|name| name.map(|text| text.into_owned())).collect()
}

/// Calls `ZipArchive::by_name`. It succeeds exactly on the names under which
/// the archive has an entry that can be opened; the reader then stands on that
/// entry, whose name is the one asked for. The archive holds what it held.
#[verifier::external_body]
pub(crate) fn by_name<'a>(archive: &'a mut ZipArchive<Cursor<Vec<u8>>>, name: &str) -> (result:
    Result<EntryReader<'a>, ZipError>)
    ensures
        archive_contents(*final(archive)) == archive_contents(*old(archive)),
        result is Ok <==> archive_contents(*old(archive)).entries.contains_key(name@),
        result matches Ok(reader) ==> reader_entry(reader) == archive_contents(
            *old(archive),
        ).entries[name@] && reader_entry(reader).name == name@,
{
    match archive.by_name(name) {
        Ok(inner) => Ok(EntryReader { inner }),
        Err(error) => Err(error),
    }
}

/// Calls `ZipFile::is_file`: whether the entry is neither a directory nor a
/// symbolic link.
#[verifier::external_body]
fn entry_is_file(reader: &EntryReader<'_>) -> (is_file: bool)
    ensures
        is_file == (reader_entry(*reader).kind == EntryKind::File),
{
    reader.inner.is_file()
}

/// Calls `ZipFile::is_dir`: whether the entry's name ends in `/` or `\`.
/// These are the entries of kind directory.
#[verifier::external_body]
fn entry_is_dir(reader: &EntryReader<'_>) -> (is_dir: bool)
    ensures
        is_dir == (reader_entry(*reader).kind == EntryKind::Directory),
        is_dir == ends_with_separator(reader_entry(*reader).name),
{
    reader.inner.is_dir()
}

/// Calls `ZipFile::options`: the options the entry is stored with.
#[verifier::external_body]
fn entry_options(reader: &EntryReader<'_>) -> (options: StorageOptions)
    ensures
        options == reader_entry(*reader).options,
{
    StorageOptions { inner: reader.inner.options() }
}

/// Calls `Read::read_to_end` on a fresh reader: the whole content of the
/// entry. It fails exactly on the entries whose content cannot be read.
#[verifier::external_body]
fn read_content(reader: EntryReader<'_>) -> (result: Result<Vec<u8>, std::io::Error>)
    ensures
        result is Ok <==> reader_entry(reader).content is Some,
        result matches Ok(content) ==> content@ == reader_entry(reader).content->Some_0,
{
    let mut reader = reader;
    let mut content = Vec::new();
    match reader.inner.read_to_end(&mut content) {
        Ok(_) => Ok(content),
        Err(error) => Err(error),
    }
}

impl<'a> EntryReader<'a> {
    /// Returns the kind of the entry. The directories are the entries whose
    /// name ends in a path separator.
    pub fn kind(&self) -> (kind: EntryKind)
        ensures
            kind == reader_entry(*self).kind,
            kind == EntryKind::Directory <==> ends_with_separator(reader_entry(*self).name),
    {
        let is_dir = entry_is_dir(self);
        if entry_is_file(self) {
            EntryKind::File
        } else if is_dir {
            EntryKind::Directory
        } else {
            EntryKind::Unsupported
        }
    }

    /// Returns the storage options of the entry.
    pub fn options(&self) -> (options: StorageOptions)
        ensures
            options == reader_entry(*self).options,
    {
        entry_options(self)
    }

    /// Reads the whole content of the entry. Fails exactly if the content
    /// cannot be read.
    pub fn content(self) -> (result: Result<Vec<u8>, std::io::Error>)
        ensures
            result is Ok <==> reader_entry(self).content is Some,
            result matches Ok(content) ==> content@ == reader_entry(self).content->Some_0,
    {
        read_content(self)
    }
}

} // verus!
