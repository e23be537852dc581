//! The destination archive: what has been written into it, and the calls
//! that write.

use vstd::prelude::*;

use crate::archive::EntryKind;
use crate::archive::StorageOptions;
use std::io::Cursor;
use std::io::Write;
use zip::result::ZipError;
use zip::write::SimpleFileOptions;
use zip::ZipWriter;

verus! {

/// An archive that is being written into memory; it holds a
/// `zip::ZipWriter` over an in-memory sink. What it holds is
/// `written_entries`.
#[verifier::external_body]
pub struct ArchiveWriter {
    inner: ZipWriter<Cursor<Vec<u8>>>,
}

/// An entry as it was handed to the writer.
pub struct WrittenEntry {
    /// The path of the entry inside the archive.
    pub name: Seq<char>,
    /// The kind of the entry.
    pub kind: EntryKind,
    /// The options that were handed to the writer for the entry; `None`
    /// stands for the default options.
    pub options: Option<StorageOptions>,
    /// The content of the entry.
    pub content: Seq<u8>,
}

/// The entries that a writer holds, in the order in which they were
/// written, each with the content that was handed to it.
pub uninterp spec fn written_entries(writer: ArchiveWriter) -> Seq<WrittenEntry>;

/// Whether the writer has a file open that has taken no content yet: the
/// file that was started last.
pub uninterp spec fn file_open(writer: ArchiveWriter) -> bool;

/// Whether a writer that holds `entries` lets a file be started under `name`
/// with `options`.
pub uninterp spec fn file_taken(entries: Seq<WrittenEntry>, name: Seq<char>, options: Option<StorageOptions>) -> bool;

/// Whether a writer that holds `entries` lets a directory be added under
/// `name` with `options`.
pub uninterp spec fn directory_taken(entries: Seq<WrittenEntry>, name: Seq<char>, options: Option<StorageOptions>) -> bool;

/// Whether a writer that holds `entries`, the last of them a file that is
/// open and has no content yet, takes `content` as the content of that file.
pub uninterp spec fn content_taken(entries: Seq<WrittenEntry>, content: Seq<u8>) -> bool;

/// The bytes of the finished archive that holds `entries`, or `None` where
/// the archive cannot be finished.
pub uninterp spec fn sealed(entries: Seq<WrittenEntry>) -> Option<Seq<u8>>;

/// `name` with `/` appended unless it ends in a path separator already.
pub open spec fn with_separator(name: Seq<char>) -> Seq<char> {
    if name.len() > 0 && (name.last() == '/' || name.last() == '\\') {
        name
    } else {
        name.push('/')
    }
}

/// A file entry that has no content yet.
pub open spec fn started_file(name: Seq<char>, options: Option<StorageOptions>) -> WrittenEntry {
    WrittenEntry { name, kind: EntryKind::File, options, content: Seq::empty() }
}

/// A directory entry.
pub open spec fn directory(name: Seq<char>, options: Option<StorageOptions>) -> WrittenEntry {
    WrittenEntry {
        name: with_separator(name),
        kind: EntryKind::Directory,
        options,
        content: Seq::empty(),
    }
}

/// Whether the last entry of `entries` is a file that has no content yet.
pub open spec fn awaits_content(entries: Seq<WrittenEntry>) -> bool {
    entries.len() > 0 && entries.last().kind == EntryKind::File && entries.last().content.len()
        == 0
}

/// `entries` with `content` as the content of the last entry.
pub open spec fn with_content(entries: Seq<WrittenEntry>, content: Seq<u8>) -> Seq<WrittenEntry> {
    entries.update(
        entries.len() - 1,
        WrittenEntry {
            name: entries.last().name,
            kind: entries.last().kind,
            options: entries.last().options,
            content,
        },
    )
}

/// What a writer may hold after writing content has failed, where it held
/// `before`: the file that was being written is dropped, or it is still the
/// last entry, with some content.
pub open spec fn cut_short(before: Seq<WrittenEntry>, after: Seq<WrittenEntry>) -> bool {
    ||| after == before.drop_last()
    ||| {
        &&& after.len() == before.len()
        &&& after.drop_last() == before.drop_last()
        &&& after.last().name == before.last().name
        &&& after.last().kind == before.last().kind
        &&& after.last().options == before.last().options
    }
}

/// Whether a writer that holds `entries` takes `next`: a file is started
/// and takes its content, a directory is added. Entries of another kind are
/// never written.
pub open spec fn takes(entries: Seq<WrittenEntry>, next: WrittenEntry) -> bool {
    match next.kind {
        EntryKind::File => file_taken(entries, next.name, next.options) && content_taken(
            entries.push(started_file(next.name, next.options)),
            next.content,
        ),
        EntryKind::Directory => directory_taken(entries, next.name, next.options),
        EntryKind::Unsupported => false,
    }
}

/// Whether a writer that holds `before` takes all of `entries`, one after
/// the other.
pub open spec fn takes_all(before: Seq<WrittenEntry>, entries: Seq<WrittenEntry>) -> bool
    decreases entries.len(),
{
    entries.len() == 0 || (takes_all(before, entries.drop_last()) && takes(
        before + entries.drop_last(),
        entries.last(),
    ))
}

/// A writer that takes all of `entries` takes the first `count` of them.
pub proof fn lemma_takes_all_prefix(
    before: Seq<WrittenEntry>,
    entries: Seq<WrittenEntry>,
    count: int,
)
    requires
        takes_all(before, entries),
        0 <= count <= entries.len(),
    ensures
        takes_all(before, entries.take(count)),
    decreases entries.len(),
{
    if count == entries.len() {
        assert(entries.take(count) =~= entries);
    } else {
        assert(entries.drop_last().take(count) =~= entries.take(count));
        lemma_takes_all_prefix(before, entries.drop_last(), count);
    }
}

/// Calls `ZipWriter::new` on an empty in-memory sink: a writer that holds
/// nothing.
#[verifier::external_body]
fn new_writer() -> (writer: ArchiveWriter)
    ensures
        written_entries(writer) == Seq::<WrittenEntry>::empty(),
{
    ArchiveWriter { inner: ZipWriter::new(Cursor::new(Vec::new())) }
}

impl ArchiveWriter {
    /// Creates a writer of a new archive in memory, which holds nothing yet.
    pub fn new() -> (writer: Self)
        ensures
            written_entries(writer) == Seq::<WrittenEntry>::empty(),
    {
        new_writer()
    }

    /// Finishes the archive and returns its bytes. Fails exactly where the
    /// archive that holds the entries of the writer cannot be finished.
    pub fn finish(self) -> (result: Result<Vec<u8>, ZipError>)
        ensures
            result is Ok <==> sealed(written_entries(self)) is Some,
            result matches Ok(bytes) ==> Some(bytes@) == sealed(written_entries(self)),
    {
        finish(self)
    }
}

/// Calls `ZipWriter::start_file` with the given options. Whether the writer
/// lets the file be started is a function of what it holds, of the name and
/// of the options, named `file_taken`. On success the writer holds one more
/// entry, a file of that name which is open and has no content yet; on
/// failure it holds what it held.
#[verifier::external_body]
pub(crate) fn start_file(writer: &mut ArchiveWriter, name: &str, options: StorageOptions) -> (result:
    Result<(), ZipError>)
    ensures
        result is Ok <==> file_taken(written_entries(*old(writer)), name@, Some(options)),
        result is Ok ==> file_open(*final(writer)),
        result is Ok ==> written_entries(*final(writer)) == written_entries(*old(writer)).push(
            started_file(name@, Some(options)),
        ),
        result is Err ==> written_entries(*final(writer)) == written_entries(*old(writer)),
{
    writer.inner.start_file(name, options.inner)
}

/// Calls `ZipWriter::start_file` with `SimpleFileOptions::default()`, the
/// default options, for which `None` stands. Whether the writer lets the file
/// be started is a function of what it holds and of the name. On success the
/// writer holds one more entry, a file of that name which is open and has no
/// content yet; on failure it holds what it held.
#[verifier::external_body]
pub(crate) fn start_file_with_defaults(writer: &mut ArchiveWriter, name: &str) -> (result: Result<
    (),
    ZipError,
>)
    ensures
        result is Ok <==> file_taken(written_entries(*old(writer)), name@, None),
        result is Ok ==> file_open(*final(writer)),
        result is Ok ==> written_entries(*final(writer)) == written_entries(*old(writer)).push(
            started_file(name@, None),
        ),
        result is Err ==> written_entries(*final(writer)) == written_entries(*old(writer)),
{
    writer.inner.start_file(name, SimpleFileOptions::default())
}

/// Calls `ZipWriter::add_directory` with the given options. Whether the
/// writer lets the directory be added is a function of what it holds, of the
/// name and of the options, named `directory_taken`. On success the writer
/// holds one more entry, a directory whose name is the given one with `/`
/// appended unless it ends in `/` or `\` already; on failure it holds what it
/// held.
#[verifier::external_body]
pub(crate) fn add_directory(writer: &mut ArchiveWriter, name: &str, options: StorageOptions) -> (result:
    Result<(), ZipError>)
    ensures
        result is Ok <==> directory_taken(written_entries(*old(writer)), name@, Some(options)),
        result is Ok ==> written_entries(*final(writer)) == written_entries(*old(writer)).push(
            directory(name@, Some(options)),
        ),
        result is Err ==> written_entries(*final(writer)) == written_entries(*old(writer)),
{
    writer.inner.add_directory(name, options.inner)
}

/// Calls `Write::write_all` on the writer, once for the file that was started
/// last and is still open. Whether the writer takes the bytes is a function
/// of what it holds and of the bytes, named `content_taken`. On success that file has the
/// given bytes as its content; on failure the file is dropped or is left
/// with some content, and the entries before it are as they were.
#[verifier::external_body]
pub(crate) fn write_content(writer: &mut ArchiveWriter, content: &[u8]) -> (result: Result<
    (),
    std::io::Error,
>)
    requires
        file_open(*old(writer)),
        awaits_content(written_entries(*old(writer))),
    ensures
        result is Ok <==> content_taken(written_entries(*old(writer)), content@),
        result is Ok ==> written_entries(*final(writer)) == with_content(
            written_entries(*old(writer)),
            content@,
        ),
        result is Err ==> cut_short(written_entries(*old(writer)), written_entries(*final(writer))),
{
    writer.inner.write_all(content)
}

/// Calls `ZipWriter::finish`, which closes the last entry and writes the
/// central directory, and hands out the bytes of the sink. The outcome is a
/// function of what the writer holds, named `sealed`: the bytes of the
/// archive, or a failure.
#[verifier::external_body]
fn finish(writer: ArchiveWriter) -> (result: Result<Vec<u8>, ZipError>)
    ensures
        result is Ok <==> sealed(written_entries(writer)) is Some,
        result matches Ok(bytes) ==> Some(bytes@) == sealed(written_entries(writer)),
{
    match writer.inner.finish() {
        Ok(sink) => Ok(sink.into_inner()),
        Err(error) => Err(error),
    }
}

} // verus!
