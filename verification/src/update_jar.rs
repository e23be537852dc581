//! Rewriting an archive through a borrowed writer.

use vstd::prelude::*;

use crate::archive::archive_contents;
use crate::archive::views;
use crate::archive::StorageOptions;
use crate::copy_partial::added;
use crate::copy_partial::captured;
use crate::copy_partial::copied;
use crate::copy_partial::copy_succeeds;
use crate::copy_partial::first_failure;
use crate::copy_partial::keys;
use crate::copy_partial::only_copies;
use crate::copy_partial::paths_of;
use crate::copy_partial::reports;
use crate::copy_partial::rewrite_failure;
use crate::copy_partial::rewritten;
use crate::copy_partial::CopyPartial;
use crate::error::JarError;
use crate::string_map::StringMap;
use crate::writer::sealed;
use crate::writer::written_entries;
use crate::writer::ArchiveWriter;
use crate::writer::WrittenEntry;
use std::io::Cursor;
use zip::result::ZipError;
use zip::ZipArchive;

verus! {

/// Rewriting an archive through a borrowed writer, which is left empty once
/// the archive is finished.
pub trait UpdateJar {
    /// The entries that the writer holds, in the order in which they were
    /// written.
    spec fn written(&self) -> Seq<WrittenEntry>;

    /// Copies the files from the given archive into `self`, except for the
    /// files listed in `exclude`, and returns the storage options of the
    /// excluded entries by name.
    ///
    /// Fails exactly if the names of `src` cannot be listed, if an entry
    /// cannot be opened, if a file that is to be copied cannot be read, or if
    /// the writer refuses a copy.
    fn copy_partial(&mut self, src: &mut ZipArchive<Cursor<Vec<u8>>>, exclude: Vec<String>) -> (result:
        Result<StringMap<StorageOptions>, ZipError>)
        ensures
            archive_contents(*final(src)) == archive_contents(*old(src)),
            result is Ok <==> copy_succeeds(
                old(self).written(),
                archive_contents(*old(src)),
                views(exclude@),
            ),
            result matches Ok(options) ==> {
                let contents = archive_contents(*old(src));
                &&& final(self).written() == old(self).written() + copied(
                    contents,
                    contents.names->Some_0,
                    views(exclude@),
                )
                &&& options@ == captured(contents, contents.names->Some_0, views(exclude@))
            },
            result is Err ==> only_copies(
                old(self).written(),
                final(self).written(),
                views(exclude@),
            ),
    ;

    /// Adds the given `application*.properties` files with their respective
    /// `options` to `self`, in ascending path order.
    ///
    /// Fails with `JarError::Zip` if the writer refuses to start a file, and
    /// with `JarError::JavaProperties` if a mapping cannot be encoded or the
    /// writer refuses its text; the first failure decides.
    fn add_files(
        &mut self,
        properties: StringMap<StringMap<String>>,
        options: StringMap<StorageOptions>,
    ) -> (result: Result<(), JarError>)
        ensures
            result is Ok <==> first_failure(old(self).written(), properties@, options@) is None,
            result is Ok ==> final(self).written() == old(self).written() + added(
                properties@,
                options@,
            ),
            result matches Err(error) ==> reports(
                error,
                first_failure(old(self).written(), properties@, options@)->Some_0,
            ),
            result is Err ==> old(self).written().is_prefix_of(final(self).written()),
    ;

    /// Replaces the `application*.properties` files of the given archive:
    /// copies the entries of `src` that have no replacement in `properties`
    /// into `self`, adds the files of `properties`, each with the storage
    /// options of the entry it replaces, finishes the archive and returns its
    /// bytes. `self` is then a writer that holds nothing.
    ///
    /// Fails as the steps do. Where the copy fails, nothing is added after
    /// it: `self` holds what it held, followed by entries of which none has
    /// the path of a replacement.
    fn replace(
        &mut self,
        src: &mut ZipArchive<Cursor<Vec<u8>>>,
        properties: StringMap<StringMap<String>>,
    ) -> (result: Result<Vec<u8>, JarError>)
        ensures
            archive_contents(*final(src)) == archive_contents(*old(src)),
            result is Ok <==> rewrite_failure(
                old(self).written(),
                archive_contents(*old(src)),
                properties@,
            ) is None,
            result matches Ok(bytes) ==> Some(bytes@) == sealed(
                old(self).written() + rewritten(archive_contents(*old(src)), properties@),
            ) && final(self).written() == Seq::<WrittenEntry>::empty(),
            result matches Err(error) ==> reports(
                error,
                rewrite_failure(
                    old(self).written(),
                    archive_contents(*old(src)),
                    properties@,
                )->Some_0,
            ),
            !copy_succeeds(old(self).written(), archive_contents(*old(src)), keys(properties@))
                ==> only_copies(old(self).written(), final(self).written(), keys(properties@)),
    ;
}

impl UpdateJar for ArchiveWriter {
    open spec fn written(&self) -> Seq<WrittenEntry> {
        written_entries(*self)
    }

    fn copy_partial(&mut self, src: &mut ZipArchive<Cursor<Vec<u8>>>, exclude: Vec<String>) -> (result:
        Result<StringMap<StorageOptions>, ZipError>) {
        CopyPartial::copy_partial(self, src, exclude)
    }

    fn add_files(
        &mut self,
        properties: StringMap<StringMap<String>>,
        options: StringMap<StorageOptions>,
    ) -> (result: Result<(), JarError>) {
        CopyPartial::add_files(self, properties, options)
    }

    fn replace(
        &mut self,
        src: &mut ZipArchive<Cursor<Vec<u8>>>,
        properties: StringMap<StringMap<String>>,
    ) -> (result: Result<Vec<u8>, JarError>) {
        let ghost contents = archive_contents(*src);
        let ghost held = written_entries(*self);
        let exclude = paths_of(&properties);
        let options = match UpdateJar::copy_partial(self, src, exclude) {
            Ok(options) => options,
            Err(error) => {
                return Err(JarError::Zip(error));
            },
        };
        let ghost copies = copied(contents, contents.names->Some_0, keys(properties@));
        let ghost additions = added(properties@, options@);
        if let Err(error) = UpdateJar::add_files(self, properties, options) {
            return Err(error);
        }
        assert(written_entries(*self) =~= held + (copies + additions));
        let mut writer = ArchiveWriter::new();
        std::mem::swap(self, &mut writer);
        match writer.finish() {
            Ok(bytes) => Ok(bytes),
            Err(error) => Err(JarError::Zip(error)),
        }
    }
}

} // verus!
