//! Walking chosen entries of an archive one after the other.

use vstd::prelude::*;

use crate::archive::archive_contents;
use crate::archive::by_name;
use crate::archive::reader_entry;
use crate::archive::Contents;
use crate::archive::EntryReader;
use crate::error::JarError;
use crate::zip_file_path::all_text;
use crate::zip_file_path::copy_path;
use crate::zip_file_path::joined;
use crate::zip_file_path::path_to_zip_file_path;
use std::io::Cursor;
use zip::ZipArchive;

verus! {

/// A _lending iterator_ over the entries of a ZIP archive that are stored
/// under given paths.
pub struct EntriesMut<'a> {
    /// The archive that is walked.
    pub zip_archive: &'a mut ZipArchive<Cursor<Vec<u8>>>,
    /// The paths that are still to be visited, in order, each by the names
    /// of its components.
    pub file_names: Vec<Vec<Vec<u8>>>,
}

impl<'a> EntriesMut<'a> {
    /// The paths that are still to be visited, in order.
    pub open spec fn remaining(&self) -> Seq<Seq<Seq<u8>>> {
        self.file_names.deep_view()
    }

    /// What the archive that is walked holds.
    pub open spec fn contents(&self) -> Contents {
        archive_contents(*self.zip_archive)
    }

    /// Creates an iterator over the entries of `zip_archive` stored under
    /// `file_names`, in the order of `file_names`.
    pub fn new(zip_archive: &'a mut ZipArchive<Cursor<Vec<u8>>>, file_names: Vec<Vec<Vec<u8>>>) -> (entries:
        Self)
        ensures
            entries.remaining() == file_names.deep_view(),
            entries.contents() == archive_contents(*old(zip_archive)),
            *final(entries.zip_archive) == *final(zip_archive),
    {
        EntriesMut { zip_archive, file_names }
    }

    /// Return the next entry in the ZIP archive: the next path, with a reader
    /// on the entry stored under its names joined by `/`, or with the error
    /// of the lookup. A path with a name that is not valid UTF-8 is not looked
    /// up: it comes with `JarError::Utf8`, which holds the path.
    ///
    /// Since the reader borrows the archive, this constitutes a _lending
    /// iterator_.
    pub fn next(&mut self) -> (item: Option<(Vec<Vec<u8>>, Result<EntryReader<'_>, JarError>)>)
        ensures
            final(self).contents() == old(self).contents(),
            *final(final(self).zip_archive) == *final(old(self).zip_archive),
            item is None <==> old(self).remaining().len() == 0,
            item is None ==> final(self).remaining() == old(self).remaining(),
            item is Some ==> final(self).remaining() == old(self).remaining().drop_first(),
            item matches Some((path, found)) ==> {
                let name = joined(path.deep_view());
                &&& path.deep_view() == old(self).remaining()[0]
                &&& found is Ok <==> all_text(path.deep_view()) && old(
                    self,
                ).contents().entries.contains_key(name)
                &&& found matches Ok(reader) ==> reader_entry(reader) == old(
                    self,
                ).contents().entries[name] && reader_entry(reader).name == name
                &&& found matches Err(error) ==> if all_text(path.deep_view()) {
                    error is Zip
                } else {
                    error matches JarError::Utf8(refused) && refused.deep_view()
                        == path.deep_view()
                }
            },
    {
        if self.file_names.len() == 0 {
            return None;
        }
        let path = self.file_names.remove(0);
        assert(self.file_names.deep_view() =~= old(self).file_names.deep_view().drop_first());
        assert(path.deep_view() == old(self).file_names.deep_view()[0]);
        let name = match path_to_zip_file_path(&path) {
            Some(name) => name,
            None => {
                let refused = copy_path(&path);
                return Some((path, Err(JarError::Utf8(refused))));
            },
        };
        match by_name(self.zip_archive, name.as_str()) {
            Ok(reader) => Some((path, Ok(reader))),
            Err(error) => Some((path, Err(JarError::Zip(error)))),
        }
    }
}

} // verus!
