//! Looking an entry up by a file system path.

use vstd::prelude::*;

use crate::archive::archive_contents;
use crate::archive::by_name;
use crate::archive::reader_entry;
use crate::archive::Contents;
use crate::archive::EntryReader;
use crate::error::file_not_found;
use crate::zip_file_path::all_text;
use crate::zip_file_path::joined;
use crate::zip_file_path::path_to_zip_file_path;
use std::io::Cursor;
use zip::result::ZipError;
use zip::ZipArchive;

verus! {

/// The name under which the ZIP reader looks an entry up for a path given as
/// text: the path with `.` and `..` resolved and its names joined by `/`, or
/// `None` where the path cannot be converted.
pub uninterp spec fn lookup_name(path: Seq<char>) -> Option<Seq<char>>;

/// Calls `zip::unstable::path_to_string`, the conversion that
/// `ZipArchive::index_for_path` applies to a path before it looks the name
/// up. The outcome is a function of the path, named `lookup_name`.
#[verifier::external_body]
fn path_to_string(path: &str) -> (name: Option<String>)
    ensures
        name is Some <==> lookup_name(path@) is Some,
        name matches Some(text) ==> Some(text@) == lookup_name(path@),
{
    match zip::unstable::path_to_string(path) {
        Ok(name) => Some(name.into_string()),
        Err(_) => None,
    }
}

/// The name under which an entry is looked up for a path given by the names
/// of its components, or `None` where the path has no entry whatever the
/// archive holds: a name of the path is not valid UTF-8, or the path cannot
/// be converted.
pub open spec fn entry_name(path: Seq<Seq<u8>>) -> Option<Seq<char>> {
    if all_text(path) {
        lookup_name(joined(path))
    } else {
        None
    }
}

/// Extension trait to look entries up by path.
pub trait ByPath {
    /// What the archive holds.
    spec fn holds(&self) -> Contents;

    /// Returns a file from the ZIP archive by its path, given by the names
    /// of its components: a reader on the entry stored under the name that
    /// the ZIP reader looks up for the path. The lookup fails exactly if the
    /// path has no such name or the archive has no entry under it that can be
    /// opened.
    fn by_path(&mut self, path: Vec<Vec<u8>>) -> (result: Result<EntryReader<'_>, ZipError>)
        ensures
            final(self).holds() == old(self).holds(),
            result is Ok <==> entry_name(path.deep_view()) is Some && old(
                self,
            ).holds().entries.contains_key(entry_name(path.deep_view())->Some_0),
            result matches Ok(reader) ==> reader_entry(reader) == old(
                self,
            ).holds().entries[entry_name(path.deep_view())->Some_0],
    ;
}

impl ByPath for ZipArchive<Cursor<Vec<u8>>> {
    open spec fn holds(&self) -> Contents {
        archive_contents(*self)
    }

    fn by_path(&mut self, path: Vec<Vec<u8>>) -> (result: Result<EntryReader<'_>, ZipError>) {
        let text = match path_to_zip_file_path(&path) {
            Some(text) => text,
            None => {
                return Err(file_not_found());
            },
        };
        match path_to_string(text.as_str()) {
            Some(name) => by_name(self, name.as_str()),
            None => Err(file_not_found()),
        }
    }
}

} // verus!
