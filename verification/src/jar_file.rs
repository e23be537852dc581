//! API to a JAR file.

use vstd::prelude::*;

use crate::archive::open_archive;
use crate::archive::parsed;
use crate::archive::views;
use crate::archive::Contents;
use crate::copy_partial::all_open;
use crate::copy_partial::keys;
use crate::copy_partial::passed_over;
use crate::copy_partial::paths_of;
use crate::copy_partial::reports;
use crate::copy_partial::rewrite_failure;
use crate::copy_partial::rewritten;
use crate::copy_partial::unsupported_entries;
use crate::copy_partial::CopyPartial;
use crate::copy_partial::Failure;
use crate::error::JarError;
use crate::properties::decoded;
use crate::properties::encoded;
use crate::read_version::candidate_paths;
use crate::read_version::collected;
use crate::read_version::outcome_of;
use crate::read_version::properties_at;
use crate::read_version::versions_of;
use crate::read_version::Candidate;
use crate::read_version::ReadVersion;
use crate::string_map::ascending;
use crate::string_map::lemma_put;
use crate::string_map::lemma_put_twice;
use crate::string_map::put;
use crate::string_map::value_of;
use crate::string_map::StringMap;
use crate::writer::sealed;
use crate::writer::ArchiveWriter;
use crate::writer::WrittenEntry;
use zip::result::ZipError;

verus! {

/// `properties` with `version` stored under the version key of every mapping.
pub open spec fn versioned(
    properties: Seq<(Seq<char>, Seq<(Seq<char>, Seq<char>)>)>,
    version: Seq<char>,
) -> Seq<(Seq<char>, Seq<(Seq<char>, Seq<char>)>)> {
    properties.map_values(
        |entry: (Seq<char>, Seq<(Seq<char>, Seq<char>)>)|
            (entry.0, put(entry.1, crate::version_key(), version)),
    )
}

/// Replacement: after the version is set, every mapping is still under its
/// path, stores the version under the version key, and stores under every
/// other key what it stored before.
pub proof fn lemma_versioned(
    properties: Seq<(Seq<char>, Seq<(Seq<char>, Seq<char>)>)>,
    version: Seq<char>,
    i: int,
)
    requires
        0 <= i < properties.len(),
        ascending(properties[i].1),
    ensures
        versioned(properties, version).len() == properties.len(),
        versioned(properties, version)[i].0 == properties[i].0,
        ascending(versioned(properties, version)[i].1),
        value_of(versioned(properties, version)[i].1, crate::version_key()) == Some(version),
        forall|key: Seq<char>|
            key != crate::version_key() ==> #[trigger] value_of(
                versioned(properties, version)[i].1,
                key,
            ) == value_of(properties[i].1, key),
{
    lemma_put(properties[i].1, crate::version_key(), version);
}

/// Idempotence: setting the same version a second time changes nothing.
pub proof fn lemma_versioned_twice(
    properties: Seq<(Seq<char>, Seq<(Seq<char>, Seq<char>)>)>,
    version: Seq<char>,
)
    requires
        forall|i: int| 0 <= i < properties.len() ==> ascending((#[trigger] properties[i]).1),
    ensures
        versioned(versioned(properties, version), version) == versioned(properties, version),
{
    let once = versioned(properties, version);
    let twice = versioned(once, version);
    assert forall|i: int| 0 <= i < once.len() implies twice[i] == once[i] by {
        lemma_put_twice(properties[i].1, crate::version_key(), version);
    }
    assert(twice =~= once);
}

/// Missing candidates: a path under which the archive has no readable
/// properties file gets no replacement, so the rewritten archive has an entry
/// of that name only if the source has one.
pub proof fn lemma_missing_candidate(contents: Contents, version: Seq<char>, path: Seq<char>)
    requires
        contents.names is Some,
        properties_at(contents, path) is None,
    ensures
        ({
            let properties = versioned(collected(contents, candidate_paths()), version);
            &&& !keys(properties).contains(path)
            &&& forall|p: int|
                0 <= p < rewritten(contents, properties).len() && (#[trigger] rewritten(
                    contents,
                    properties,
                )[p]).name == path ==> contents.names->Some_0.contains(path)
        }),
{
    let first = collected(contents, candidate_paths());
    let properties = versioned(first, version);
    crate::read_version::lemma_collected_keys(contents, candidate_paths(), path);
    if keys(properties).contains(path) {
        let k = choose|k: int| 0 <= k < keys(properties).len() && keys(properties)[k] == path;
        assert(first[k].0 == path);
    }
    assert forall|p: int|
        0 <= p < rewritten(contents, properties).len() && (#[trigger] rewritten(
            contents,
            properties,
        )[p]).name == path implies contents.names->Some_0.contains(path) by {
        crate::copy_partial::lemma_rewritten_names(contents, properties, p);
    }
}

/// Idempotence: take the archive that setting a version writes, and let it
/// read back as it was written: under each candidate path it holds the
/// mapping that was written for the path, and none where none was written.
/// Then setting the same version in that archive writes the same mappings,
/// no more and no fewer.
pub proof fn lemma_set_version_twice(contents: Contents, again: Contents, version: Seq<char>)
    requires
        forall|i: int|
            0 <= i < candidate_paths().len() ==> properties_at(
                again,
                #[trigger] candidate_paths()[i],
            ) == value_of(
                versioned(collected(contents, candidate_paths()), version),
                candidate_paths()[i],
            ),
    ensures
        versioned(collected(again, candidate_paths()), version) == versioned(
            collected(contents, candidate_paths()),
            version,
        ),
{
    let first = collected(contents, candidate_paths());
    let written = versioned(first, version);
    let second = collected(again, candidate_paths());
    crate::read_version::lemma_collected_keys(contents, candidate_paths(), Seq::empty());
    crate::read_version::lemma_collected_keys(again, candidate_paths(), Seq::empty());
    assert forall|i: int, j: int| 0 <= i < j < written.len() implies crate::string_map::precedes(
        (#[trigger] written[i]).0,
        (#[trigger] written[j]).0,
    ) by {
        assert(written[i].0 == first[i].0 && written[j].0 == first[j].0);
    }
    assert forall|key: Seq<char>| value_of(second, key) == value_of(written, key) by {
        crate::read_version::lemma_collected_keys(again, candidate_paths(), key);
        crate::read_version::lemma_collected_keys(contents, candidate_paths(), key);
        if candidate_paths().contains(key) {
            let i = choose|i: int| 0 <= i < candidate_paths().len() && candidate_paths()[i] == key;
            assert(properties_at(again, candidate_paths()[i]) == value_of(written, key));
        } else if crate::string_map::has_key(written, key) {
            let p = crate::string_map::position(written, key);
            assert(first[p].0 == key);
        }
    }
    crate::string_map::lemma_ascending_unique(second, written);
    assert forall|i: int| 0 <= i < first.len() implies ascending((#[trigger] first[i]).1) by {
        crate::string_map::lemma_value_at(first, i);
        crate::read_version::lemma_collected_keys(contents, candidate_paths(), first[i].0);
        let text = contents.entries[first[i].0].content->Some_0;
        crate::properties::lemma_mapping_ascends(crate::properties::decoded_lines(text)->Some_0);
    }
    lemma_versioned_twice(first, version);
}

/// Reading back: take an archive that holds, under a candidate path, the
/// properties text of a mapping in which the version was set. If that text
/// decodes to the mapping it was encoded from, the version reported for the
/// path is the one that was set.
pub proof fn lemma_version_read_back(
    rewritten: Contents,
    path: Seq<char>,
    mapping: Seq<(Seq<char>, Seq<char>)>,
    version: Seq<char>,
)
    requires
        candidate_paths().contains(path),
        ascending(mapping),
        rewritten.entries.contains_key(path),
        rewritten.entries[path].content == Some(
            encoded(put(mapping, crate::version_key(), version)),
        ),
        decoded(encoded(put(mapping, crate::version_key(), version))) == Some(
            put(mapping, crate::version_key(), version),
        ),
    ensures
        value_of(versions_of(collected(rewritten, candidate_paths())), path) == Some(
            Some(version),
        ),
{
    let properties = collected(rewritten, candidate_paths());
    crate::read_version::lemma_collected_keys(rewritten, candidate_paths(), path);
    crate::read_version::lemma_versions_of(properties, path);
    lemma_put(mapping, crate::version_key(), version);
}

/// The failure of setting `version` in the JAR file made of `bytes`, or
/// `None` where it succeeds: the bytes are not an archive, or rewriting the
/// archive with the version set in every collected mapping fails.
pub open spec fn set_version_failure(bytes: Seq<u8>, version: Seq<char>) -> Option<Failure> {
    match parsed(bytes) {
        None => Some(Failure::Archive),
        Some(contents) => rewrite_failure(
            Seq::empty(),
            contents,
            versioned(collected(contents, candidate_paths()), version),
        ),
    }
}

/// Stores `version` under the version key of every mapping of `properties`,
/// replacing the version that a mapping had.
pub fn set_versions(properties: &mut StringMap<StringMap<String>>, version: &str)
    ensures
        final(properties)@ == versioned(old(properties)@, version@),
{
    let ghost initial = properties@;
    let count = properties.len();
    let mut index: usize = 0;
    while index < count
        invariant
            index <= count == initial.len(),
            properties@.len() == initial.len(),
            forall|j: int|
                0 <= j < index ==> #[trigger] properties@[j] == versioned(initial, version@)[j],
            forall|j: int| index <= j < count ==> #[trigger] properties@[j] == initial[j],
        decreases count - index,
    {
        let mut mapping = properties.replace_value_at(index, StringMap::new());
        mapping.insert("softwareVersion".to_owned(), version.to_owned());
        properties.replace_value_at(index, mapping);
        index += 1;
    }
    assert(properties@ =~= versioned(initial, version@));
}

/// API to a JAR file.
pub struct JarFile<T> {
    inner: T,
}

impl<T> JarFile<T> {
    /// The file object that the JAR file was made from.
    pub closed spec fn inner(&self) -> T {
        self.inner
    }

    /// Create a new JAR file.
    pub fn new(inner: T) -> (jar_file: Self)
        ensures
            jar_file.inner() == inner,
    {
        Self { inner }
    }

    /// Returns the inner file object.
    pub fn into_inner(self) -> (inner: T)
        ensures
            inner == self.inner(),
    {
        self.inner
    }
}

impl JarFile<Vec<u8>> {
    /// Return the versions stored in the JAR file's properties files: for each
    /// candidate path that holds a readable properties file, the value under
    /// the version key, or `None` where the key is missing.
    ///
    /// # Errors
    ///
    /// Returns a [`ZipError`] exactly if the bytes are not a ZIP archive.
    pub fn versions(&mut self) -> (result: Result<StringMap<Option<String>>, ZipError>)
        ensures
            final(self).inner() == old(self).inner(),
            result is Ok <==> parsed(old(self).inner()@) is Some,
            result matches Ok(versions) ==> versions@ == versions_of(
                collected(parsed(old(self).inner()@)->Some_0, candidate_paths()),
            ),
    {
        match open_archive(self.inner.clone()) {
            Ok(mut zip_archive) => Ok(zip_archive.versions()),
            Err(error) => Err(error),
        }
    }

    /// Returns, for each candidate path, what reading the JAR file makes of
    /// it: whether its mapping is collected, and why not otherwise.
    ///
    /// # Errors
    ///
    /// Returns a [`ZipError`] exactly if the bytes are not a ZIP archive.
    pub fn candidates(&mut self) -> (result: Result<Vec<(String, Candidate)>, ZipError>)
        ensures
            final(self).inner() == old(self).inner(),
            result is Ok <==> parsed(old(self).inner()@) is Some,
            result matches Ok(outcomes) ==> {
                let contents = parsed(old(self).inner()@)->Some_0;
                &&& outcomes@.len() == candidate_paths().len()
                &&& forall|i: int|
                    0 <= i < outcomes@.len() ==> (#[trigger] outcomes@[i]).0@
                        == candidate_paths()[i] && outcomes@[i].1 == outcome_of(
                        contents,
                        candidate_paths()[i],
                    )
            },
    {
        match open_archive(self.inner.clone()) {
            Ok(mut zip_archive) => Ok(zip_archive.candidates()),
            Err(error) => Err(error),
        }
    }

    /// Returns the names of the entries that `set_version` leaves out of the
    /// new archive because they are neither a file nor a directory, in stored
    /// order.
    ///
    /// # Errors
    ///
    /// Returns a [`ZipError`] exactly if the bytes are not a ZIP archive, if
    /// its names cannot be listed or if an entry cannot be opened.
    pub fn unsupported(&mut self) -> (result: Result<Vec<String>, ZipError>)
        ensures
            final(self).inner() == old(self).inner(),
            result is Ok <==> parsed(old(self).inner()@) is Some && parsed(
                old(self).inner()@,
            )->Some_0.names is Some && all_open(
                parsed(old(self).inner()@)->Some_0,
                parsed(old(self).inner()@)->Some_0.names->Some_0,
            ),
            result matches Ok(skipped) ==> {
                let contents = parsed(old(self).inner()@)->Some_0;
                views(skipped@) == passed_over(
                    contents,
                    contents.names->Some_0,
                    keys(collected(contents, candidate_paths())),
                )
            },
    {
        match open_archive(self.inner.clone()) {
            Ok(mut zip_archive) => {
                let properties = zip_archive.get_properties();
                let exclude = paths_of(&properties);
                unsupported_entries(&mut zip_archive, &exclude)
            },
            Err(error) => Err(error),
        }
    }

    /// Set the version in the JAR file's properties files: returns the bytes
    /// of the archive in which every properties file that could be read
    /// stores `version` under the version key, and every other entry is
    /// copied as it is. The properties files come last, in ascending path
    /// order, each with the storage options it had.
    ///
    /// # Errors
    ///
    /// Returns `JarError::Zip` if the bytes are not a ZIP archive, if an entry
    /// cannot be read, or if the new archive cannot be written, and
    /// `JarError::JavaProperties` if a mapping cannot be encoded or its text
    /// cannot be written. It fails in no other case.
    pub fn set_version(&mut self, version: &str) -> (result: Result<Vec<u8>, JarError>)
        ensures
            final(self).inner() == old(self).inner(),
            result is Ok <==> set_version_failure(old(self).inner()@, version@) is None,
            result matches Ok(bytes) ==> {
                let contents = parsed(old(self).inner()@)->Some_0;
                let properties = versioned(collected(contents, candidate_paths()), version@);
                Some(bytes@) == sealed(rewritten(contents, properties))
            },
            result matches Err(error) ==> reports(
                error,
                set_version_failure(old(self).inner()@, version@)->Some_0,
            ),
    {
        let mut zip_archive = match open_archive(self.inner.clone()) {
            Ok(zip_archive) => zip_archive,
            Err(error) => {
                return Err(JarError::Zip(error));
            },
        };
        let mut properties = zip_archive.get_properties();
        set_versions(&mut properties, version);
        let zip_writer = ArchiveWriter::new();
        let ghost contents = parsed(self.inner@)->Some_0;
        let ghost replacements = properties@;
        proof {
            assert(Seq::<WrittenEntry>::empty() + rewritten(contents, replacements) =~= rewritten(
                contents,
                replacements,
            ));
        }
        CopyPartial::replace(zip_writer, &mut zip_archive, properties)
    }
}

} // verus!
