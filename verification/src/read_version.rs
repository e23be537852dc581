//! Finding the properties files of a JAR file and the versions they store.

use vstd::prelude::*;
use vstd::string::StringSliceAdditionalSpecFns;

use crate::archive::archive_contents;
use crate::archive::by_name;
use crate::archive::Contents;
use crate::entries_mut::EntriesMut;
use crate::properties::decode;
use crate::properties::decoded;
use crate::string_map::ascending;
use crate::string_map::lemma_put_last;
use crate::string_map::put;
use crate::string_map::value_of;
use crate::string_map::StringMap;
use crate::zip_file_path::all_text;
use crate::zip_file_path::copy_path;
use crate::zip_file_path::joined;
use crate::zip_file_path::path_to_zip_file_path;
use std::io::Cursor;
use zip::ZipArchive;

verus! {

/// The paths inside a JAR file at which a properties file may be stored.
pub open spec fn candidate_paths() -> Seq<Seq<char>> {
    seq![
        "BOOT-INF/classes/application.properties"@,
        "BOOT-INF/classes/application-dev.properties"@,
        "BOOT-INF/classes/application-int.properties"@,
        "BOOT-INF/classes/application-local.properties"@,
        "BOOT-INF/classes/application-prod.properties"@,
    ]
}

/// The candidate paths, each by the names of its components.
pub open spec fn candidate_files() -> Seq<Seq<Seq<u8>>> {
    crate::properties_file_names().map_values(
        |file_name: Seq<char>| crate::properties_file(file_name),
    )
}

/// The names inside an archive of paths given by their components.
pub open spec fn names_of(paths: Seq<Seq<Seq<u8>>>) -> Seq<Seq<char>> {
    paths.map_values(|path: Seq<Seq<u8>>| joined(path))
}

/// Whether the archive has an entry that can be opened under `path`.
pub open spec fn is_present(contents: Contents, path: Seq<Seq<u8>>) -> bool {
    all_text(path) && contents.entries.contains_key(joined(path))
}

/// Those of `paths` under which the archive has an entry that can be opened,
/// in the order of `paths`.
pub open spec fn present(contents: Contents, paths: Seq<Seq<Seq<u8>>>) -> Seq<Seq<Seq<u8>>>
    decreases paths.len(),
{
    if paths.len() == 0 {
        Seq::empty()
    } else if is_present(contents, paths.last()) {
        present(contents, paths.drop_last()).push(paths.last())
    } else {
        present(contents, paths.drop_last())
    }
}

/// The mapping stored under `name`, if there is an entry of that name whose
/// content can be read and is valid properties text.
pub open spec fn properties_at(contents: Contents, name: Seq<char>) -> Option<
    Seq<(Seq<char>, Seq<char>)>,
> {
    if contents.entries.contains_key(name) && contents.entries[name].content is Some {
        decoded(contents.entries[name].content->Some_0)
    } else {
        None
    }
}

/// The mappings of the properties files among `names`, by path: names without a
/// readable properties file are passed over.
pub open spec fn collected(contents: Contents, names: Seq<Seq<char>>) -> Seq<
    (Seq<char>, Seq<(Seq<char>, Seq<char>)>),
>
    decreases names.len(),
{
    if names.len() == 0 {
        Seq::empty()
    } else {
        let before = collected(contents, names.drop_last());
        match properties_at(contents, names.last()) {
            Some(mapping) => put(before, names.last(), mapping),
            None => before,
        }
    }
}

/// What collecting makes of a candidate path.
#[derive(Clone, Copy, Debug, PartialEq, Eq, Structural)]
pub enum Candidate {
    /// The archive has no entry under the path that can be opened.
    Missing,
    /// The content of the entry cannot be read.
    Unreadable,
    /// The content of the entry is not valid properties text.
    Malformed,
    /// The mapping of the entry is collected.
    Collected,
}

/// What collecting makes of the candidate path `name`.
pub open spec fn outcome_of(contents: Contents, name: Seq<char>) -> Candidate {
    if !contents.entries.contains_key(name) {
        Candidate::Missing
    } else if contents.entries[name].content is None {
        Candidate::Unreadable
    } else if decoded(contents.entries[name].content->Some_0) is None {
        Candidate::Malformed
    } else {
        Candidate::Collected
    }
}

/// The version that each mapping stores, by path.
pub open spec fn versions_of(
    properties: Seq<(Seq<char>, Seq<(Seq<char>, Seq<char>)>)>,
) -> Seq<(Seq<char>, Option<Seq<char>>)> {
    properties.map_values(
        |entry: (Seq<char>, Seq<(Seq<char>, Seq<char>)>)|
            (entry.0, value_of(entry.1, crate::version_key())),
    )
}

/// Every path that is present has an entry that can be opened.
pub proof fn lemma_present(contents: Contents, paths: Seq<Seq<Seq<u8>>>)
    ensures
        forall|i: int|
            0 <= i < present(contents, paths).len() ==> is_present(
                contents,
                #[trigger] present(contents, paths)[i],
            ),
    decreases paths.len(),
{
    if paths.len() > 0 {
        lemma_present(contents, paths.drop_last());
        let found = present(contents, paths);
        let front = present(contents, paths.drop_last());
        assert forall|i: int| 0 <= i < found.len() implies is_present(
            contents,
            #[trigger] found[i],
        ) by {
            if i < front.len() {
                assert(found[i] == front[i]);
            }
        }
    }
}

/// Paths without an entry contribute nothing to the collected mappings.
pub proof fn lemma_collected_of_present(contents: Contents, paths: Seq<Seq<Seq<u8>>>)
    requires
        forall|i: int| 0 <= i < paths.len() ==> all_text(#[trigger] paths[i]),
    ensures
        collected(contents, names_of(present(contents, paths))) == collected(
            contents,
            names_of(paths),
        ),
    decreases paths.len(),
{
    if paths.len() > 0 {
        let front = paths.drop_last();
        assert forall|i: int| 0 <= i < front.len() implies all_text(#[trigger] front[i]) by {
            assert(front[i] == paths[i]);
        }
        lemma_collected_of_present(contents, front);
        assert(names_of(paths).drop_last() =~= names_of(front));
        assert(names_of(paths).last() == joined(paths.last()));
        assert(all_text(paths[paths.len() - 1]));
        if is_present(contents, paths.last()) {
            let found = present(contents, front);
            assert(names_of(found.push(paths.last())).drop_last() =~= names_of(found));
            assert(names_of(found.push(paths.last())).last() == joined(paths.last()));
        }
    } else {
        assert(names_of(paths) =~= Seq::<Seq<char>>::empty());
    }
}

/// Missing candidates are passed over: a path has a collected mapping exactly
/// if it is among the names and the archive has a readable properties file
/// under it, and the mapping is then that of the file.
pub proof fn lemma_collected_keys(contents: Contents, names: Seq<Seq<char>>, path: Seq<char>)
    ensures
        ascending(collected(contents, names)),
        crate::string_map::distinct_keys(collected(contents, names)),
        crate::string_map::has_key(collected(contents, names), path) <==> names.contains(path)
            && properties_at(contents, path) is Some,
        crate::string_map::has_key(collected(contents, names), path)
            ==> contents.entries.contains_key(path) && value_of(
            collected(contents, names),
            path,
        ) == properties_at(contents, path),
    decreases names.len(),
{
    if names.len() == 0 {
        assert(!crate::string_map::has_key(collected(contents, names), path));
    } else {
        let before = collected(contents, names.drop_last());
        lemma_collected_keys(contents, names.drop_last(), path);
        crate::string_map::lemma_ascending_distinct(before);
        if let Some(mapping) = properties_at(contents, names.last()) {
            crate::string_map::lemma_put(before, names.last(), mapping);
        }
        if names.drop_last().contains(path) {
            let k = choose|k: int| 0 <= k < names.drop_last().len() && names.drop_last()[k] == path;
            assert(names[k] == path);
        }
        if names.contains(path) && path != names.last() {
            let k = choose|k: int| 0 <= k < names.len() && names[k] == path;
            assert(names.drop_last()[k] == path);
        }
        assert(names[names.len() - 1] == names.last());
    }
}

/// The version reported for a path is what the mapping collected for the
/// path stores under the version key; a path without a mapping has no report.
pub proof fn lemma_versions_of(
    properties: Seq<(Seq<char>, Seq<(Seq<char>, Seq<char>)>)>,
    path: Seq<char>,
)
    requires
        crate::string_map::distinct_keys(properties),
    ensures
        crate::string_map::distinct_keys(versions_of(properties)),
        crate::string_map::has_key(versions_of(properties), path) <==> crate::string_map::has_key(
            properties,
            path,
        ),
        crate::string_map::has_key(properties, path) ==> value_of(versions_of(properties), path)
            == Some(value_of(value_of(properties, path)->Some_0, crate::version_key())),
{
    let versions = versions_of(properties);
    assert forall|i: int, j: int|
        0 <= i < versions.len() && 0 <= j < versions.len() && (#[trigger] versions[i]).0 == (
        #[trigger] versions[j]).0 implies i == j by {
        assert(properties[i].0 == properties[j].0);
    }
    if crate::string_map::has_key(properties, path) {
        let p = crate::string_map::position(properties, path);
        assert(versions[p].0 == path);
        let q = crate::string_map::position(versions, path);
        assert(properties[q].0 == properties[p].0);
    }
    if crate::string_map::has_key(versions, path) {
        let q = crate::string_map::position(versions, path);
        assert(properties[q].0 == path);
    }
}

/// Extension trait to read the properties files of a JAR file.
pub trait ReadVersion {
    /// What the archive holds.
    spec fn jar(&self) -> Contents;

    /// Returns an iterator over the JAR's `application*.properties` files:
    /// those of the candidate paths under which the archive has an entry that
    /// can be opened.
    fn properties_files(&mut self) -> (entries: EntriesMut<'_>)
        ensures
            entries.contents() == old(self).jar(),
            entries.remaining() == present(old(self).jar(), candidate_files()),
            archive_contents(*final(entries.zip_archive)) == final(self).jar(),
    ;

    /// Returns the JAR file's properties files as a map of path to properties.
    /// Candidates that are missing, cannot be read or are not valid properties
    /// text are passed over.
    fn get_properties(&mut self) -> (properties: StringMap<StringMap<String>>)
        ensures
            final(self).jar() == old(self).jar(),
            properties@ == collected(old(self).jar(), candidate_paths()),
    ;

    /// Returns, for each candidate path in the order of the candidates, what
    /// collecting makes of it: a path is collected exactly if it has a
    /// mapping in what `get_properties` returns, and is passed over for the
    /// reason given otherwise.
    fn candidates(&mut self) -> (outcomes: Vec<(String, Candidate)>)
        ensures
            final(self).jar() == old(self).jar(),
            outcomes@.len() == candidate_paths().len(),
            forall|i: int|
                0 <= i < outcomes@.len() ==> (#[trigger] outcomes@[i]).0@ == candidate_paths()[i]
                    && outcomes@[i].1 == outcome_of(old(self).jar(), candidate_paths()[i]),
            forall|i: int|
                0 <= i < outcomes@.len() ==> ((#[trigger] outcomes@[i]).1 == Candidate::Collected
                    <==> properties_at(old(self).jar(), candidate_paths()[i]) is Some),
    ;

    /// Returns a map of the properties files' names and versions stored
    /// therein, in ascending path order.
    fn versions(&mut self) -> (versions: StringMap<Option<String>>)
        ensures
            final(self).jar() == old(self).jar(),
            versions@ == versions_of(collected(old(self).jar(), candidate_paths())),
    ;
}

/// Each candidate path is the directory `BOOT-INF/classes` joined with one of
/// the names of the properties files.
pub proof fn lemma_candidate_paths()
    ensures
        candidate_files().len() == 5,
        forall|i: int| 0 <= i < 5 ==> all_text(#[trigger] candidate_files()[i]),
        names_of(candidate_files()) == candidate_paths(),
{
    broadcast use vstd::utf8::encode_utf8_decode_utf8, vstd::utf8::encode_utf8_valid_utf8;

    reveal_strlit("BOOT-INF");
    reveal_strlit("classes");
    reveal_strlit("application.properties");
    reveal_strlit("application-dev.properties");
    reveal_strlit("application-int.properties");
    reveal_strlit("application-local.properties");
    reveal_strlit("application-prod.properties");
    reveal_strlit("BOOT-INF/classes/application.properties");
    reveal_strlit("BOOT-INF/classes/application-dev.properties");
    reveal_strlit("BOOT-INF/classes/application-int.properties");
    reveal_strlit("BOOT-INF/classes/application-local.properties");
    reveal_strlit("BOOT-INF/classes/application-prod.properties");
    assert forall|i: int| 0 <= i < 5 implies all_text(#[trigger] candidate_files()[i]) && joined(
        candidate_files()[i],
    ) == candidate_paths()[i] by {
        let file_name = crate::properties_file_names()[i];
        let path = crate::properties_file(file_name);
        assert(candidate_files()[i] == path);
        assert(path.drop_last() =~= seq!["BOOT-INF".spec_bytes(), "classes".spec_bytes()]);
        assert(path.drop_last().drop_last() =~= seq!["BOOT-INF".spec_bytes()]);
        assert(joined(path.drop_last().drop_last()) == "BOOT-INF"@);
        assert(joined(path.drop_last()) == "BOOT-INF"@ + seq!['/'] + "classes"@);
        assert(joined(path) == "BOOT-INF"@ + seq!['/'] + "classes"@ + seq!['/'] + file_name);
        assert(joined(path) =~= candidate_paths()[i]);
    }
    assert(names_of(candidate_files()) =~= candidate_paths());
}

impl ReadVersion for ZipArchive<Cursor<Vec<u8>>> {
    open spec fn jar(&self) -> Contents {
        archive_contents(*self)
    }

    fn properties_files(&mut self) -> (entries: EntriesMut<'_>) {
        let candidates = crate::properties_files();
        let ghost paths = candidates.deep_view();
        assert(paths =~= candidate_files());
        let mut file_names: Vec<Vec<Vec<u8>>> = Vec::new();
        let mut index: usize = 0;
        assert(file_names.deep_view() =~= Seq::<Seq<Seq<u8>>>::empty());
        while index < candidates.len()
            invariant
                index <= candidates.len(),
                paths == candidates.deep_view(),
                archive_contents(*self) == archive_contents(*old(self)),
                file_names.deep_view() == present(
                    archive_contents(*old(self)),
                    paths.take(index as int),
                ),
            decreases candidates.len() - index,
        {
            proof {
                assert(paths.take(index + 1).drop_last() =~= paths.take(index as int));
                assert(paths.take(index + 1).last() == candidates[index as int].deep_view());
            }
            let found = match path_to_zip_file_path(&candidates[index]) {
                Some(name) => by_name(self, name.as_str()).is_ok(),
                None => false,
            };
            if found {
                let ghost before = file_names.deep_view();
                let path = copy_path(&candidates[index]);
                file_names.push(path);
                assert(file_names.deep_view() =~= before.push(path.deep_view())) by {
                    assert forall|i: int| 0 <= i < file_names.len() implies file_names.deep_view()[i]
                        == before.push(path.deep_view())[i] by {
                        assert(file_names.deep_view()[i] == file_names[i].deep_view());
                    }
                }
            }
            index += 1;
        }
        assert(paths.take(index as int) =~= paths);
        EntriesMut::new(self, file_names)
    }

    fn get_properties(&mut self) -> (properties: StringMap<StringMap<String>>) {
        let ghost contents = archive_contents(*self);
        let mut zip_files = self.properties_files();
        let ghost paths = zip_files.remaining();
        let ghost outcome = archive_contents(*final(zip_files.zip_archive));
        let ghost mut visited: int = 0;
        let mut properties_files: StringMap<StringMap<String>> = StringMap::new();
        proof {
            lemma_present(contents, candidate_files());
            assert(names_of(paths.take(0)) =~= Seq::<Seq<char>>::empty());
        }
        loop
            invariant
                0 <= visited <= paths.len(),
                zip_files.contents() == contents,
                archive_contents(*final(zip_files.zip_archive)) == outcome,
                zip_files.remaining() == paths.skip(visited),
                properties_files@ == collected(contents, names_of(paths.take(visited))),
                forall|i: int| 0 <= i < paths.len() ==> is_present(contents, #[trigger] paths[i]),
            ensures
                properties_files@ == collected(contents, names_of(paths)),
                zip_files.contents() == contents,
                archive_contents(*final(zip_files.zip_archive)) == outcome,
            decreases paths.len() - visited,
        {
            match zip_files.next() {
                None => {
                    assert(paths.take(visited) =~= paths);
                    break ;
                },
                Some((path, zip_file)) => {
                    proof {
                        let upto = names_of(paths.take(visited + 1));
                        assert(upto.drop_last() =~= names_of(paths.take(visited)));
                        assert(upto.last() == joined(path.deep_view()));
                        assert(paths.skip(visited).drop_first() =~= paths.skip(visited + 1));
                        assert(is_present(contents, paths[visited]));
                        visited = visited + 1;
                    }
                    if let Ok(entry) = zip_file {
                        if let Ok(content) = entry.content() {
                            if let Ok(properties) = decode(content.as_slice()) {
                                if let Some(name) = path_to_zip_file_path(&path) {
                                    properties_files.insert(name, properties);
                                }
                            }
                        }
                    }
                },
            }
        }
        proof {
            lemma_candidate_paths();
            lemma_collected_of_present(contents, candidate_files());
        }
        properties_files
    }

    fn candidates(&mut self) -> (outcomes: Vec<(String, Candidate)>) {
        let ghost contents = archive_contents(*self);
        let files = crate::properties_files();
        assert(files.deep_view() =~= candidate_files());
        let mut outcomes: Vec<(String, Candidate)> = Vec::new();
        let mut index: usize = 0;
        proof {
            lemma_candidate_paths();
        }
        while index < files.len()
            invariant
                index <= files.len() == 5,
                files.deep_view() == candidate_files(),
                names_of(candidate_files()) == candidate_paths(),
                forall|i: int| 0 <= i < 5 ==> all_text(#[trigger] candidate_files()[i]),
                archive_contents(*self) == contents,
                outcomes@.len() == index,
                forall|i: int|
                    0 <= i < index ==> (#[trigger] outcomes@[i]).0@ == candidate_paths()[i]
                        && outcomes@[i].1 == outcome_of(contents, candidate_paths()[i]),
            decreases files.len() - index,
        {
            assert(files.deep_view()[index as int] == files[index as int].deep_view());
            assert(all_text(candidate_files()[index as int]));
            assert(names_of(candidate_files())[index as int] == joined(
                candidate_files()[index as int],
            ));
            if let Some(name) = path_to_zip_file_path(&files[index]) {
                let outcome = match by_name(self, name.as_str()) {
                    Err(_) => Candidate::Missing,
                    Ok(entry) => match entry.content() {
                        Err(_) => Candidate::Unreadable,
                        Ok(content) => match decode(content.as_slice()) {
                            Err(_) => Candidate::Malformed,
                            Ok(_) => Candidate::Collected,
                        },
                    },
                };
                outcomes.push((name, outcome));
            }
            index += 1;
        }
        assert(candidate_paths().len() == 5);
        outcomes
    }

    fn versions(&mut self) -> (versions: StringMap<Option<String>>) {
        let properties = self.get_properties();
        project_versions(&properties)
    }
}

/// Maps each mapping to the value it stores under the version key, or to
/// `None` where the key is missing.
pub fn project_versions(properties: &StringMap<StringMap<String>>) -> (versions: StringMap<
    Option<String>,
>)
    ensures
        versions@ == versions_of(properties@),
{
    let key = "softwareVersion".to_owned();
    let mut versions: StringMap<Option<String>> = StringMap::new();
    let count = properties.len();
    let mut index: usize = 0;
    while index < count
        invariant
            index <= count == properties@.len(),
            key@ == crate::version_key(),
            ascending(properties@),
            versions@ == versions_of(properties@).take(index as int),
        decreases properties@.len() - index,
    {
        let path = properties.key_at(index).clone();
        let version = match properties.value_at(index).get(&key) {
            Some(version) => Some(version.clone()),
            None => None,
        };
        proof {
            let before = versions_of(properties@).take(index as int);
            let entry = versions_of(properties@)[index as int];
            assert(entry.0 == path@);
            assert(entry.1 == version.deep_view());
            assert forall|i: int, j: int| 0 <= i < j < before.len() implies crate::string_map::precedes(
                (#[trigger] before[i]).0,
                (#[trigger] before[j]).0,
            ) by {
                assert(before[i].0 == properties@[i].0 && before[j].0 == properties@[j].0);
            }
            assert forall|i: int| 0 <= i < before.len() implies crate::string_map::precedes(
                (#[trigger] before[i]).0,
                path@,
            ) by {
                assert(before[i].0 == properties@[i].0);
            }
            lemma_put_last(before, path@, version.deep_view());
            assert(before.push(entry) =~= versions_of(properties@).take(index + 1));
        }
        versions.insert(path, version);
        index += 1;
    }
    assert(versions_of(properties@).take(index as int) =~= versions_of(properties@));
    versions
}

} // verus!
