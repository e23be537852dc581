//! The selective archive rewriter: copying an archive into a new one while
//! leaving chosen entries out, and writing regenerated entries in their place.

use vstd::prelude::*;

use crate::archive::archive_contents;
use crate::archive::by_name;
use crate::archive::entry_names;
use crate::archive::views;
use crate::archive::Contents;
use crate::archive::EntryKind;
use crate::archive::SourceEntry;
use crate::archive::StorageOptions;
use crate::error::properties_error_of;
use crate::error::zip_error_of;
use crate::error::JarError;
use crate::properties::encodable;
use crate::properties::encode;
use crate::properties::encoded;
use crate::string_map::ascending;
use crate::string_map::distinct_keys;
use crate::string_map::has_key;
use crate::string_map::lemma_ascending_distinct;
use crate::string_map::lemma_without;
use crate::string_map::precedes;
use crate::string_map::put;
use crate::string_map::value_of;
use crate::string_map::StringMap;
use crate::writer::add_directory;
use crate::writer::content_taken;
use crate::writer::file_taken;
use crate::writer::lemma_takes_all_prefix;
use crate::writer::sealed;
use crate::writer::start_file;
use crate::writer::start_file_with_defaults;
use crate::writer::started_file;
use crate::writer::takes;
use crate::writer::takes_all;
use crate::writer::write_content;
use crate::writer::written_entries;
use crate::writer::ArchiveWriter;
use crate::writer::WrittenEntry;
use std::io::Cursor;
use zip::result::ZipError;
use zip::ZipArchive;

verus! {

/// What copying the entry stored under `name` writes: a file with its content,
/// a directory, or nothing for an entry of an unsupported kind. The copy has
/// the name and the storage options of the entry.
pub open spec fn copy_of(name: Seq<char>, entry: SourceEntry) -> Option<WrittenEntry> {
    match entry.kind {
        EntryKind::File => Some(
            WrittenEntry {
                name,
                kind: EntryKind::File,
                options: Some(entry.options),
                content: entry.content->Some_0,
            },
        ),
        EntryKind::Directory => Some(
            WrittenEntry {
                name,
                kind: EntryKind::Directory,
                options: Some(entry.options),
                content: Seq::empty(),
            },
        ),
        EntryKind::Unsupported => None,
    }
}

/// Whether the entry stored under `name` is copied: it is not excluded and
/// its kind is supported.
pub open spec fn is_copied(contents: Contents, exclude: Seq<Seq<char>>, name: Seq<char>) -> bool {
    !exclude.contains(name) && contents.entries[name].kind != EntryKind::Unsupported
}

/// The entries that copying writes: the copies of the entries stored under
/// `names` that are not excluded, in the order of `names`.
pub open spec fn copied(contents: Contents, names: Seq<Seq<char>>, exclude: Seq<Seq<char>>) -> Seq<
    WrittenEntry,
>
    decreases names.len(),
{
    if names.len() == 0 {
        Seq::empty()
    } else if is_copied(contents, exclude, names.last()) {
        copied(contents, names.drop_last(), exclude).push(
            copy_of(names.last(), contents.entries[names.last()])->Some_0,
        )
    } else {
        copied(contents, names.drop_last(), exclude)
    }
}

/// The storage options of the excluded entries among `names`, by name.
pub open spec fn captured(contents: Contents, names: Seq<Seq<char>>, exclude: Seq<Seq<char>>) -> Seq<
    (Seq<char>, StorageOptions),
>
    decreases names.len(),
{
    if names.len() == 0 {
        Seq::empty()
    } else if exclude.contains(names.last()) {
        put(
            captured(contents, names.drop_last(), exclude),
            names.last(),
            contents.entries[names.last()].options,
        )
    } else {
        captured(contents, names.drop_last(), exclude)
    }
}

/// Whether copying can read all it needs: every name has an entry that can
/// be opened, and every file that is copied has content that can be read.
pub open spec fn readable(contents: Contents, names: Seq<Seq<char>>, exclude: Seq<Seq<char>>) -> bool {
    forall|i: int|
        0 <= i < names.len() ==> contents.entries.contains_key(#[trigger] names[i]) && (
        !exclude.contains(names[i]) && contents.entries[names[i]].kind == EntryKind::File
            ==> contents.entries[names[i]].content is Some)
}

/// The entry that is written for the mapping `properties` at `path`: a file
/// with the properties text as content and the storage options captured for
/// the path, if any.
pub open spec fn replacement(
    path: Seq<char>,
    properties: Seq<(Seq<char>, Seq<char>)>,
    options: Seq<(Seq<char>, StorageOptions)>,
) -> WrittenEntry {
    WrittenEntry {
        name: path,
        kind: EntryKind::File,
        options: value_of(options, path),
        content: encoded(properties),
    }
}

/// The entries that are written for `properties`, in its order.
pub open spec fn added(
    properties: Seq<(Seq<char>, Seq<(Seq<char>, Seq<char>)>)>,
    options: Seq<(Seq<char>, StorageOptions)>,
) -> Seq<WrittenEntry> {
    properties.map_values(
        |entry: (Seq<char>, Seq<(Seq<char>, Seq<char>)>)| replacement(entry.0, entry.1, options),
    )
}

/// Whether every mapping of `properties` can be encoded.
pub open spec fn all_encodable(properties: Seq<(Seq<char>, Seq<(Seq<char>, Seq<char>)>)>) -> bool {
    forall|i: int| 0 <= i < properties.len() ==> encodable((#[trigger] properties[i]).1)
}

/// The keys of a map, in its order.
pub open spec fn keys<V>(pairs: Seq<(Seq<char>, V)>) -> Seq<Seq<char>> {
    pairs.map_values(|entry: (Seq<char>, V)| entry.0)
}

/// The entries of the rewritten archive: the copies of the source entries
/// that have no replacement, followed by the replacements, each with the
/// storage options of the source entry it replaces.
pub open spec fn rewritten(
    contents: Contents,
    properties: Seq<(Seq<char>, Seq<(Seq<char>, Seq<char>)>)>,
) -> Seq<WrittenEntry> {
    let names = contents.names->Some_0;
    copied(contents, names, keys(properties)) + added(
        properties,
        captured(contents, names, keys(properties)),
    )
}

/// Whether the archive can be rewritten with `properties` as far as reading
/// and encoding go.
pub open spec fn rewritable(
    contents: Contents,
    properties: Seq<(Seq<char>, Seq<(Seq<char>, Seq<char>)>)>,
) -> bool {
    &&& contents.names is Some
    &&& readable(contents, contents.names->Some_0, keys(properties))
    &&& all_encodable(properties)
}

/// Whether copying succeeds into a writer that holds `taken`: the names of
/// the archive can be listed, all that is needed can be read, and the writer
/// takes every copy in turn.
pub open spec fn copy_succeeds(
    taken: Seq<WrittenEntry>,
    contents: Contents,
    exclude: Seq<Seq<char>>,
) -> bool {
    &&& contents.names is Some
    &&& readable(contents, contents.names->Some_0, exclude)
    &&& takes_all(taken, copied(contents, contents.names->Some_0, exclude))
}

/// Whether `after` is `before` followed by entries of which none is named in
/// `exclude`.
pub open spec fn only_copies(
    before: Seq<WrittenEntry>,
    after: Seq<WrittenEntry>,
    exclude: Seq<Seq<char>>,
) -> bool {
    &&& before.is_prefix_of(after)
    &&& forall|p: int| before.len() <= p < after.len() ==> !exclude.contains((#[trigger] after[p]).name)
}

/// What makes a rewrite fail.
pub enum Failure {
    /// The source archive cannot be read or the writer refuses an entry.
    Archive,
    /// A mapping cannot be encoded or the writer refuses its text.
    Properties,
}

/// Whether `error` is the error that reports `failure`: `JarError::Zip` for
/// the archive, `JarError::JavaProperties` for the properties.
pub open spec fn reports(error: JarError, failure: Failure) -> bool {
    match failure {
        Failure::Archive => error is Zip,
        Failure::Properties => error is JavaProperties,
    }
}

/// The first failure of adding the files of `properties`, in its order, to a
/// writer that holds `taken`, or `None` where every file is added: the writer
/// refuses to start a file, or a mapping cannot be encoded or the writer
/// refuses its text.
pub open spec fn first_failure(
    taken: Seq<WrittenEntry>,
    properties: Seq<(Seq<char>, Seq<(Seq<char>, Seq<char>)>)>,
    options: Seq<(Seq<char>, StorageOptions)>,
) -> Option<Failure>
    decreases properties.len(),
{
    if properties.len() == 0 {
        None
    } else {
        match first_failure(taken, properties.drop_last(), options) {
            Some(failure) => Some(failure),
            None => {
                let held = taken + added(properties.drop_last(), options);
                let path = properties.last().0;
                let file = started_file(path, value_of(options, path));
                if !file_taken(held, path, value_of(options, path)) {
                    Some(Failure::Archive)
                } else if !encodable(properties.last().1) || !content_taken(
                    held.push(file),
                    encoded(properties.last().1),
                ) {
                    Some(Failure::Properties)
                } else {
                    None
                }
            },
        }
    }
}

/// The failure of rewriting `contents` with `properties` into a writer that
/// holds `taken`, or `None` where the rewrite succeeds: the copy fails, a
/// replacement cannot be added, or the archive cannot be finished.
pub open spec fn rewrite_failure(
    taken: Seq<WrittenEntry>,
    contents: Contents,
    properties: Seq<(Seq<char>, Seq<(Seq<char>, Seq<char>)>)>,
) -> Option<Failure> {
    let exclude = keys(properties);
    let names = contents.names->Some_0;
    if !copy_succeeds(taken, contents, exclude) {
        Some(Failure::Archive)
    } else {
        match first_failure(
            taken + copied(contents, names, exclude),
            properties,
            captured(contents, names, exclude),
        ) {
            Some(failure) => Some(failure),
            None => if sealed(taken + rewritten(contents, properties)) is None {
                Some(Failure::Archive)
            } else {
                None
            },
        }
    }
}

/// A failure among the first `count` files is the failure of the whole.
pub proof fn lemma_first_failure_prefix(
    taken: Seq<WrittenEntry>,
    properties: Seq<(Seq<char>, Seq<(Seq<char>, Seq<char>)>)>,
    options: Seq<(Seq<char>, StorageOptions)>,
    count: int,
)
    requires
        0 <= count <= properties.len(),
        first_failure(taken, properties.take(count), options) is Some,
    ensures
        first_failure(taken, properties, options) == first_failure(
            taken,
            properties.take(count),
            options,
        ),
    decreases properties.len(),
{
    if count == properties.len() {
        assert(properties.take(count) =~= properties);
    } else {
        assert(properties.drop_last().take(count) =~= properties.take(count));
        lemma_first_failure_prefix(taken, properties.drop_last(), options, count);
    }
}

/// Where no file fails, every mapping can be encoded and the writer takes
/// every replacement in turn.
pub proof fn lemma_all_added(
    taken: Seq<WrittenEntry>,
    properties: Seq<(Seq<char>, Seq<(Seq<char>, Seq<char>)>)>,
    options: Seq<(Seq<char>, StorageOptions)>,
)
    ensures
        first_failure(taken, properties, options) is None <==> all_encodable(properties)
            && takes_all(taken, added(properties, options)),
    decreases properties.len(),
{
    if properties.len() > 0 {
        let front = properties.drop_last();
        lemma_all_added(taken, front, options);
        assert(added(properties, options).drop_last() =~= added(front, options));
        assert(added(properties, options).last() == replacement(
            properties.last().0,
            properties.last().1,
            options,
        ));
        if all_encodable(properties) {
            assert forall|i: int| 0 <= i < front.len() implies encodable(
                (#[trigger] front[i]).1,
            ) by {
                assert(front[i] == properties[i]);
            }
            assert(properties[properties.len() - 1] == properties.last());
        }
        if all_encodable(front) && encodable(properties.last().1) {
            assert forall|i: int| 0 <= i < properties.len() implies encodable(
                (#[trigger] properties[i]).1,
            ) by {
                if i < front.len() {
                    assert(front[i] == properties[i]);
                }
            }
        }
    }
}

/// A rewrite that does not fail could read all it needed and encode every
/// mapping, and the writer took every entry of the rewritten archive.
pub proof fn lemma_rewrite_succeeds(
    taken: Seq<WrittenEntry>,
    contents: Contents,
    properties: Seq<(Seq<char>, Seq<(Seq<char>, Seq<char>)>)>,
)
    requires
        rewrite_failure(taken, contents, properties) is None,
    ensures
        rewritable(contents, properties),
        takes_all(taken, copied(contents, contents.names->Some_0, keys(properties))),
        takes_all(
            taken + copied(contents, contents.names->Some_0, keys(properties)),
            added(
                properties,
                captured(contents, contents.names->Some_0, keys(properties)),
            ),
        ),
        sealed(taken + rewritten(contents, properties)) is Some,
{
    let names = contents.names->Some_0;
    let exclude = keys(properties);
    lemma_all_added(
        taken + copied(contents, names, exclude),
        properties,
        captured(contents, names, exclude),
    );
}

/// Where the writer does not take the copy of an entry, it does not take all
/// the copies.
pub proof fn lemma_copy_stops(
    taken: Seq<WrittenEntry>,
    contents: Contents,
    names: Seq<Seq<char>>,
    exclude: Seq<Seq<char>>,
    i: int,
)
    requires
        0 <= i < names.len(),
        is_copied(contents, exclude, names[i]),
        !takes(
            taken + copied(contents, names.take(i), exclude),
            copy_of(names[i], contents.entries[names[i]])->Some_0,
        ),
    ensures
        !takes_all(taken, copied(contents, names, exclude)),
{
    let all = copied(contents, names, exclude);
    let done = copied(contents, names.take(i), exclude);
    if takes_all(taken, all) {
        lemma_copied_at(contents, names, exclude, i);
        lemma_copied_prefix(contents, names, exclude, i);
        let p = done.len() as int;
        lemma_takes_all_prefix(taken, all, p + 1);
        assert(all.take(p + 1).drop_last() =~= done);
        assert(all.take(p + 1).last() == all[p]);
    }
}

/// Ascending order: the replacements are written in the path order of their
/// names.
pub proof fn lemma_added_ascends(
    properties: Seq<(Seq<char>, Seq<(Seq<char>, Seq<char>)>)>,
    options: Seq<(Seq<char>, StorageOptions)>,
    i: int,
    j: int,
)
    requires
        ascending(properties),
        0 <= i < j < properties.len(),
    ensures
        added(properties, options).len() == properties.len(),
        precedes(added(properties, options)[i].name, added(properties, options)[j].name),
{
    assert(precedes(properties[i].0, properties[j].0));
}

/// What is copied from the first `count` names comes first in what is copied
/// from all of them.
pub proof fn lemma_copied_prefix(
    contents: Contents,
    names: Seq<Seq<char>>,
    exclude: Seq<Seq<char>>,
    count: int,
)
    requires
        0 <= count <= names.len(),
    ensures
        copied(contents, names.take(count), exclude).len() <= copied(
            contents,
            names,
            exclude,
        ).len(),
        forall|p: int|
            0 <= p < copied(contents, names.take(count), exclude).len() ==> #[trigger] copied(
                contents,
                names,
                exclude,
            )[p] == copied(contents, names.take(count), exclude)[p],
    decreases names.len(),
{
    if count == names.len() {
        assert(names.take(count) =~= names);
    } else {
        assert(names.drop_last().take(count) =~= names.take(count));
        lemma_copied_prefix(contents, names.drop_last(), exclude, count);
    }
}

/// An entry that is copied stands in what is copied after all that is copied
/// from the names before it.
pub proof fn lemma_copied_at(
    contents: Contents,
    names: Seq<Seq<char>>,
    exclude: Seq<Seq<char>>,
    i: int,
)
    requires
        0 <= i < names.len(),
        is_copied(contents, exclude, names[i]),
    ensures
        copied(contents, names.take(i), exclude).len() < copied(contents, names, exclude).len(),
        copied(contents, names, exclude)[copied(contents, names.take(i), exclude).len() as int]
            == copy_of(names[i], contents.entries[names[i]])->Some_0,
{
    let upto = names.take(i + 1);
    assert(upto.drop_last() =~= names.take(i));
    assert(upto.last() == names[i]);
    lemma_copied_prefix(contents, names, exclude, i + 1);
    let p = copied(contents, names.take(i), exclude).len() as int;
    assert(copied(contents, upto, exclude)[p] == copy_of(
        names[i],
        contents.entries[names[i]],
    )->Some_0);
}

/// Order preservation: of two entries that are copied, the one that comes
/// first in the source comes first in the copy.
pub proof fn lemma_copy_keeps_order(
    contents: Contents,
    names: Seq<Seq<char>>,
    exclude: Seq<Seq<char>>,
    i: int,
    j: int,
)
    requires
        0 <= i < j < names.len(),
        is_copied(contents, exclude, names[i]),
        is_copied(contents, exclude, names[j]),
    ensures
        exists|p: int, q: int|
            0 <= p < q < copied(contents, names, exclude).len() && #[trigger] copied(
                contents,
                names,
                exclude,
            )[p] == copy_of(names[i], contents.entries[names[i]])->Some_0 && #[trigger] copied(
                contents,
                names,
                exclude,
            )[q] == copy_of(names[j], contents.entries[names[j]])->Some_0,
{
    lemma_copied_at(contents, names, exclude, i);
    lemma_copied_at(contents, names, exclude, j);
    let p = copied(contents, names.take(i), exclude).len() as int;
    let q = copied(contents, names.take(j), exclude).len() as int;
    assert(p < q) by {
        let upto = names.take(j);
        assert(upto.take(i) =~= names.take(i));
        assert(upto[i] == names[i]);
        lemma_copied_at(contents, upto, exclude, i);
    }
    assert(copied(contents, names, exclude)[p] == copy_of(
        names[i],
        contents.entries[names[i]],
    )->Some_0);
    assert(copied(contents, names, exclude)[q] == copy_of(
        names[j],
        contents.entries[names[j]],
    )->Some_0);
}

/// Round trip: where an archive can be rewritten, an entry of the source that
/// has no replacement and whose kind is supported is in the rewritten archive
/// under its name, with its kind, its content and its storage options.
pub proof fn lemma_rewrite_keeps_entry(
    contents: Contents,
    properties: Seq<(Seq<char>, Seq<(Seq<char>, Seq<char>)>)>,
    i: int,
)
    requires
        rewritable(contents, properties),
        0 <= i < contents.names->Some_0.len(),
        is_copied(contents, keys(properties), contents.names->Some_0[i]),
    ensures
        ({
            let name = contents.names->Some_0[i];
            let entry = contents.entries[name];
            &&& entry.kind == EntryKind::File ==> entry.content is Some
            &&& rewritten(contents, properties).contains(
                WrittenEntry {
                    name,
                    kind: entry.kind,
                    options: Some(entry.options),
                    content: if entry.kind == EntryKind::File {
                        entry.content->Some_0
                    } else {
                        Seq::empty()
                    },
                },
            )
        }),
{
    let names = contents.names->Some_0;
    let exclude = keys(properties);
    lemma_copied_at(contents, names, exclude, i);
    let p = copied(contents, names.take(i), exclude).len() as int;
    assert(rewritten(contents, properties)[p] == copied(contents, names, exclude)[p]);
}

/// Nothing that is copied has the name of an excluded entry.
pub proof fn lemma_copied_names(contents: Contents, names: Seq<Seq<char>>, exclude: Seq<Seq<char>>)
    ensures
        forall|p: int|
            0 <= p < copied(contents, names, exclude).len() ==> !exclude.contains(
                (#[trigger] copied(contents, names, exclude)[p]).name,
            ) && names.contains(copied(contents, names, exclude)[p].name),
    decreases names.len(),
{
    if names.len() > 0 {
        lemma_copied_names(contents, names.drop_last(), exclude);
        let all = copied(contents, names, exclude);
        let before = copied(contents, names.drop_last(), exclude);
        assert forall|p: int| 0 <= p < all.len() implies !exclude.contains((#[trigger] all[p]).name)
            && names.contains(all[p].name) by {
            if p < before.len() {
                assert(all[p] == before[p]);
                let k = choose|k: int|
                    0 <= k < names.drop_last().len() && names.drop_last()[k] == before[p].name;
                assert(names[k] == before[p].name);
            } else {
                assert(names[names.len() - 1] == all[p].name);
            }
        }
    }
}

/// Nothing is made up: every entry of the rewritten archive is the copy of a
/// source entry that has no replacement, or has the path of a replacement.
pub proof fn lemma_rewritten_names(
    contents: Contents,
    properties: Seq<(Seq<char>, Seq<(Seq<char>, Seq<char>)>)>,
    p: int,
)
    requires
        contents.names is Some,
        0 <= p < rewritten(contents, properties).len(),
    ensures
        keys(properties).contains(rewritten(contents, properties)[p].name)
            || contents.names->Some_0.contains(rewritten(contents, properties)[p].name),
{
    let names = contents.names->Some_0;
    let exclude = keys(properties);
    let copies = copied(contents, names, exclude);
    lemma_copied_names(contents, names, exclude);
    if p < copies.len() {
        assert(rewritten(contents, properties)[p] == copies[p]);
    } else {
        let k = p - copies.len();
        assert(rewritten(contents, properties)[p].name == exclude[k]);
    }
}

/// No duplicates: every replacement stands in the rewritten archive exactly
/// once, after the copies, and no other entry has its name. It holds the
/// properties text of its mapping and has the storage options of the source
/// entry of its name, or none where the source has no such entry.
pub proof fn lemma_replaced_once(
    contents: Contents,
    properties: Seq<(Seq<char>, Seq<(Seq<char>, Seq<char>)>)>,
    i: int,
)
    requires
        contents.names is Some,
        distinct_keys(properties),
        0 <= i < properties.len(),
    ensures
        ({
            let archive = rewritten(contents, properties);
            let place = archive.len() - properties.len() + i;
            &&& 0 <= place < archive.len()
            &&& archive[place].name == properties[i].0
            &&& archive[place].kind == EntryKind::File
            &&& archive[place].content == encoded(properties[i].1)
            &&& archive[place].options == if contents.names->Some_0.contains(properties[i].0) {
                Some(contents.entries[properties[i].0].options)
            } else {
                None
            }
            &&& forall|q: int|
                0 <= q < archive.len() && (#[trigger] archive[q]).name == properties[i].0 ==> q
                    == place
        }),
{
    let names = contents.names->Some_0;
    let exclude = keys(properties);
    let copies = copied(contents, names, exclude);
    let options = captured(contents, names, exclude);
    let archive = rewritten(contents, properties);
    let place = copies.len() + i;
    lemma_copied_names(contents, names, exclude);
    lemma_captured_options(contents, names, exclude, properties[i].0);
    assert(exclude[i] == properties[i].0);
    assert(archive[place] == added(properties, options)[i]);
    assert forall|q: int|
        0 <= q < archive.len() && (#[trigger] archive[q]).name == properties[i].0 implies q
        == place by {
        if q < copies.len() {
            assert(archive[q] == copies[q]);
            assert(exclude[i] == properties[i].0);
        } else {
            let k = q - copies.len();
            assert(archive[q] == added(properties, options)[k]);
            assert(properties[k].0 == properties[i].0);
        }
    }
}

/// Every name that is excluded and stands in the source has its storage
/// options captured: those of the entry stored under it.
pub proof fn lemma_captured_options(
    contents: Contents,
    names: Seq<Seq<char>>,
    exclude: Seq<Seq<char>>,
    name: Seq<char>,
)
    ensures
        ascending(captured(contents, names, exclude)),
        distinct_keys(captured(contents, names, exclude)),
        has_key(captured(contents, names, exclude), name) <==> names.contains(name)
            && exclude.contains(name),
        has_key(captured(contents, names, exclude), name) ==> value_of(
            captured(contents, names, exclude),
            name,
        ) == Some(contents.entries[name].options),
    decreases names.len(),
{
    if names.len() == 0 {
        assert(!has_key(captured(contents, names, exclude), name));
    } else {
        let before = captured(contents, names.drop_last(), exclude);
        lemma_captured_options(contents, names.drop_last(), exclude, name);
        lemma_ascending_distinct(before);
        if exclude.contains(names.last()) {
            crate::string_map::lemma_put(
                before,
                names.last(),
                contents.entries[names.last()].options,
            );
        }
        if names.drop_last().contains(name) {
            let k = choose|k: int| 0 <= k < names.drop_last().len() && names.drop_last()[k] == name;
            assert(names[k] == name);
        }
        if names.contains(name) && name != names.last() {
            let k = choose|k: int| 0 <= k < names.len() && names[k] == name;
            assert(names.drop_last()[k] == name);
        }
        assert(names[names.len() - 1] == names.last());
    }
}

/// The names of the entries that copying passes over because their kind is
/// not supported: those among `names` that are not excluded and are neither
/// a file nor a directory, in the order of `names`.
pub open spec fn passed_over(contents: Contents, names: Seq<Seq<char>>, exclude: Seq<Seq<char>>) -> Seq<
    Seq<char>,
>
    decreases names.len(),
{
    if names.len() == 0 {
        Seq::empty()
    } else if !exclude.contains(names.last()) && contents.entries[names.last()].kind
        == EntryKind::Unsupported {
        passed_over(contents, names.drop_last(), exclude).push(names.last())
    } else {
        passed_over(contents, names.drop_last(), exclude)
    }
}

/// Whether every name has an entry that can be opened.
pub open spec fn all_open(contents: Contents, names: Seq<Seq<char>>) -> bool {
    forall|i: int| 0 <= i < names.len() ==> contents.entries.contains_key(#[trigger] names[i])
}

/// Returns the names of the entries of `src` that `copy_partial` passes over
/// because their kind is not supported, in stored order. Fails exactly if
/// the names of `src` cannot be listed or an entry cannot be opened.
pub fn unsupported_entries(src: &mut ZipArchive<Cursor<Vec<u8>>>, exclude: &Vec<String>) -> (result:
    Result<Vec<String>, ZipError>)
    ensures
        archive_contents(*final(src)) == archive_contents(*old(src)),
        result is Ok <==> archive_contents(*old(src)).names is Some && all_open(
            archive_contents(*old(src)),
            archive_contents(*old(src)).names->Some_0,
        ),
        result matches Ok(skipped) ==> views(skipped@) == passed_over(
            archive_contents(*old(src)),
            archive_contents(*old(src)).names->Some_0,
            views(exclude@),
        ),
{
    let ghost contents = archive_contents(*src);
    let files = match entry_names(src) {
        Ok(files) => files,
        Err(error) => {
            return Err(error);
        },
    };
    let ghost names = views(files@);
    let mut skipped: Vec<String> = Vec::new();
    let mut index: usize = 0;
    assert(views(skipped@) =~= Seq::<Seq<char>>::empty());
    while index < files.len()
        invariant
            index <= files.len(),
            names == views(files@),
            contents.names == Some(names),
            contents == archive_contents(*old(src)),
            archive_contents(*src) == contents,
            all_open(contents, names.take(index as int)),
            views(skipped@) == passed_over(contents, names.take(index as int), views(exclude@)),
        decreases files.len() - index,
    {
        let file = &files[index];
        let ghost done = names.take(index as int);
        let ghost next = names.take(index + 1);
        proof {
            assert(next.drop_last() =~= done);
            assert(next.last() == file@);
            assert(names[index as int] == file@);
        }
        let unsupported = match by_name(src, file.as_str()) {
            Ok(entry) => entry.kind() == EntryKind::Unsupported,
            Err(error) => {
                return Err(error);
            },
        };
        if unsupported && !is_excluded(exclude, file) {
            let ghost before = views(skipped@);
            skipped.push(file.clone());
            assert(views(skipped@) =~= before.push(file@));
        }
        proof {
            assert forall|i: int| 0 <= i < next.len() implies contents.entries.contains_key(
                #[trigger] next[i],
            ) by {
                if i < index {
                    assert(next[i] == done[i]);
                }
            }
        }
        index += 1;
    }
    assert(names.take(index as int) =~= names);
    Ok(skipped)
}

/// Returns whether `name` is among `exclude`.
pub fn is_excluded(exclude: &Vec<String>, name: &String) -> (found: bool)
    ensures
        found == views(exclude@).contains(name@),
{
    let mut index: usize = 0;
    while index < exclude.len()
        invariant
            index <= exclude.len(),
            forall|j: int| 0 <= j < index ==> views(exclude@)[j] != name@,
        decreases exclude.len() - index,
    {
        if exclude[index] == *name {
            assert(views(exclude@)[index as int] == name@);
            return true;
        }
        index += 1;
    }
    false
}

/// Returns the keys of `properties`, in its order.
pub fn paths_of(properties: &StringMap<StringMap<String>>) -> (paths: Vec<String>)
    ensures
        views(paths@) == keys(properties@),
{
    let mut paths: Vec<String> = Vec::new();
    let mut index: usize = 0;
    while index < properties.len()
        invariant
            index <= properties@.len(),
            views(paths@) == keys(properties@).take(index as int),
        decreases properties@.len() - index,
    {
        let ghost before = paths@;
        assert(views(before).len() == index);
        paths.push(properties.key_at(index).clone());
        assert(paths@.len() == index + 1);
        assert(views(paths@)[index as int] == properties@[index as int].0);
        assert forall|i: int| 0 <= i < paths@.len() implies views(paths@)[i] == keys(
            properties@,
        ).take(index + 1)[i] by {
            if i < index {
                assert(views(before)[i] == keys(properties@).take(index as int)[i]);
            }
        }
        assert(views(paths@) =~= keys(properties@).take(index + 1));
        index += 1;
    }
    assert(keys(properties@).take(index as int) =~= keys(properties@));
    paths
}

/// The operations of the selective archive rewriter, on an archive writer.
pub trait CopyPartial {
    /// The entries that the writer holds, in the order in which they were
    /// written.
    spec fn taken(&self) -> Seq<WrittenEntry>;

    /// Copies the entries of `src` into the writer in their stored order,
    /// except those named in `exclude`, and returns the storage options of the
    /// excluded entries by name. Files are copied with their content,
    /// directories as directories, entries of another kind are passed over;
    /// each copy has the storage options of its source.
    ///
    /// Fails exactly if the names of `src` cannot be listed, if an entry
    /// cannot be opened, if a file that is to be copied cannot be read, or if
    /// the writer refuses a copy. The writer then holds what it held, followed
    /// by entries of which none is excluded.
    fn copy_partial(&mut self, src: &mut ZipArchive<Cursor<Vec<u8>>>, exclude: Vec<String>) -> (result:
        Result<StringMap<StorageOptions>, ZipError>)
        ensures
            archive_contents(*final(src)) == archive_contents(*old(src)),
            result is Ok <==> copy_succeeds(
                old(self).taken(),
                archive_contents(*old(src)),
                views(exclude@),
            ),
            result matches Ok(options) ==> {
                let contents = archive_contents(*old(src));
                &&& final(self).taken() == old(self).taken() + copied(
                    contents,
                    contents.names->Some_0,
                    views(exclude@),
                )
                &&& options@ == captured(contents, contents.names->Some_0, views(exclude@))
            },
            result is Err ==> only_copies(old(self).taken(), final(self).taken(), views(exclude@)),
    ;

    /// Adds one file per mapping of `properties`, in ascending path order:
    /// the file is named by the path of the mapping, holds the properties text
    /// of the mapping, and is stored with the options that `options` has for
    /// the path, or with the default options where it has none.
    ///
    /// Fails with `JarError::Zip` if the writer refuses to start a file, and
    /// with `JarError::JavaProperties` if a mapping cannot be encoded or the
    /// writer refuses its text; the first failure decides. The writer then
    /// still holds what it held before the call, at the front.
    fn add_files(
        &mut self,
        properties: StringMap<StringMap<String>>,
        options: StringMap<StorageOptions>,
    ) -> (result: Result<(), JarError>)
        ensures
            result is Ok <==> first_failure(old(self).taken(), properties@, options@) is None,
            result is Ok ==> final(self).taken() == old(self).taken() + added(
                properties@,
                options@,
            ),
            result matches Err(error) ==> reports(
                error,
                first_failure(old(self).taken(), properties@, options@)->Some_0,
            ),
            result is Err ==> old(self).taken().is_prefix_of(final(self).taken()),
    ;

    /// Rewrites `src` into the writer with the files of `properties` replaced:
    /// copies every entry that has no replacement, adds the replacements in
    /// ascending path order with the storage options of the entries they
    /// replace, finishes the archive and returns its bytes.
    ///
    /// Fails with `JarError::Zip` if the copy fails, if the writer refuses to
    /// start a replacement or if the archive cannot be finished, and with
    /// `JarError::JavaProperties` if a mapping cannot be encoded or the writer
    /// refuses its text.
    fn replace(
        self,
        src: &mut ZipArchive<Cursor<Vec<u8>>>,
        properties: StringMap<StringMap<String>>,
    ) -> (result: Result<Vec<u8>, JarError>) where Self: Sized
        ensures
            archive_contents(*final(src)) == archive_contents(*old(src)),
            result is Ok <==> rewrite_failure(
                self.taken(),
                archive_contents(*old(src)),
                properties@,
            ) is None,
            result matches Ok(bytes) ==> Some(bytes@) == sealed(
                self.taken() + rewritten(archive_contents(*old(src)), properties@),
            ),
            result matches Err(error) ==> reports(
                error,
                rewrite_failure(self.taken(), archive_contents(*old(src)), properties@)->Some_0,
            ),
    ;
}

impl CopyPartial for ArchiveWriter {
    open spec fn taken(&self) -> Seq<WrittenEntry> {
        written_entries(*self)
    }

    fn copy_partial(&mut self, src: &mut ZipArchive<Cursor<Vec<u8>>>, exclude: Vec<String>) -> (result:
        Result<StringMap<StorageOptions>, ZipError>) {
        let ghost contents = archive_contents(*src);
        let ghost excluded = views(exclude@);
        let ghost held = written_entries(*self);
        let files = match entry_names(src) {
            Ok(files) => files,
            Err(error) => {
                return Err(error);
            },
        };
        let ghost names = views(files@);
        let mut options: StringMap<StorageOptions> = StringMap::new();
        let mut index: usize = 0;
        while index < files.len()
            invariant
                index <= files.len(),
                names == views(files@),
                excluded == views(exclude@),
                contents.names == Some(names),
                contents == archive_contents(*old(src)),
                archive_contents(*src) == contents,
                held == written_entries(*old(self)),
                readable(contents, names.take(index as int), excluded),
                takes_all(held, copied(contents, names.take(index as int), excluded)),
                written_entries(*self) == held + copied(
                    contents,
                    names.take(index as int),
                    excluded,
                ),
                options@ == captured(contents, names.take(index as int), excluded),
            decreases files.len() - index,
        {
            let file = &files[index];
            let ghost done = names.take(index as int);
            let ghost next = names.take(index + 1);
            let ghost before = written_entries(*self);
            proof {
                assert(next.drop_last() =~= done);
                assert(next.last() == file@);
                assert(names[index as int] == file@);
                lemma_copied_names(contents, done, excluded);
                assert(only_copies(held, before, excluded));
            }
            let entry = match by_name(src, file.as_str()) {
                Ok(entry) => entry,
                Err(error) => {
                    return Err(error);
                },
            };
            if is_excluded(&exclude, file) {
                options.insert(file.clone(), entry.options());
            } else {
                match entry.kind() {
                    EntryKind::File => {
                        let entry_options = entry.options();
                        let content = match entry.content() {
                            Ok(content) => content,
                            Err(error) => {
                                return Err(zip_error_of(error));
                            },
                        };
                        let ghost copy = copy_of(file@, contents.entries[file@])->Some_0;
                        if let Err(error) = start_file(self, file.as_str(), entry_options) {
                            proof {
                                lemma_copy_stops(held, contents, names, excluded, index as int);
                            }
                            return Err(error);
                        }
                        if let Err(error) = write_content(self, content.as_slice()) {
                            proof {
                                lemma_copy_stops(held, contents, names, excluded, index as int);
                                let after = written_entries(*self);
                                let begun = before.push(
                                    started_file(file@, Some(contents.entries[file@].options)),
                                );
                                assert(begun.drop_last() =~= before);
                                assert(only_copies(held, after, excluded)) by {
                                    assert forall|p: int| 0 <= p < before.len() && p
                                        < after.len() implies after[p] == before[p] by {
                                        if after.len() == begun.len() {
                                            assert(after.drop_last()[p] == before[p]);
                                        }
                                    }
                                }
                            }
                            return Err(zip_error_of(error));
                        }
                        assert(written_entries(*self) =~= before.push(copy));
                        assert(copied(contents, next, excluded).drop_last() =~= copied(
                            contents,
                            done,
                            excluded,
                        ));
                    },
                    EntryKind::Directory => {
                        let entry_options = entry.options();
                        let ghost copy = copy_of(file@, contents.entries[file@])->Some_0;
                        if let Err(error) = add_directory(self, file.as_str(), entry_options) {
                            proof {
                                lemma_copy_stops(held, contents, names, excluded, index as int);
                            }
                            return Err(error);
                        }
                        assert(written_entries(*self) =~= before.push(copy));
                        assert(copied(contents, next, excluded).drop_last() =~= copied(
                            contents,
                            done,
                            excluded,
                        ));
                    },
                    EntryKind::Unsupported => {},
                }
            }
            proof {
                assert forall|i: int| 0 <= i < next.len() implies contents.entries.contains_key(
                    #[trigger] next[i],
                ) && (!excluded.contains(next[i]) && contents.entries[next[i]].kind
                    == EntryKind::File ==> contents.entries[next[i]].content is Some) by {
                    if i < index {
                        assert(next[i] == done[i]);
                    }
                }
                assert(written_entries(*self) =~= held + copied(contents, next, excluded));
            }
            index += 1;
        }
        assert(names.take(index as int) =~= names);
        Ok(options)
    }

    fn add_files(
        &mut self,
        properties: StringMap<StringMap<String>>,
        options: StringMap<StorageOptions>,
    ) -> (result: Result<(), JarError>) {
        let mut pending = options;
        let ghost captured = pending@;
        let ghost held = written_entries(*self);
        let count = properties.len();
        let mut index: usize = 0;
        while index < count
            invariant
                index <= count == properties@.len(),
                distinct_keys(properties@),
                captured == options@,
                held == written_entries(*old(self)),
                first_failure(held, properties@.take(index as int), captured) is None,
                written_entries(*self) == held + added(properties@.take(index as int), captured),
                forall|j: int|
                    index <= j < count ==> value_of(pending@, (#[trigger] properties@[j]).0)
                        == value_of(captured, properties@[j].0),
            decreases count - index,
        {
            let path = properties.key_at(index);
            let ghost done = properties@.take(index as int);
            let ghost next = properties@.take(index + 1);
            let ghost before = written_entries(*self);
            let ghost remaining = pending@;
            let path_options = pending.remove(path);
            proof {
                lemma_without(remaining, path@);
                assert(next.drop_last() =~= done);
                assert(next.last() == properties@[index as int]);
                assert(first_failure(held, next.drop_last(), captured) is None);
                assert(path_options == value_of(captured, path@));
            }
            let started = match path_options {
                Some(captured_options) => start_file(self, path.as_str(), captured_options),
                None => start_file_with_defaults(self, path.as_str()),
            };
            if let Err(error) = started {
                proof {
                    assert(first_failure(held, next, captured) == Some(Failure::Archive));
                    lemma_first_failure_prefix(held, properties@, captured, index + 1);
                }
                return Err(JarError::Zip(error));
            }
            let text = match encode(properties.value_at(index)) {
                Ok(text) => text,
                Err(error) => {
                    proof {
                        assert(first_failure(held, next, captured) == Some(Failure::Properties));
                        lemma_first_failure_prefix(held, properties@, captured, index + 1);
                    }
                    return Err(error);
                },
            };
            if let Err(error) = write_content(self, text.as_slice()) {
                proof {
                    assert(first_failure(held, next, captured) == Some(Failure::Properties));
                    lemma_first_failure_prefix(held, properties@, captured, index + 1);
                    let after = written_entries(*self);
                    let begun = before.push(started_file(path@, value_of(captured, path@)));
                    assert(begun.drop_last() =~= before);
                    assert forall|p: int| 0 <= p < held.len() implies held[p] == after[p] by {
                        assert(before[p] == held[p]);
                        if after.len() == begun.len() {
                            assert(after.drop_last()[p] == before[p]);
                        }
                    }
                }
                return Err(JarError::JavaProperties(properties_error_of(error)));
            }
            proof {
                assert(written_entries(*self) =~= before.push(
                    replacement(path@, properties@[index as int].1, captured),
                ));
                assert(added(next, captured) =~= added(done, captured).push(
                    replacement(path@, properties@[index as int].1, captured),
                ));
                assert forall|j: int| index + 1 <= j < count implies value_of(
                    pending@,
                    (#[trigger] properties@[j]).0,
                ) == value_of(captured, properties@[j].0) by {
                    assert(properties@[j].0 != properties@[index as int].0);
                }
            }
            index += 1;
        }
        assert(properties@.take(index as int) =~= properties@);
        Ok(())
    }

    fn replace(
        self,
        src: &mut ZipArchive<Cursor<Vec<u8>>>,
        properties: StringMap<StringMap<String>>,
    ) -> (result: Result<Vec<u8>, JarError>) {
        let mut writer = self;
        let ghost contents = archive_contents(*src);
        let exclude = paths_of(&properties);
        let options = match writer.copy_partial(src, exclude) {
            Ok(options) => options,
            Err(error) => {
                return Err(JarError::Zip(error));
            },
        };
        let ghost copies = copied(contents, contents.names->Some_0, keys(properties@));
        let ghost additions = added(properties@, options@);
        if let Err(error) = writer.add_files(properties, options) {
            return Err(error);
        }
        assert(written_entries(writer) =~= self.taken() + (copies + additions));
        match writer.finish() {
            Ok(bytes) => Ok(bytes),
            Err(error) => Err(JarError::Zip(error)),
        }
    }
}

} // verus!
