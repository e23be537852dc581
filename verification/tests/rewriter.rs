use std::io::Cursor;
use std::io::Read;
use std::io::Write;

use smik_jar_lib::archive::EntryKind;
use smik_jar_lib::by_path::ByPath;
use smik_jar_lib::copy_partial::is_excluded;
use smik_jar_lib::copy_partial::paths_of;
use smik_jar_lib::copy_partial::CopyPartial;
use smik_jar_lib::entries_mut::EntriesMut;
use smik_jar_lib::jar_file::set_versions;
use smik_jar_lib::read_version::project_versions;
use smik_jar_lib::read_version::ReadVersion;
use smik_jar_lib::string_map::StringMap;
use smik_jar_lib::copy_partial::unsupported_entries;
use smik_jar_lib::write_version::WriteVersion;
use smik_jar_lib::writer::ArchiveWriter;
use smik_jar_lib::JarError;
use zip::result::ZipError;
use zip::write::SimpleFileOptions;
use zip::CompressionMethod;
use zip::ZipArchive;
use zip::ZipWriter;

const APPLICATION: &str = "BOOT-INF/classes/application.properties";
const APPLICATION_INT: &str = "BOOT-INF/classes/application-int.properties";

fn stored() -> SimpleFileOptions {
    SimpleFileOptions::default().compression_method(CompressionMethod::Stored)
}

fn deflated() -> SimpleFileOptions {
    SimpleFileOptions::default().compression_method(CompressionMethod::Deflated)
}

fn mixed_jar() -> Vec<u8> {
    let mut writer = ZipWriter::new(Cursor::new(Vec::new()));
    writer.add_directory("META-INF/", stored()).unwrap();
    writer.start_file("META-INF/MANIFEST.MF", deflated()).unwrap();
    writer.write_all(b"Manifest-Version: 1.0\n").unwrap();
    writer.add_symlink("current", "META-INF/MANIFEST.MF", stored()).unwrap();
    writer.add_directory("BOOT-INF/classes/", stored()).unwrap();
    writer.start_file(APPLICATION, deflated().unix_permissions(0o600)).unwrap();
    writer.write_all(b"softwareVersion=1.0.0\n").unwrap();
    writer.start_file("BOOT-INF/classes/logo.bin", stored()).unwrap();
    writer.write_all(&[0, 1, 2, 3, 255]).unwrap();
    writer.finish().unwrap().into_inner()
}

fn open(jar: &[u8]) -> ZipArchive<Cursor<Vec<u8>>> {
    ZipArchive::new(Cursor::new(jar.to_vec())).unwrap()
}

fn names_of(jar: &[u8]) -> Vec<String> {
    open(jar).file_names().map(|name| name.unwrap().into_owned()).collect()
}

fn content_of(jar: &[u8], name: &str) -> Vec<u8> {
    let mut archive = open(jar);
    let mut entry = archive.by_name(name).unwrap();
    let mut content = Vec::new();
    entry.read_to_end(&mut content).unwrap();
    content
}

fn names(values: &[&str]) -> Vec<String> {
    values.iter().map(|value| value.to_string()).collect()
}

fn path(components: &[&[u8]]) -> Vec<Vec<u8>> {
    components.iter().map(|component| component.to_vec()).collect()
}

fn mapping(pairs: &[(&str, &str)]) -> StringMap<String> {
    let mut mapping = StringMap::new();
    for (key, value) in pairs {
        mapping.insert(key.to_string(), value.to_string());
    }
    mapping
}

#[test]
fn copy_partial_copies_files_and_directories_in_order() {
    let jar = mixed_jar();
    let mut writer = ArchiveWriter::new();
    let options = writer.copy_partial(&mut open(&jar), Vec::new()).unwrap();
    assert!(options.is_empty());
    let copy = writer.finish().unwrap();
    assert_eq!(
        names_of(&copy),
        names(&[
            "META-INF/",
            "META-INF/MANIFEST.MF",
            "BOOT-INF/classes/",
            APPLICATION,
            "BOOT-INF/classes/logo.bin"
        ])
    );
    assert_eq!(content_of(&copy, "META-INF/MANIFEST.MF"), b"Manifest-Version: 1.0\n");
    assert_eq!(content_of(&copy, "BOOT-INF/classes/logo.bin"), [0, 1, 2, 3, 255]);
    assert_eq!(content_of(&copy, APPLICATION), b"softwareVersion=1.0.0\n");
}

#[test]
fn copy_partial_keeps_kind_and_storage_options() {
    let jar = mixed_jar();
    let mut writer = ArchiveWriter::new();
    writer.copy_partial(&mut open(&jar), Vec::new()).unwrap();
    let copy = writer.finish().unwrap();
    let mut source = open(&jar);
    let mut target = open(&copy);
    for name in names_of(&copy) {
        let before = source.by_name(&name).unwrap();
        let (kind, method, mode, modified) =
            (before.is_dir(), before.compression(), before.unix_mode(), before.last_modified());
        drop(before);
        let after = target.by_name(&name).unwrap();
        assert_eq!(after.is_dir(), kind);
        assert_eq!(after.compression(), method);
        assert_eq!(after.unix_mode(), mode);
        assert_eq!(after.last_modified(), modified);
    }
}

#[test]
fn copy_partial_passes_over_a_symbolic_link() {
    let jar = mixed_jar();
    assert!(names_of(&jar).contains(&"current".to_string()));
    let mut writer = ArchiveWriter::new();
    writer.copy_partial(&mut open(&jar), Vec::new()).unwrap();
    let copy = writer.finish().unwrap();
    assert!(!names_of(&copy).contains(&"current".to_string()));
    assert_eq!(names_of(&copy).len(), names_of(&jar).len() - 1);
}

#[test]
fn copy_partial_leaves_out_and_captures_the_excluded() {
    let jar = mixed_jar();
    let mut writer = ArchiveWriter::new();
    let exclude = names(&[APPLICATION, "META-INF/", "not/in/the/archive"]);
    let options = writer.copy_partial(&mut open(&jar), exclude).unwrap();
    assert_eq!(options.len(), 2);
    assert_eq!(options.key_at(0), APPLICATION);
    assert_eq!(options.key_at(1), "META-INF/");
    let copy = writer.finish().unwrap();
    assert_eq!(
        names_of(&copy),
        names(&["META-INF/MANIFEST.MF", "BOOT-INF/classes/", "BOOT-INF/classes/logo.bin"])
    );
}

#[test]
fn copy_partial_of_an_empty_archive_writes_nothing() {
    let empty = ZipWriter::new(Cursor::new(Vec::new())).finish().unwrap().into_inner();
    let mut writer = ArchiveWriter::new();
    let options = writer.copy_partial(&mut open(&empty), names(&[APPLICATION])).unwrap();
    assert!(options.is_empty());
    assert!(names_of(&writer.finish().unwrap()).is_empty());
}

#[test]
fn copy_partial_fails_on_content_that_cannot_be_read() {
    let mut writer = ZipWriter::new(Cursor::new(Vec::new()));
    writer.start_file("data.bin", stored()).unwrap();
    writer.write_all(b"QQQQQQQQQQQQQQQQ").unwrap();
    let mut jar = writer.finish().unwrap().into_inner();
    let at = jar.windows(16).position(|window| window == b"QQQQQQQQQQQQQQQQ").unwrap();
    jar[at] = b'R';
    let mut target = ArchiveWriter::new();
    let error = target.copy_partial(&mut open(&jar), Vec::new()).err().unwrap();
    assert!(matches!(error, ZipError::Io(_)));
    let error = JarError::from(error);
    assert!(matches!(error, JarError::Zip(_)));
    assert!(error.message().starts_with("ZIP error: "));
}

#[test]
fn copy_partial_skips_the_content_of_the_excluded() {
    let mut writer = ZipWriter::new(Cursor::new(Vec::new()));
    writer.start_file("data.bin", stored()).unwrap();
    writer.write_all(b"QQQQQQQQQQQQQQQQ").unwrap();
    let mut jar = writer.finish().unwrap().into_inner();
    let at = jar.windows(16).position(|window| window == b"QQQQQQQQQQQQQQQQ").unwrap();
    jar[at] = b'R';
    let mut target = ArchiveWriter::new();
    let options = target.copy_partial(&mut open(&jar), names(&["data.bin"])).unwrap();
    assert_eq!(options.len(), 1);
}

#[test]
fn copy_partial_refuses_a_name_that_the_writer_has() {
    let jar = mixed_jar();
    let mut writer = ArchiveWriter::new();
    writer.copy_partial(&mut open(&jar), Vec::new()).unwrap();
    let error = writer.copy_partial(&mut open(&jar), Vec::new()).err().unwrap();
    assert!(matches!(error, ZipError::InvalidArchive(_)));
    let held = writer.finish().unwrap();
    assert_eq!(names_of(&held), names_of(&jar).into_iter().filter(|name| name != "current").collect::<Vec<_>>());
}

#[test]
fn add_files_writes_the_properties_text() {
    let mut properties = StringMap::new();
    properties.insert(APPLICATION.to_string(), mapping(&[("softwareVersion", "1"), ("a", "b")]));
    properties.insert(APPLICATION_INT.to_string(), mapping(&[]));
    let mut writer = ArchiveWriter::new();
    writer.add_files(properties, StringMap::new()).unwrap();
    let jar = writer.finish().unwrap();
    assert_eq!(names_of(&jar), names(&[APPLICATION_INT, APPLICATION]));
    assert_eq!(content_of(&jar, APPLICATION), b"a=b\nsoftwareVersion=1\n");
    assert_eq!(content_of(&jar, APPLICATION_INT), b"");
}

#[test]
fn add_files_uses_the_captured_options() {
    let jar = mixed_jar();
    let mut writer = ArchiveWriter::new();
    let options = writer.copy_partial(&mut open(&jar), names(&[APPLICATION])).unwrap();
    let mut properties = StringMap::new();
    properties.insert(APPLICATION.to_string(), mapping(&[("softwareVersion", "2")]));
    properties.insert(APPLICATION_INT.to_string(), mapping(&[("softwareVersion", "2")]));
    writer.add_files(properties, options).unwrap();
    let rewritten = writer.finish().unwrap();
    let mut archive = open(&rewritten);
    let replaced = archive.by_name(APPLICATION).unwrap();
    assert_eq!(replaced.compression(), CompressionMethod::Deflated);
    assert_eq!(replaced.unix_mode().map(|mode| mode & 0o777), Some(0o600));
    drop(replaced);
    let fresh = archive.by_name(APPLICATION_INT).unwrap();
    assert_eq!(fresh.unix_mode().map(|mode| mode & 0o777), Some(0o644));
}

#[test]
fn replace_of_copy_partial_rewrites_and_finishes() {
    let jar = mixed_jar();
    let mut properties = StringMap::new();
    properties.insert(APPLICATION.to_string(), mapping(&[("softwareVersion", "9.9.9")]));
    let rewritten =
        CopyPartial::replace(ArchiveWriter::new(), &mut open(&jar), properties).unwrap();
    assert_eq!(
        names_of(&rewritten),
        names(&[
            "META-INF/",
            "META-INF/MANIFEST.MF",
            "BOOT-INF/classes/",
            "BOOT-INF/classes/logo.bin",
            APPLICATION
        ])
    );
    assert_eq!(content_of(&rewritten, APPLICATION), b"softwareVersion=9.9.9\n");
    assert_eq!(content_of(&rewritten, "BOOT-INF/classes/logo.bin"), [0, 1, 2, 3, 255]);
}

#[test]
fn replace_of_update_jar_finishes_the_archive_and_empties_the_writer() {
    let jar = mixed_jar();
    let mut properties = StringMap::new();
    properties.insert(APPLICATION.to_string(), mapping(&[("softwareVersion", "3")]));
    let mut writer = ArchiveWriter::new();
    let rewritten =
        smik_jar_lib::update_jar::UpdateJar::replace(&mut writer, &mut open(&jar), properties)
            .unwrap();
    assert_eq!(names_of(&rewritten).len(), 5);
    assert_eq!(names_of(&rewritten)[4], APPLICATION);
    assert_eq!(content_of(&rewritten, APPLICATION), b"softwareVersion=3\n");
    assert_eq!(content_of(&rewritten, "META-INF/MANIFEST.MF"), b"Manifest-Version: 1.0\n");
    let mut more = StringMap::new();
    more.insert("extra.properties".to_string(), mapping(&[("k", "v")]));
    writer.add_files(more, StringMap::new()).unwrap();
    let second = writer.finish().unwrap();
    assert_eq!(names_of(&second), names(&["extra.properties"]));
}

#[test]
fn replace_of_update_jar_adds_nothing_after_a_failed_copy() {
    let jar = mixed_jar();
    let mut writer = ArchiveWriter::new();
    writer.copy_partial(&mut open(&jar), names(&[APPLICATION])).unwrap();
    let mut properties = StringMap::new();
    properties.insert(APPLICATION.to_string(), mapping(&[("softwareVersion", "3")]));
    let error =
        smik_jar_lib::update_jar::UpdateJar::replace(&mut writer, &mut open(&jar), properties)
            .err()
            .unwrap();
    assert!(matches!(error, JarError::Zip(_)));
    let held = writer.finish().unwrap();
    assert!(!names_of(&held).contains(&APPLICATION.to_string()));
}

#[test]
fn update_jar_copies_and_adds_as_the_rewriter_does() {
    let jar = mixed_jar();
    let mut writer = ArchiveWriter::new();
    let options = smik_jar_lib::update_jar::UpdateJar::copy_partial(
        &mut writer,
        &mut open(&jar),
        names(&[APPLICATION]),
    )
    .unwrap();
    assert_eq!(options.len(), 1);
    let mut properties = StringMap::new();
    properties.insert(APPLICATION.to_string(), mapping(&[("softwareVersion", "4")]));
    smik_jar_lib::update_jar::UpdateJar::add_files(&mut writer, properties, options).unwrap();
    let rewritten = writer.finish().unwrap();
    assert_eq!(names_of(&rewritten)[4], APPLICATION);
    assert_eq!(content_of(&rewritten, APPLICATION), b"softwareVersion=4\n");
}

#[test]
fn add_files_writes_the_files_in_ascending_path_order() {
    let mut properties = StringMap::new();
    properties.insert("b".to_string(), mapping(&[("k", "2")]));
    properties.insert("a".to_string(), mapping(&[("k", "1")]));
    properties.insert("a-c".to_string(), mapping(&[]));
    properties.insert("a/c".to_string(), mapping(&[]));
    let mut writer = ArchiveWriter::new();
    writer.add_files(properties, StringMap::new()).unwrap();
    let jar = writer.finish().unwrap();
    assert_eq!(names_of(&jar), names(&["a", "a/c", "a-c", "b"]));
    assert_eq!(content_of(&jar, "a"), b"k=1\n");
    assert_eq!(content_of(&jar, "b"), b"k=2\n");
}

#[test]
fn add_files_fails_with_a_zip_error_on_a_name_that_the_writer_has() {
    let mut writer = ArchiveWriter::new();
    let mut first = StringMap::new();
    first.insert("a".to_string(), mapping(&[("k", "1")]));
    writer.add_files(first, StringMap::new()).unwrap();
    let mut second = StringMap::new();
    second.insert("a".to_string(), mapping(&[("k", "2")]));
    second.insert("b".to_string(), mapping(&[("k", "3")]));
    let error = writer.add_files(second, StringMap::new()).err().unwrap();
    assert!(matches!(error, JarError::Zip(_)));
    let jar = writer.finish().unwrap();
    assert_eq!(names_of(&jar), names(&["a"]));
    assert_eq!(content_of(&jar, "a"), b"k=1\n");
}

#[test]
fn replace_fails_with_a_zip_error_where_the_copy_fails() {
    let mut source = ZipWriter::new(Cursor::new(Vec::new()));
    source.start_file("data.bin", stored()).unwrap();
    source.write_all(b"QQQQQQQQQQQQQQQQ").unwrap();
    let mut jar = source.finish().unwrap().into_inner();
    let at = jar.windows(16).position(|window| window == b"QQQQQQQQQQQQQQQQ").unwrap();
    jar[at] = b'R';
    let error = CopyPartial::replace(ArchiveWriter::new(), &mut open(&jar), StringMap::new())
        .err()
        .unwrap();
    assert!(matches!(error, JarError::Zip(ZipError::Io(_))));
}

#[test]
fn copy_partial_copies_two_files_each_with_its_own_content() {
    let mut source = ZipWriter::new(Cursor::new(Vec::new()));
    source.start_file("b.txt", stored()).unwrap();
    source.write_all(b"BB").unwrap();
    source.start_file("a.txt", stored()).unwrap();
    source.write_all(b"A").unwrap();
    let jar = source.finish().unwrap().into_inner();
    let mut writer = ArchiveWriter::new();
    let options = writer.copy_partial(&mut open(&jar), Vec::new()).unwrap();
    assert!(options.is_empty());
    let copy = writer.finish().unwrap();
    assert_eq!(names_of(&copy), names(&["b.txt", "a.txt"]));
    assert_eq!(content_of(&copy, "b.txt"), b"BB");
    assert_eq!(content_of(&copy, "a.txt"), b"A");
}

#[test]
fn unsupported_entries_names_what_the_copy_passes_over() {
    let jar = mixed_jar();
    assert_eq!(unsupported_entries(&mut open(&jar), &Vec::new()).unwrap(), names(&["current"]));
    assert!(unsupported_entries(&mut open(&jar), &names(&["current"])).unwrap().is_empty());
}

#[test]
fn write_version_stores_the_text_of_the_version() {
    let mut properties = StringMap::new();
    properties.insert("one".to_string(), mapping(&[("softwareVersion", "0")]));
    properties.insert("two".to_string(), mapping(&[("c", "3")]));
    WriteVersion::set_version(&mut properties, semver::Version::new(1, 2, 3));
    assert_eq!(properties.value_at(0).get(&"softwareVersion".to_string()), Some(&"1.2.3".to_string()));
    assert_eq!(properties.value_at(1).get(&"softwareVersion".to_string()), Some(&"1.2.3".to_string()));
    assert_eq!(properties.value_at(1).get(&"c".to_string()), Some(&"3".to_string()));
}

#[test]
fn jar_error_is_made_from_the_errors_it_carries() {
    assert!(matches!(JarError::from(ZipError::FileNotFound), JarError::Zip(ZipError::FileNotFound)));
    assert!(matches!(JarError::from(std::io::Error::other("broken")), JarError::Io(_)));
    assert!(matches!(
        JarError::from(java_properties::PropertiesError::from(std::io::Error::other("broken"))),
        JarError::JavaProperties(_)
    ));
    let refused = path(&[b"a", &[0xff]]);
    assert!(matches!(JarError::from(refused.clone()), JarError::Utf8(handed) if handed == refused));
}

#[test]
fn a_new_writer_finishes_to_an_empty_archive() {
    let jar = ArchiveWriter::new().finish().unwrap();
    assert!(names_of(&jar).is_empty());
}

#[test]
fn is_excluded_looks_the_name_up() {
    let exclude = names(&["a", "b/c"]);
    assert!(is_excluded(&exclude, &"b/c".to_string()));
    assert!(!is_excluded(&exclude, &"b".to_string()));
    assert!(!is_excluded(&Vec::new(), &"a".to_string()));
}

#[test]
fn paths_of_gives_the_keys_in_order() {
    let mut properties = StringMap::new();
    properties.insert("z".to_string(), mapping(&[]));
    properties.insert("a".to_string(), mapping(&[("k", "v")]));
    assert_eq!(paths_of(&properties), names(&["a", "z"]));
}

#[test]
fn set_versions_stores_the_version_in_every_mapping() {
    let mut properties = StringMap::new();
    properties.insert("one".to_string(), mapping(&[("a", "1"), ("softwareVersion", "0"), ("b", "2")]));
    properties.insert("two".to_string(), mapping(&[("c", "3")]));
    set_versions(&mut properties, "5.0");
    assert_eq!(properties.len(), 2);
    let one = properties.value_at(0);
    assert_eq!(one.len(), 3);
    assert_eq!(one.key_at(2), "softwareVersion");
    assert_eq!(one.value_at(2), "5.0");
    assert_eq!(one.value_at(0), "1");
    assert_eq!(one.value_at(1), "2");
    let two = properties.value_at(1);
    assert_eq!(two.len(), 2);
    assert_eq!(two.key_at(0), "c");
    assert_eq!(two.key_at(1), "softwareVersion");
    assert_eq!(two.value_at(1), "5.0");
}

#[test]
fn project_versions_reads_the_version_key() {
    let mut properties = StringMap::new();
    properties.insert("one".to_string(), mapping(&[("softwareVersion", "1.0")]));
    properties.insert("two".to_string(), mapping(&[("other", "x")]));
    let versions = project_versions(&properties);
    assert_eq!(versions.len(), 2);
    assert_eq!(versions.key_at(0), "one");
    assert_eq!(versions.value_at(0), &Some("1.0".to_string()));
    assert_eq!(versions.key_at(1), "two");
    assert_eq!(versions.value_at(1), &None);
}

#[test]
fn get_properties_collects_the_candidates_that_are_present() {
    let mut archive = open(&mixed_jar());
    let properties = archive.get_properties();
    assert_eq!(properties.len(), 1);
    assert_eq!(properties.key_at(0), APPLICATION);
    assert_eq!(properties.value_at(0).get(&"softwareVersion".to_string()), Some(&"1.0.0".to_string()));
    let versions = archive.versions();
    assert_eq!(versions.len(), 1);
    assert_eq!(versions.value_at(0), &Some("1.0.0".to_string()));
}

#[test]
fn properties_files_walks_the_candidates_that_are_present() {
    let mut archive = open(&mixed_jar());
    let mut entries = archive.properties_files();
    let (name, found) = entries.next().unwrap();
    assert_eq!(name, path(&[b"BOOT-INF", b"classes", b"application.properties"]));
    let reader = found.unwrap();
    assert_eq!(reader.kind(), EntryKind::File);
    assert_eq!(reader.content().unwrap(), b"softwareVersion=1.0.0\n");
    assert!(entries.next().is_none());
}

#[test]
fn entries_mut_hands_out_the_paths_in_order() {
    let mut archive = open(&mixed_jar());
    let paths = vec![
        path(&[b"META-INF", b""]),
        path(&[b"missing"]),
        path(&[b"BOOT-INF", &[0xff], b"logo.bin"]),
        path(&[b"current"]),
    ];
    let mut entries = EntriesMut::new(&mut archive, paths.clone());
    let (name, found) = entries.next().unwrap();
    assert_eq!(name, paths[0]);
    assert_eq!(found.unwrap().kind(), EntryKind::Directory);
    {
        let (name, found) = entries.next().unwrap();
        assert_eq!(name, paths[1]);
        assert!(matches!(found, Err(JarError::Zip(_))));
    }
    {
        let (name, found) = entries.next().unwrap();
        assert_eq!(name, paths[2]);
        let error = found.err().unwrap();
        assert!(matches!(&error, JarError::Utf8(refused) if *refused == paths[2]));
        assert_eq!(error.message(), "UTF-8 error: BOOT-INF/?/logo.bin");
    }
    {
        let (name, found) = entries.next().unwrap();
        assert_eq!(name, paths[3]);
        assert_eq!(found.unwrap().kind(), EntryKind::Unsupported);
    }
    assert!(entries.next().is_none());
    assert!(entries.next().is_none());
}

#[test]
fn by_path_finds_the_entry_under_the_joined_path() {
    let mut archive = open(&mixed_jar());
    let reader = ByPath::by_path(&mut archive, path(&[b"BOOT-INF", b"classes", b"logo.bin"])).unwrap();
    assert_eq!(reader.kind(), EntryKind::File);
    assert_eq!(reader.content().unwrap(), [0, 1, 2, 3, 255]);
    assert!(matches!(
        ByPath::by_path(&mut archive, path(&[b"BOOT-INF", b"nothing"])),
        Err(ZipError::FileNotFound)
    ));
}

#[test]
fn by_path_resolves_the_parent_directory() {
    let mut archive = open(&mixed_jar());
    let reader = ByPath::by_path(
        &mut archive,
        path(&[b"BOOT-INF", b"lib", b"..", b"classes", b".", b"logo.bin"]),
    )
    .unwrap();
    assert_eq!(reader.content().unwrap(), [0, 1, 2, 3, 255]);
}

#[test]
fn by_path_finds_nothing_under_a_path_that_is_not_utf8() {
    let mut archive = open(&mixed_jar());
    let refused = path(&[b"BOOT-INF", &[0xff], b"logo.bin"]);
    assert!(matches!(ByPath::by_path(&mut archive, refused), Err(ZipError::FileNotFound)));
}
