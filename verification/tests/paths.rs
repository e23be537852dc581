use smik_jar_lib::properties_files;
use smik_jar_lib::zip_file_path::copy_path;
use smik_jar_lib::zip_file_path::path_to_zip_file_path;
use smik_jar_lib::zip_file_path::ZipFilePath;

fn path(components: &[&[u8]]) -> Vec<Vec<u8>> {
    components.iter().map(|component| component.to_vec()).collect()
}

#[test]
fn a_path_is_joined_by_slashes() {
    assert_eq!(
        path_to_zip_file_path(&path(&[b"BOOT-INF", b"classes", b"application.properties"])),
        Some("BOOT-INF/classes/application.properties".to_string())
    );
}

#[test]
fn a_path_of_one_component_is_the_component() {
    assert_eq!(path_to_zip_file_path(&path(&[b"file.txt"])), Some("file.txt".to_string()));
}

#[test]
fn the_empty_path_is_the_empty_string() {
    assert_eq!(path_to_zip_file_path(&path(&[])), Some(String::new()));
}

#[test]
fn a_path_with_text_beyond_ascii_is_kept() {
    assert_eq!(
        path_to_zip_file_path(&path(&["gr\u{fc}n".as_bytes(), "\u{4e2d}.txt".as_bytes()])),
        Some("gr\u{fc}n/\u{4e2d}.txt".to_string())
    );
}

#[test]
fn a_path_with_a_component_that_is_not_utf8_has_no_zip_path() {
    assert_eq!(path_to_zip_file_path(&path(&[b"BOOT-INF", &[0xff, 0xfe], b"x"])), None);
    assert_eq!(path_to_zip_file_path(&path(&[&[0xc3]])), None);
}

#[test]
fn zip_file_path_joins_like_the_function() {
    assert_eq!(path(&[b"a", b"b"]).zip_file_path(), Some("a/b".to_string()));
    assert_eq!(path(&[b"a", &[0x80]]).zip_file_path(), None);
}

#[test]
fn properties_files_are_the_five_candidates() {
    let paths = properties_files();
    assert_eq!(
        paths,
        vec![
            path(&[b"BOOT-INF", b"classes", b"application.properties"]),
            path(&[b"BOOT-INF", b"classes", b"application-dev.properties"]),
            path(&[b"BOOT-INF", b"classes", b"application-int.properties"]),
            path(&[b"BOOT-INF", b"classes", b"application-local.properties"]),
            path(&[b"BOOT-INF", b"classes", b"application-prod.properties"]),
        ]
    );
}

#[test]
fn copy_path_gives_an_equal_path() {
    let given = path(&[b"BOOT-INF", &[0xff, 0x00], b""]);
    assert_eq!(copy_path(&given), given);
    assert_eq!(copy_path(&Vec::new()), Vec::<Vec<u8>>::new());
}
