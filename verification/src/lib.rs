//! Library to read JAR files and to read and rewrite the software version
//! stored in their `application*.properties` files.

use vstd::prelude::*;
use vstd::string::StrSliceExecFns;
use vstd::string::StringSliceAdditionalSpecFns;

pub mod archive;
pub mod by_path;
pub mod copy_partial;
pub mod entries_mut;
pub mod error;
pub mod jar_file;
pub mod properties;
pub mod read_version;
pub mod string_map;
pub mod update_jar;
pub mod write_version;
pub mod writer;
pub mod zip_file_path;

pub use error::JarError;
pub use jar_file::JarFile;

verus! {

/// The key under which a properties file stores the software version.
pub open spec fn version_key() -> Seq<char> {
    "softwareVersion"@
}

/// The names of the properties files that may store the software version.
pub open spec fn properties_file_names() -> Seq<Seq<char>> {
    seq![
        "application.properties"@,
        "application-dev.properties"@,
        "application-int.properties"@,
        "application-local.properties"@,
        "application-prod.properties"@,
    ]
}

/// The path of the properties file called `file_name`, by its components: the
/// file lies in the directory `classes` of the directory `BOOT-INF`.
pub open spec fn properties_file(file_name: Seq<char>) -> Seq<Seq<u8>> {
    seq!["BOOT-INF".spec_bytes(), "classes".spec_bytes(), vstd::utf8::encode_utf8(file_name)]
}

fn properties_file_path(file_name: &str) -> (path: Vec<Vec<u8>>)
    ensures
        path.deep_view() == properties_file(file_name@),
{
    let mut path: Vec<Vec<u8>> = Vec::new();
    path.push("BOOT-INF".as_bytes_vec());
    path.push("classes".as_bytes_vec());
    path.push(file_name.as_bytes_vec());
    assert(path.deep_view()[0] == path[0]@);
    assert(path.deep_view()[1] == path[1]@);
    assert(path.deep_view()[2] == path[2]@);
    assert(path.deep_view() =~= properties_file(file_name@));
    path
}

/// Returns the paths of the JAR file's properties files, each by its
/// components, in the order of `properties_file_names`.
pub fn properties_files() -> (paths: Vec<Vec<Vec<u8>>>)
    ensures
        paths.deep_view() == properties_file_names().map_values(
            |file_name: Seq<char>| properties_file(file_name),
        ),
{
    let mut paths: Vec<Vec<Vec<u8>>> = Vec::new();
    paths.push(properties_file_path("application.properties"));
    paths.push(properties_file_path("application-dev.properties"));
    paths.push(properties_file_path("application-int.properties"));
    paths.push(properties_file_path("application-local.properties"));
    paths.push(properties_file_path("application-prod.properties"));
    assert(paths.deep_view() =~= properties_file_names().map_values(
        |file_name: Seq<char>| properties_file(file_name),
    ));
    paths
}

} // verus!
