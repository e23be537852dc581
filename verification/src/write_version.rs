//! Setting a semantic version.

use vstd::prelude::*;

use crate::jar_file::set_versions;
use crate::jar_file::versioned;
use crate::string_map::StringMap;
use semver::Version;

verus! {

/// A semantic version; opaque here.
#[verifier::external_type_specification]
#[verifier::external_body]
pub struct ExVersion(Version);

/// The text of a version, as the version displays itself.
pub uninterp spec fn version_text(version: Version) -> Seq<char>;

/// Calls `to_string` on a `semver::Version`: its text, which is a function
/// of the version.
#[verifier::external_body]
fn version_string(version: &Version) -> (text: String)
    ensures
        text@ == version_text(*version),
{
    version.to_string()
}

/// Extension trait to set a semantic version.
pub trait WriteVersion {
    /// The property mappings that take the version, by path.
    spec fn mappings(&self) -> Seq<(Seq<char>, Seq<(Seq<char>, Seq<char>)>)>;

    /// Sets the JAR file's version: the text of `version` is stored under
    /// the version key of every mapping.
    fn set_version(&mut self, version: Version)
        ensures
            final(self).mappings() == versioned(old(self).mappings(), version_text(version)),
    ;
}

impl WriteVersion for StringMap<StringMap<String>> {
    open spec fn mappings(&self) -> Seq<(Seq<char>, Seq<(Seq<char>, Seq<char>)>)> {
        self@
    }

    fn set_version(&mut self, version: Version) {
        let text = version_string(&version);
        set_versions(self, text.as_str());
    }
}

} // verus!
