//! The error type of this library.

use vstd::prelude::*;
use vstd::string::StringExecFns;
use vstd::utf8::decode_utf8;
use vstd::utf8::valid_utf8;

use java_properties::PropertiesError;
use zip::result::ZipError;

verus! {

/// An error of the underlying byte source or sink; opaque here.
#[verifier::external_type_specification]
#[verifier::external_body]
pub struct ExIoError(std::io::Error);

/// An error of the ZIP reader or writer; opaque here.
#[verifier::external_type_specification]
#[verifier::external_body]
pub struct ExZipError(ZipError);

/// An error of the properties codec; opaque here.
#[verifier::external_type_specification]
#[verifier::external_body]
pub struct ExPropertiesError(PropertiesError);

/// Error type for the JAR library.
#[derive(Debug)]
pub enum JarError {
    /// An I/O error occurred.
    Io(std::io::Error),
    /// An error occurred while reading or writing the ZIP archive.
    Zip(ZipError),
    /// An error occurred while parsing or writing Java properties.
    JavaProperties(PropertiesError),
    /// A path has a component that is not valid UTF-8; the components are given.
    Utf8(Vec<Vec<u8>>),
}

impl From<std::io::Error> for JarError {
    fn from(error: std::io::Error) -> (result: Self) {
        JarError::Io(error)
    }
}

impl vstd::std_specs::convert::FromSpecImpl<std::io::Error> for JarError {
    open spec fn obeys_from_spec() -> bool {
        true
    }

    open spec fn from_spec(error: std::io::Error) -> Self {
        JarError::Io(error)
    }
}

impl From<ZipError> for JarError {
    fn from(error: ZipError) -> (result: Self) {
        JarError::Zip(error)
    }
}

impl vstd::std_specs::convert::FromSpecImpl<ZipError> for JarError {
    open spec fn obeys_from_spec() -> bool {
        true
    }

    open spec fn from_spec(error: ZipError) -> Self {
        JarError::Zip(error)
    }
}

impl From<PropertiesError> for JarError {
    fn from(error: PropertiesError) -> (result: Self) {
        JarError::JavaProperties(error)
    }
}

impl vstd::std_specs::convert::FromSpecImpl<PropertiesError> for JarError {
    open spec fn obeys_from_spec() -> bool {
        true
    }

    open spec fn from_spec(error: PropertiesError) -> Self {
        JarError::JavaProperties(error)
    }
}

impl From<Vec<Vec<u8>>> for JarError {
    fn from(path: Vec<Vec<u8>>) -> (result: Self) {
        JarError::Utf8(path)
    }
}

impl vstd::std_specs::convert::FromSpecImpl<Vec<Vec<u8>>> for JarError {
    open spec fn obeys_from_spec() -> bool {
        true
    }

    open spec fn from_spec(path: Vec<Vec<u8>>) -> Self {
        JarError::Utf8(path)
    }
}

/// Calls `ZipError::from` on an I/O error: the ZIP error that carries it.
#[verifier::external_body]
pub(crate) fn zip_error_of(error: std::io::Error) -> ZipError {
    ZipError::from(error)
}

/// Calls `PropertiesError::from` on an I/O error: the properties error that
/// carries it.
#[verifier::external_body]
pub(crate) fn properties_error_of(error: std::io::Error) -> PropertiesError {
    PropertiesError::from(error)
}

/// Builds `ZipError::FileNotFound`, the error of a lookup that finds no entry.
#[verifier::external_body]
pub(crate) fn file_not_found() -> ZipError {
    ZipError::FileNotFound
}

/// The text that introduces the message of each kind of error.
pub open spec fn message_prefix(error: JarError) -> Seq<char> {
    match error {
        JarError::Io(_) => "I/O error: "@,
        JarError::Zip(_) => "ZIP error: "@,
        JarError::JavaProperties(_) => "Error parsing Java properties: "@,
        JarError::Utf8(_) => "UTF-8 error: "@,
    }
}

/// The readable form of a path: its components joined by `/`, a component
/// that is not valid UTF-8 shown as `?`.
pub open spec fn readable(path: Seq<Seq<u8>>) -> Seq<char>
    decreases path.len(),
{
    if path.len() == 0 {
        Seq::empty()
    } else {
        let shown = if valid_utf8(path.last()) {
            decode_utf8(path.last())
        } else {
            seq!['?']
        };
        if path.len() == 1 {
            shown
        } else {
            readable(path.drop_last()) + seq!['/'] + shown
        }
    }
}

impl JarError {
    /// Returns the message of the error: the text that introduces its kind,
    /// followed by the description that the underlying error gives of itself
    /// or, for a path that is not valid UTF-8, by the readable form of the
    /// path.
    pub fn message(&self) -> (message: String)
        ensures
            message_prefix(*self).is_prefix_of(message@),
            self matches JarError::Utf8(path) ==> message@ == "UTF-8 error: "@ + readable(
                path.deep_view(),
            ),
    {
        match self {
            JarError::Io(error) => {
                let message = "I/O error: ".to_owned();
                let text = error.to_string();
                message.concat(text.as_str())
            },
            JarError::Zip(error) => {
                let message = "ZIP error: ".to_owned();
                let text = error.to_string();
                message.concat(text.as_str())
            },
            JarError::JavaProperties(error) => {
                let message = "Error parsing Java properties: ".to_owned();
                let text = error.to_string();
                message.concat(text.as_str())
            },
            JarError::Utf8(path) => {
                let mut message = "UTF-8 error: ".to_owned();
                let mut index: usize = 0;
                while index < path.len()
                    invariant
                        index <= path.len(),
                        message@ == "UTF-8 error: "@ + readable(
                            path.deep_view().take(index as int),
                        ),
                    decreases path.len() - index,
                {
                    let ghost before = path.deep_view().take(index as int);
                    let ghost after = path.deep_view().take(index + 1);
                    proof {
                        reveal_strlit("/");
                        reveal_strlit("?");
                        assert(path.deep_view()[index as int] == path[index as int]@);
                        assert(after.drop_last() =~= before);
                        assert(after.last() == path[index as int]@);
                    }
                    if index > 0 {
                        message.append("/");
                    }
                    match std::str::from_utf8(path[index].as_slice()) {
                        Ok(text) => {
                            message.append(text);
                        },
                        Err(_) => {
                            message.append("?");
                        },
                    }
                    assert(message@ =~= "UTF-8 error: "@ + readable(after));
                    index += 1;
                }
                assert(path.deep_view().take(index as int) =~= path.deep_view());
                message
            },
        }
    }
}

} // verus!
