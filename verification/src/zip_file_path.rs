//! Paths inside a ZIP archive.
//!
//! A file system path is taken as the sequence of its components, each the
//! raw bytes of one name; inside an archive a path is text, its components
//! joined by `/`.

use vstd::prelude::*;
use vstd::string::StringExecFns;
use vstd::utf8::decode_utf8;
use vstd::utf8::valid_utf8;

verus! {

/// An error of UTF-8 validation; opaque here.
#[verifier::external_type_specification]
#[verifier::external_body]
pub struct ExUtf8Error(std::str::Utf8Error);

/// `std::str::from_utf8` succeeds exactly on valid UTF-8 and then gives the
/// text that the bytes encode.
pub assume_specification<'a>[ std::str::from_utf8 ](bytes: &'a [u8]) -> (result: Result<
    &'a str,
    std::str::Utf8Error,
>)
    ensures
        result is Ok <==> valid_utf8(bytes@),
        result matches Ok(text) ==> text@ == decode_utf8(bytes@),
;

/// Whether every component is valid UTF-8.
pub open spec fn all_text(components: Seq<Seq<u8>>) -> bool {
    forall|i: int| 0 <= i < components.len() ==> valid_utf8(#[trigger] components[i])
}

/// The texts of the components, joined by `/`.
pub open spec fn joined(components: Seq<Seq<u8>>) -> Seq<char>
    decreases components.len(),
{
    if components.len() == 0 {
        Seq::empty()
    } else if components.len() == 1 {
        decode_utf8(components[0])
    } else {
        joined(components.drop_last()) + seq!['/'] + decode_utf8(components.last())
    }
}

/// Converts a path, given by its components, to a string representation
/// suitable for use in a ZIP file: the components joined by `/`. Returns
/// `None` exactly if some component is not valid UTF-8.
pub fn path_to_zip_file_path(path: &Vec<Vec<u8>>) -> (zip_path: Option<String>)
    ensures
        zip_path is Some <==> all_text(path.deep_view()),
        zip_path matches Some(text) ==> text@ == joined(path.deep_view()),
{
    let mut text = String::new();
    let mut index: usize = 0;
    while index < path.len()
        invariant
            index <= path.len(),
            all_text(path.deep_view().take(index as int)),
            text@ == joined(path.deep_view().take(index as int)),
        decreases path.len() - index,
    {
        let ghost before = path.deep_view().take(index as int);
        let ghost after = path.deep_view().take(index + 1);
        assert(path.deep_view()[index as int] == path[index as int]@);
        assert(after.drop_last() =~= before);
        assert(after.last() == path[index as int]@);
        match std::str::from_utf8(path[index].as_slice()) {
            Ok(component) => {
                if index > 0 {
                    proof {
                        reveal_strlit("/");
                    }
                    text.append("/");
                    assert("/"@ =~= seq!['/']);
                }
                text.append(component);
                assert forall|i: int| 0 <= i < after.len() implies valid_utf8(
                    #[trigger] after[i],
                ) by {
                    if i < index {
                        assert(after[i] == before[i]);
                    }
                }
                assert(text@ =~= joined(after));
            },
            Err(_) => {
                assert(!valid_utf8(path.deep_view()[index as int]));
                return None;
            },
        }
        index += 1;
    }
    assert(path.deep_view().take(index as int) =~= path.deep_view());
    Some(text)
}

/// Returns a copy of a path.
pub fn copy_path(path: &Vec<Vec<u8>>) -> (copy: Vec<Vec<u8>>)
    ensures
        copy.deep_view() == path.deep_view(),
{
    let mut copy: Vec<Vec<u8>> = Vec::new();
    let mut index: usize = 0;
    while index < path.len()
        invariant
            index <= path.len(),
            copy.len() == index,
            forall|i: int| 0 <= i < index ==> copy[i]@ == path[i]@,
        decreases path.len() - index,
    {
        let name = path[index].clone();
        assert(name@ == path[index as int]@);
        copy.push(name);
        index += 1;
    }
    assert(copy.deep_view() =~= path.deep_view()) by {
        assert forall|i: int| 0 <= i < path.len() implies copy.deep_view()[i]
            == path.deep_view()[i] by {
            assert(copy.deep_view()[i] == copy[i]@);
            assert(path.deep_view()[i] == path[i]@);
        }
    }
    copy
}

/// Extension trait to convert paths to ZIP file paths.
pub trait ZipFilePath {
    /// The components of the path, each as raw bytes.
    spec fn components(&self) -> Seq<Seq<u8>>;

    /// Returns the path to a file in a ZIP archive: the components joined by
    /// `/`, or `None` if some component is not valid UTF-8.
    fn zip_file_path(&self) -> (zip_path: Option<String>)
        ensures
            zip_path is Some <==> all_text(self.components()),
            zip_path matches Some(text) ==> text@ == joined(self.components()),
    ;
}

impl ZipFilePath for Vec<Vec<u8>> {
    open spec fn components(&self) -> Seq<Seq<u8>> {
        self.deep_view()
    }

    fn zip_file_path(&self) -> (zip_path: Option<String>) {
        path_to_zip_file_path(self)
    }
}

} // verus!
