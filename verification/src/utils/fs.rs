//! File name utilities.
use vstd::prelude::*;
use crate::config::opt_chars;
use crate::text::{lowercase, to_lowercase};

verus! {

/// The extension of the file a path names, as `std::path::Path::extension` finds it: the
/// part of the file name after its last `.`, when the file name has one that is not its
/// first character.
pub uninterp spec fn file_extension(path: Seq<char>) -> Option<Seq<char>>;

/// `std::path::Path::extension` (std) on the path, with the extension as text. Claimed: the
/// result is the named extension of the path; the text of a valid path's extension is valid
/// text, so no character is lost in the conversion.
#[verifier::external_body]
pub(crate) fn path_extension(path: &str) -> (r: Option<String>)
    ensures
        opt_chars(r) == file_extension(path@),
{
    std::path::Path::new(path).extension().map(|e| e.to_string_lossy().into_owned())
}

/// The final component of a path, as `std::path::Path::file_name` finds it: none when the
/// path ends in `..` or is a root or prefix.
pub uninterp spec fn file_name(path: Seq<char>) -> Option<Seq<char>>;

/// `std::path::Path::file_name` (std) on the path, as text. Claimed: the result is the named
/// final component of the path; it is valid text, as part of valid text.
#[verifier::external_body]
pub(crate) fn path_file_name(path: &str) -> (r: Option<String>)
    ensures
        opt_chars(r) == file_name(path@),
{
    std::path::Path::new(path).file_name().map(|n| n.to_string_lossy().into_owned())
}

/// The lower-case extension of a path, if it has one.
pub open spec fn lowercase_extension(path: Seq<char>) -> Option<Seq<char>> {
    match file_extension(path) {
        Some(e) => Some(lowercase(e)),
        None => None,
    }
}

/// File name utilities.
pub struct FSUtils;

impl FSUtils {
    /// The extension of the file a path names, in lower case.
    pub fn get_file_extension(path: &str) -> (r: Option<String>)
        ensures
            opt_chars(r) == lowercase_extension(path@),
    {
        match path_extension(path) {
            Some(e) => Some(to_lowercase(e.as_str())),
            None => None,
        }
    }

    /// Whether the path's extension is `extension`, ignoring case.
    pub fn has_extension(path: &str, extension: &str) -> (b: bool)
        ensures
            b == (lowercase_extension(path@) == Some(lowercase(extension@))),
    {
        match Self::get_file_extension(path) {
            Some(e) => {
                let wanted = to_lowercase(extension);
                e == wanted
            },
            None => false,
        }
    }
}

} // verus!
