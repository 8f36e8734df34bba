//! Names for the files that one run keeps in the directory for temporary
//! files.

use crate::args::{file_name, SLASH};
use crate::text::{find_byte, first_index};
use rand::distributions::Alphanumeric;
use rand::{thread_rng, Rng};
use std::path::{Path, PathBuf};
use vstd::prelude::*;
use vstd::string::StringSliceAdditionalSpecFns;

verus! {

/// The character is an ASCII letter or digit.
pub open spec fn is_alphanumeric(c: char) -> bool {
    ('a' <= c <= 'z') || ('A' <= c <= 'Z') || ('0' <= c <= '9')
}

/// Draws `len` characters from `rand::distributions::Alphanumeric` with the
/// thread's generator. Each is an ASCII letter or digit; which ones come is
/// left to chance.
#[verifier::external_body]
fn random_alphanumeric(len: usize) -> (id: String)
    ensures
        id@.len() == len,
        forall|i: int| 0 <= i < id@.len() ==> is_alphanumeric(#[trigger] id@[i]),
{
    thread_rng().sample_iter(&Alphanumeric).take(len).map(char::from).collect()
}

/// A random name of `len` ASCII letters and digits.
pub fn temp_id(len: usize) -> (id: String)
    ensures
        id@.len() == len,
        forall|i: int| 0 <= i < id@.len() ==> is_alphanumeric(#[trigger] id@[i]),
{
    random_alphanumeric(len)
}

/// The path that `std::path::Path::join` makes of a path and a name on the
/// platform that the library is built for.
pub uninterp spec fn joined(path: Seq<char>, name: Seq<char>) -> Seq<char>;

/// The path that `std::path::PathBuf::set_extension` makes of a path and an
/// extension on the platform that the library is built for; none where it
/// leaves the path as it is, which it does for a path without a file name.
pub uninterp spec fn with_extension(path: Seq<char>, extension: Seq<char>) -> Option<Seq<char>>;

/// The byte of the backslash.
pub const BACKSLASH: u8 = 0x5c;

/// The text holds a character that separates the components of a path on
/// some platform.
pub open spec fn has_separator(text: Seq<u8>) -> bool {
    first_index(text, SLASH) < text.len() || first_index(text, BACKSLASH) < text.len()
}

/// The view of an optional text.
pub open spec fn view_of(text: Option<String>) -> Option<Seq<char>> {
    match text {
        Some(t) => Some(t@),
        None => None,
    }
}

/// Adjoins `name` to `path` with `std::path::Path::join`. Both are text,
/// and so is what comes of them.
#[verifier::external_body]
fn join_path(path: &str, name: &str) -> (out: String)
    ensures
        out@ == joined(path@, name@),
{
    Path::new(path).join(name).to_string_lossy().into_owned()
}

/// Changes the extension of `path` with `std::path::PathBuf::set_extension`,
/// which refuses a path without a file name and then changes nothing. An
/// extension must hold no separator: the function panics on one.
#[verifier::external_body]
fn set_extension(path: &str, extension: &str) -> (out: Option<String>)
    requires
        !has_separator(extension.spec_bytes()),
    ensures
        view_of(out) == with_extension(path@, extension@),
        out is None <==> file_name(path@) is None,
{
    let mut buf = PathBuf::from(path);
    if buf.set_extension(extension) {
        Some(buf.to_string_lossy().into_owned())
    } else {
        None
    }
}

/// The path of the file `name` with the extension `ext` in the directory
/// `path`. There is none where the extension holds a separator, or where
/// directory and name leave the path without a file name.
pub fn temp_file(path: &str, name: &str, ext: &str) -> (file: Option<String>)
    ensures
        view_of(file) == if has_separator(ext.spec_bytes()) {
            None
        } else {
            with_extension(joined(path@, name@), ext@)
        },
        file is Some <==> !has_separator(ext.spec_bytes()) && file_name(joined(path@, name@))
            is Some,
{
    let bytes = ext.as_bytes();
    if find_byte(bytes, SLASH) < bytes.len() || find_byte(bytes, BACKSLASH) < bytes.len() {
        return None;
    }
    let res = join_path(path, name);
    set_extension(res.as_str(), ext)
}

} // verus!
