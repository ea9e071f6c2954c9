//! Path operations, done by `camino` on UTF-8 paths held as plain strings.
use vstd::prelude::*;

use camino::Utf8Path;

verus! {

/// `Utf8Path::join`: `rel` adjoined to `base`.
pub uninterp spec fn path_join(base: Seq<char>, rel: Seq<char>) -> Seq<char>;

/// `Utf8Path::is_absolute`.
pub uninterp spec fn path_is_absolute(p: Seq<char>) -> bool;

/// `Utf8Path::parent`: the path without its final component.
pub uninterp spec fn path_parent(p: Seq<char>) -> Option<Seq<char>>;

/// `Utf8Path::extension`.
pub uninterp spec fn path_extension(p: Seq<char>) -> Option<Seq<char>>;

/// `Utf8Path::file_stem`.
pub uninterp spec fn path_file_stem(p: Seq<char>) -> Option<Seq<char>>;

/// `Utf8Path::strip_prefix`: `p` relative to `base`, where `base` is a
/// leading run of `p`'s components.
pub uninterp spec fn path_strip_prefix(p: Seq<char>, base: Seq<char>) -> Option<Seq<char>>;

/// Calls `camino::Utf8Path::join`; the result is named `path_join` of the
/// two arguments and nothing more is claimed of it.
#[verifier::external_body]
pub(crate) fn join_path(base: &str, rel: &str) -> (r: String)
    ensures
        r@ == path_join(base@, rel@),
{
    Utf8Path::new(base).join(rel).into_string()
}

/// Calls `camino::Utf8Path::is_absolute`.
#[verifier::external_body]
pub(crate) fn is_absolute_path(p: &str) -> (r: bool)
    ensures
        r == path_is_absolute(p@),
{
    Utf8Path::new(p).is_absolute()
}

/// Calls `camino::Utf8Path::parent`.
#[verifier::external_body]
pub(crate) fn parent_path(p: &str) -> (r: Option<String>)
    ensures
        match path_parent(p@) {
            Some(q) => r matches Some(s) && s@ == q,
            None => r is None,
        },
{
    Utf8Path::new(p).parent().map(|q| q.as_str().to_owned())
}

/// Calls `camino::Utf8Path::extension`.
#[verifier::external_body]
pub(crate) fn path_extension_of(p: &str) -> (r: Option<String>)
    ensures
        match path_extension(p@) {
            Some(q) => r matches Some(s) && s@ == q,
            None => r is None,
        },
{
    Utf8Path::new(p).extension().map(|q| q.to_owned())
}

/// Calls `camino::Utf8Path::file_stem`.
#[verifier::external_body]
pub(crate) fn path_file_stem_of(p: &str) -> (r: Option<String>)
    ensures
        match path_file_stem(p@) {
            Some(q) => r matches Some(s) && s@ == q,
            None => r is None,
        },
{
    Utf8Path::new(p).file_stem().map(|q| q.to_owned())
}

/// Calls `camino::Utf8Path::strip_prefix`; its error becomes `None`.
#[verifier::external_body]
pub(crate) fn strip_path_prefix(p: &str, base: &str) -> (r: Option<String>)
    ensures
        match path_strip_prefix(p@, base@) {
            Some(q) => r matches Some(s) && s@ == q,
            None => r is None,
        },
{
    match Utf8Path::new(p).strip_prefix(base) {
        Ok(q) => Some(q.as_str().to_owned()),
        Err(_) => None,
    }
}

} // verus!
