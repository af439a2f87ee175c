//! Lexical operations on path texts, done by `std::path`.

use vstd::prelude::*;
use crate::text::strings_view;

verus! {

/// What `Path::components` gives for a path text, each component as its text.
pub uninterp spec fn path_components_of(path: Seq<char>) -> Seq<Seq<char>>;

/// The components of a path.
///
/// Trusted: calls `Path::components` on the text and takes each
/// component's text; claims only that the result is a function of the
/// path text, named `path_components_of`. Two paths are equal as `Path`s
/// exactly when their components are.
#[verifier::external_body]
pub(crate) fn path_components(path: &str) -> (r: Vec<String>)
    ensures
        strings_view(r@) == path_components_of(path@),
{
    std::path::Path::new(path).components().map(|c| c.as_os_str().to_string_lossy().into_owned()).collect()
}


/// Whether `Path::starts_with` holds: `base`'s components are a prefix of `path`'s.
pub uninterp spec fn path_starts_with_spec(path: Seq<char>, base: Seq<char>) -> bool;

/// What `Path::file_name` gives for a path text.
pub uninterp spec fn file_name_spec(path: Seq<char>) -> Option<Seq<char>>;

/// What `Path::strip_prefix` gives for a path text and a base.
pub uninterp spec fn strip_prefix_spec(path: Seq<char>, base: Seq<char>) -> Option<Seq<char>>;

/// What `Path::parent` gives for a path text.
pub uninterp spec fn parent_spec(path: Seq<char>) -> Option<Seq<char>>;

/// What `Path::join` gives for a base and a path text.
pub uninterp spec fn join_spec(base: Seq<char>, rel: Seq<char>) -> Seq<char>;

/// What `Path::is_absolute` gives for a path text.
pub uninterp spec fn is_absolute_spec(path: Seq<char>) -> bool;

/// Whether `Path`'s `==` holds for two path texts.
pub uninterp spec fn same_path_spec(a: Seq<char>, b: Seq<char>) -> bool;

/// What `Path::extension` gives for a path text.
pub uninterp spec fn extension_spec(path: Seq<char>) -> Option<Seq<char>>;

/// A text with neither a root nor a prefix on Unix and Windows: it
/// starts with neither `/` nor `\` and holds no `:`.
pub open spec fn surely_relative(t: Seq<char>) -> bool {
    !(t.len() > 0 && (t[0] == '/' || t[0] == '\\')) && !t.contains(':')
}

/// A text that is one plain name on Unix and Windows: not empty, not `.`
/// or `..`, and without `/`, `\` or `:`.
pub open spec fn plain_name(t: Seq<char>) -> bool {
    &&& t.len() > 0
    &&& t != seq!['.']
    &&& t != seq!['.', '.']
    &&& !t.contains('/')
    &&& !t.contains('\\')
    &&& !t.contains(':')
}

/// The position of the last `.` of a text, or -1.
pub open spec fn last_dot(t: Seq<char>) -> int
    decreases t.len(),
{
    if t.len() == 0 {
        -1
    } else if t.last() == '.' {
        t.len() - 1
    } else {
        last_dot(t.drop_last())
    }
}

/// The extension of a plain name, as `Path::extension` documents it: what
/// follows the last `.`, unless there is none or it is the first character.
pub open spec fn plain_extension(t: Seq<char>) -> Option<Seq<char>> {
    if last_dot(t) > 0 {
        Some(t.skip(last_dot(t) + 1))
    } else {
        None
    }
}

/// Whether `base` is a component-wise prefix of `path`.
///
/// Trusted: calls `Path::starts_with`; claims only that the answer is a
/// function of the two texts, named `path_starts_with_spec`.
#[verifier::external_body]
pub(crate) fn path_starts_with(path: &str, base: &str) -> (r: bool)
    ensures
        r == path_starts_with_spec(path@, base@),
{
    std::path::Path::new(path).starts_with(base)
}

/// The last component of a path, if it is a normal one.
///
/// Trusted: calls `Path::file_name` (and `OsStr::to_str`, which cannot fail
/// on a component of a `str`); claims that the result is a function of the
/// text, named `file_name_spec`, and that a plain name (one normal
/// component on Unix and Windows) is its own file name.
#[verifier::external_body]
pub(crate) fn path_file_name(path: &str) -> (r: Option<String>)
    ensures
        match r {
            Some(s) => file_name_spec(path@) == Some(s@),
            None => file_name_spec(path@) is None,
        },
        plain_name(path@) ==> r is Some && r.unwrap()@ == path@,
{
    std::path::Path::new(path).file_name().and_then(|n| n.to_str()).map(|n| n.to_string())
}

/// The path relative to `base`, if `base` is a component-wise prefix of it.
///
/// Trusted: calls `Path::strip_prefix`; claims only that the result is a
/// function of the two texts, named `strip_prefix_spec`, and that it is
/// present exactly when `Path::starts_with` holds (as the documentation of
/// `strip_prefix` says).
#[verifier::external_body]
pub(crate) fn path_strip_prefix(path: &str, base: &str) -> (r: Option<String>)
    ensures
        match r {
            Some(s) => strip_prefix_spec(path@, base@) == Some(s@),
            None => strip_prefix_spec(path@, base@) is None,
        },
        r is Some == path_starts_with_spec(path@, base@),
{
    std::path::Path::new(path).strip_prefix(base).ok().map(|p| p.to_string_lossy().into_owned())
}

/// The path without its last component, if it has one.
///
/// Trusted: calls `Path::parent`; claims only that the result is a
/// function of the text, named `parent_spec`.
#[verifier::external_body]
pub(crate) fn path_parent(path: &str) -> (r: Option<String>)
    ensures
        match r {
            Some(s) => parent_spec(path@) == Some(s@),
            None => parent_spec(path@) is None,
        },
{
    std::path::Path::new(path).parent().map(|p| p.to_string_lossy().into_owned())
}

/// `rel` joined onto `base`.
///
/// Trusted: calls `Path::join`; claims that the result is a function of the
/// two texts, named `join_spec`, and, as `PathBuf::push` documents, that an
/// absolute `rel` replaces `base`; onto an empty `base` (no separator is
/// needed after nothing) the result is `rel` itself. How a relative `rel` is
/// appended to a base that is not empty (which separator, when) depends on
/// the target and is left unsaid.
#[verifier::external_body]
pub(crate) fn path_join(base: &str, rel: &str) -> (r: String)
    ensures
        r@ == join_spec(base@, rel@),
        is_absolute_spec(rel@) ==> r@ == rel@,
        base@.len() == 0 ==> r@ == rel@,
{
    std::path::Path::new(base).join(rel).to_string_lossy().into_owned()
}

/// Whether a path is absolute.
///
/// Trusted: calls `Path::is_absolute`; claims that the answer is a
/// function of the text, named `is_absolute_spec`, and that a text with no
/// root and no prefix is not absolute: on Unix an absolute path starts with
/// `/`; on Windows it has a prefix (which starts with `\` or holds `:`) and
/// a root. Which other texts are absolute depends on the target.
#[verifier::external_body]
pub(crate) fn path_is_absolute(path: &str) -> (r: bool)
    ensures
        r == is_absolute_spec(path@),
        surely_relative(path@) ==> !r,
{
    std::path::Path::new(path).is_absolute()
}

/// The extension of a path's file name.
///
/// Trusted: calls `Path::extension` (and `OsStr::to_str`, which cannot
/// fail on a part of a `str` cut at a `.`); claims that the result is a
/// function of the text, named `extension_spec`, and that for a plain name
/// it is what `Path::extension` documents: what follows the last `.`,
/// none when there is no `.` or the only one starts the name.
#[verifier::external_body]
pub(crate) fn path_extension(path: &str) -> (r: Option<String>)
    ensures
        match r {
            Some(s) => extension_spec(path@) == Some(s@),
            None => extension_spec(path@) is None,
        },
        plain_name(path@) ==> match r {
            Some(s) => plain_extension(path@) == Some(s@),
            None => plain_extension(path@) is None,
        },
{
    std::path::Path::new(path).extension().and_then(|e| e.to_str()).map(|e| e.to_string())
}

/// Whether two path texts name the same path, component by component.
///
/// Trusted: compares with `Path`'s `==`, which compares the paths'
/// components (`Path::components`). Claims that the answer is a function of
/// the two texts, named `same_path_spec`, and that texts with the same
/// components, each taken as its text, are equal paths. The converse is
/// left unsaid: on Windows a drive prefix is compared without regard to
/// the case of its letter.
#[verifier::external_body]
pub(crate) fn path_eq(a: &str, b: &str) -> (r: bool)
    ensures
        r == same_path_spec(a@, b@),
        path_components_of(a@) == path_components_of(b@) ==> r,
{
    std::path::Path::new(a) == std::path::Path::new(b)
}

} // verus!
