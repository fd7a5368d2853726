use vstd::prelude::*;

verus! {

/// The path that `std::path::Path::join` builds from a directory and a relative
/// path, both as text.
pub uninterp spec fn joined_path(base: Seq<char>, name: Seq<char>) -> Seq<char>;

/// The last component of a path as `std::path::Path::file_name` gives it, if
/// the path has one.
pub uninterp spec fn path_file_name(path: Seq<char>) -> Option<Seq<char>>;

/// `std::path::Path::join` on text: the directory `base` with `name` adjoined.
/// The result is a function of the two texts alone; nothing more is claimed.
#[verifier::external_body]
pub(crate) fn join_path(base: &str, name: &str) -> (joined: String)
    ensures
        joined@ == joined_path(base@, name@),
{
    std::path::Path::new(base).join(name).to_string_lossy().into_owned()
}

/// `std::path::Path::file_name` on text. The result is a function of the text
/// alone; nothing more is claimed.
#[verifier::external_body]
pub(crate) fn file_name_of(path: &str) -> (name: Option<String>)
    ensures
        name is Some <==> path_file_name(path@) is Some,
        name is Some ==> name->0@ == path_file_name(path@)->0,
{
    std::path::Path::new(path).file_name().map(|n| n.to_string_lossy().into_owned())
}

/// `std::path::Path::is_dir`: whether the path names a directory at the moment
/// of the call. Nothing is claimed of the answer.
#[verifier::external_body]
pub(crate) fn is_directory(path: &str) -> bool {
    std::path::Path::new(path).is_dir()
}

/// `std::path::Path::is_file`: whether the path names a regular file at the
/// moment of the call. Nothing is claimed of the answer.
#[verifier::external_body]
pub(crate) fn is_regular_file(path: &str) -> bool {
    std::path::Path::new(path).is_file()
}

/// The extension of a path as `std::path::Path::extension` gives it, if the
/// path has one.
pub uninterp spec fn path_extension(path: Seq<char>) -> Option<Seq<char>>;

/// `std::path::Path::extension` on text. The result is a function of the text
/// alone; nothing more is claimed.
#[verifier::external_body]
pub(crate) fn extension_of(path: &str) -> (extension: Option<String>)
    ensures
        extension is Some <==> path_extension(path@) is Some,
        extension is Some ==> extension->0@ == path_extension(path@)->0,
{
    std::path::Path::new(path).extension().map(|e| e.to_string_lossy().into_owned())
}

/// `std::path::Path::read_dir`: the paths of the entries of a directory at the
/// moment of the call; none where the directory cannot be read. Nothing is
/// claimed of the answer.
#[verifier::external_body]
pub(crate) fn directory_entries(dir: &str) -> Vec<String> {
    match std::path::Path::new(dir).read_dir() {
        Ok(entries) => entries.filter_map(|e| e.ok()).map(
            |e| e.path().to_string_lossy().into_owned(),
        ).collect(),
        Err(_) => Vec::new(),
    }
}

} // verus!
