use vstd::prelude::*;
use crate::path::{directory_entries, extension_of, is_regular_file, path_extension};
use crate::unicode::same_text;

verus! {

/// A path with what was found on disk for it.
#[derive(Clone, Debug, PartialEq, Eq)]
pub struct PathProbe {
    pub path: String,
    /// The path names a regular file.
    pub is_file: bool,
}

/// Whether a path with what was found for it is a snippet file: a regular file
/// with the extension `snippets`.
pub open spec fn is_snippet_file(entry: PathProbe) -> bool {
    entry.is_file && path_extension(entry.path@) == Some("snippets"@)
}

/// The paths of the snippet files among some paths, in their order.
pub open spec fn snippet_files_of(entries: Seq<PathProbe>) -> Seq<Seq<char>>
    decreases entries.len(),
{
    if entries.len() == 0 {
        Seq::empty()
    } else if is_snippet_file(entries.last()) {
        snippet_files_of(entries.drop_last()).push(entries.last().path@)
    } else {
        snippet_files_of(entries.drop_last())
    }
}

/// The texts of a list of strings.
pub open spec fn path_texts(paths: Seq<String>) -> Seq<Seq<char>> {
    paths.map_values(|p: String| p@)
}

/// Picks the snippet files among the entries of a directory.
pub fn pick_snippet_files(entries: &Vec<PathProbe>) -> (files: Vec<String>)
    ensures
        path_texts(files@) == snippet_files_of(entries@),
{
    let mut files: Vec<String> = Vec::new();
    let mut i: usize = 0;
    proof {
        assert(path_texts(files@) =~= snippet_files_of(entries@.take(0)));
    }
    while i < entries.len()
        invariant
            0 <= i <= entries.len(),
            path_texts(files@) == snippet_files_of(entries@.take(i as int)),
        decreases entries.len() - i,
    {
        proof {
            assert(entries@.take(i + 1).drop_last() =~= entries@.take(i as int));
            assert(entries@.take(i + 1).last() == entries@[i as int]);
        }
        let entry = &entries[i];
        let wanted = entry.is_file && match extension_of(entry.path.as_str()) {
            Some(ext) => same_text(ext.as_str(), "snippets"),
            None => false,
        };
        if wanted {
            let ghost before = path_texts(files@);
            files.push(entry.path.clone());
            proof {
                assert(path_texts(files@) =~= before.push(entry.path@));
            }
        }
        i = i + 1;
    }
    proof {
        assert(entries@.take(i as int) =~= entries@);
    }
    files
}

/// Looks at the disk for each of some paths.
pub fn probe_paths(paths: Vec<String>) -> (entries: Vec<PathProbe>)
    ensures
        entries@.len() == paths@.len(),
        forall|i: int| 0 <= i < entries@.len() ==> (#[trigger] entries@[i]).path@ == paths@[i]@,
{
    let mut entries: Vec<PathProbe> = Vec::new();
    let mut i: usize = 0;
    while i < paths.len()
        invariant
            0 <= i <= paths.len(),
            entries@.len() == i,
            forall|k: int| 0 <= k < i ==> (#[trigger] entries@[k]).path@ == paths@[k]@,
        decreases paths.len() - i,
    {
        let path = paths[i].clone();
        let is_file = is_regular_file(path.as_str());
        entries.push(PathProbe { path, is_file });
        i = i + 1;
    }
    entries
}

/// The snippet files in a directory: its entries that are regular files with
/// the extension `snippets`. What is on disk decides.
pub fn get_snippets(inpath: &str) -> (files: Vec<String>)
    ensures
        exists|entries: Seq<PathProbe>| path_texts(files@) == #[trigger] snippet_files_of(entries),
{
    let entries = probe_paths(directory_entries(inpath));
    pick_snippet_files(&entries)
}

/// The snippet files that are used where none is named: those of the working
/// directory, and where it has none, those of the directory of the program,
/// where that is known. What is on disk decides.
pub fn get_snippet_files(binary_dir: Option<&str>) -> (files: Vec<String>)
    ensures
        exists|entries: Seq<PathProbe>| path_texts(files@) == #[trigger] snippet_files_of(entries),
{
    let files = get_snippets("./");
    if files.len() > 0 {
        return files;
    }
    match binary_dir {
        Some(dir) => get_snippets(dir),
        None => files,
    }
}

} // verus!
