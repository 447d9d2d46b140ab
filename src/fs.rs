//! Descriptions of files and folders on disk. Reading the disk is left to
//! the caller; this module names entries from their paths.

use vstd::prelude::*;

verus! {

/// The stem (file name without its extension) that `std::path::Path`
/// gives for a path.
pub uninterp spec fn file_stem_of(path: Seq<char>) -> Option<Seq<char>>;

/// The extension that `std::path::Path` gives for a path.
pub uninterp spec fn extension_of(path: Seq<char>) -> Option<Seq<char>>;

/// The final component that `std::path::Path` gives for a path.
pub uninterp spec fn file_name_of(path: Seq<char>) -> Option<Seq<char>>;

/// The view of an optional string.
pub open spec fn opt_view(s: Option<String>) -> Option<Seq<char>> {
    match s {
        Some(x) => Some(x@),
        None => None,
    }
}

/// Relies on `std::path::Path::file_stem`: the stem depends on the path
/// alone.
#[verifier::external_body]
fn path_file_stem(path: &str) -> (r: Option<String>)
    ensures
        opt_view(r) == file_stem_of(path@),
{
    std::path::Path::new(path).file_stem().and_then(|s| s.to_str()).map(|s| s.to_owned())
}

/// Relies on `std::path::Path::extension`: the extension depends on the
/// path alone.
#[verifier::external_body]
fn path_extension(path: &str) -> (r: Option<String>)
    ensures
        opt_view(r) == extension_of(path@),
{
    std::path::Path::new(path).extension().and_then(|s| s.to_str()).map(|s| s.to_owned())
}

/// Relies on `std::path::Path::file_name`: the final component depends on
/// the path alone.
#[verifier::external_body]
fn path_file_name(path: &str) -> (r: Option<String>)
    ensures
        opt_view(r) == file_name_of(path@),
{
    std::path::Path::new(path).file_name().and_then(|s| s.to_str()).map(|s| s.to_owned())
}

/// A file or a folder.
#[derive(Debug)]
pub enum DiskEntry {
    File(File),
    Folder(Folder),
}

/// A file: its name without extension (or the whole name of a dot file),
/// its extension, and its contents when loaded.
#[derive(Debug)]
pub struct File {
    pub name: Option<String>,
    pub extension: Option<String>,
    pub data: Option<Vec<u8>>,
}

/// A folder: its name and the entries it holds.
#[derive(Debug)]
pub struct Folder {
    pub name: Option<String>,
    pub disk_entries: Vec<DiskEntry>,
}

impl File {
    /// The file at `path`, named from the path, with no contents loaded.
    pub fn generate(path: &str) -> (r: File)
        ensures
            opt_view(r.name) == file_stem_of(path@),
            opt_view(r.extension) == extension_of(path@),
            r.data is None,
    {
        File { name: path_file_stem(path), extension: path_extension(path), data: None }
    }
}

impl Folder {
    /// The folder at `path`, named from the path, holding `disk_entries`.
    pub fn generate(path: &str, disk_entries: Vec<DiskEntry>) -> (r: Folder)
        ensures
            opt_view(r.name) == file_name_of(path@),
            r.disk_entries == disk_entries,
    {
        Folder { name: path_file_name(path), disk_entries }
    }
}

} // verus!
