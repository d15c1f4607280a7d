//! File paths derived from a project path: the autosave companion, the
//! backups folder, the temporary file of an atomic save, and paths with a
//! replaced extension. Paths are handled as strings; splitting a path into
//! its parent and file stem, joining and replacing an extension follow the
//! platform's path rules (std's `Path`).

use vstd::prelude::*;

verus! {

/// The file stem of a path (`Path::file_stem`): the file name without its
/// final extension, or none when the path has no file name.
pub uninterp spec fn spec_file_stem(path: Seq<char>) -> Option<Seq<char>>;

/// The parent of a path (`Path::parent`), or none for a root or empty path.
pub uninterp spec fn spec_parent(path: Seq<char>) -> Option<Seq<char>>;

/// `base` joined with the relative path `name` (`Path::join`).
pub uninterp spec fn spec_join(base: Seq<char>, name: Seq<char>) -> Seq<char>;

/// `path` with its extension replaced by `ext` (`Path::with_extension`).
pub uninterp spec fn spec_with_extension(path: Seq<char>, ext: Seq<char>) -> Seq<char>;

/// An optional string taken as an optional character sequence.
pub open spec fn opt_view(o: Option<String>) -> Option<Seq<char>> {
    match o {
        Some(s) => Some(s@),
        None => None,
    }
}

/// Calls `Path::file_stem`; the result is the named `spec_file_stem` of the path.
#[verifier::external_body]
fn file_stem(path: &str) -> (r: Option<String>)
    ensures
        opt_view(r) == spec_file_stem(path@),
{
    std::path::Path::new(path).file_stem().and_then(|s| s.to_str()).map(|s| s.to_owned())
}

/// Calls `Path::parent`; the result is the named `spec_parent` of the path.
#[verifier::external_body]
fn parent(path: &str) -> (r: Option<String>)
    ensures
        opt_view(r) == spec_parent(path@),
{
    std::path::Path::new(path).parent().and_then(|p| p.to_str()).map(|p| p.to_owned())
}

/// Calls `Path::join`; the result is the named `spec_join` of the two paths.
#[verifier::external_body]
fn join(base: &str, name: &str) -> (r: String)
    ensures
        r@ == spec_join(base@, name@),
{
    std::path::Path::new(base).join(name).to_string_lossy().into_owned()
}

/// Calls `Path::with_extension`; the result is the named `spec_with_extension`.
/// The extension holds no path separator, on which setting it would panic.
#[verifier::external_body]
fn with_extension(path: &str, ext: &str) -> (r: String)
    requires
        forall|i: int| 0 <= i < ext@.len() ==> ext@[i] != '/' && ext@[i] != '\\',
    ensures
        r@ == spec_with_extension(path@, ext@),
{
    std::path::Path::new(path).with_extension(ext).to_string_lossy().into_owned()
}

/// A file name placed in the folder `parent`: joined to it when the parent
/// is a non-empty path, the bare file name otherwise.
pub open spec fn placed_in(parent: Option<Seq<char>>, name: Seq<char>) -> Seq<char> {
    match parent {
        Some(p) => if p.len() > 0 {
            spec_join(p, name)
        } else {
            name
        },
        None => name,
    }
}

/// Places the file name `name` in the folder `parent` (see `placed_in`).
pub fn place_in(parent: Option<String>, name: &str) -> (r: String)
    ensures
        r@ == placed_in(opt_view(parent), name@),
{
    match parent {
        Some(p) => if p.as_str().unicode_len() > 0 {
            join(p.as_str(), name)
        } else {
            String::from_str(name)
        },
        None => String::from_str(name),
    }
}

/// The stem used for a project path: its file stem, or `project` when it has none.
pub open spec fn stem_or_default(stem: Option<Seq<char>>) -> Seq<char> {
    match stem {
        Some(s) => s,
        None => "project"@,
    }
}

/// The file stem of `path`, or `project` when it has none.
pub fn project_stem(path: &str) -> (r: String)
    ensures
        r@ == stem_or_default(spec_file_stem(path@)),
{
    match file_stem(path) {
        Some(s) => s,
        None => String::from_str("project"),
    }
}

/// The file name of the autosave companion of a project with this stem:
/// `<stem>.autosave.cadproj`, with `project` for a missing stem.
pub fn autosave_file_name(stem: Option<String>) -> (r: String)
    ensures
        r@ == stem_or_default(opt_view(stem)) + ".autosave.cadproj"@,
{
    let mut name = match stem {
        Some(s) => s,
        None => String::from_str("project"),
    };
    name.append(".autosave.cadproj");
    name
}

/// The autosave path of a project file: `name.cadproj` becomes
/// `name.autosave.cadproj`, in the same folder.
pub fn autosave_path(path: &str) -> (r: String)
    ensures
        r@ == placed_in(spec_parent(path@), stem_or_default(spec_file_stem(path@)) + ".autosave.cadproj"@),
{
    let name = autosave_file_name(file_stem(path));
    place_in(parent(path), name.as_str())
}

/// The folder that holds the backups of a project file: `backups` next to it.
pub fn backups_dir_for(path: &str) -> (r: String)
    ensures
        r@ == placed_in(spec_parent(path@), "backups"@),
{
    place_in(parent(path), "backups")
}

/// The temporary file an atomic save writes first: the path with `.tmp` appended.
pub fn temp_path_for(path: &str) -> (r: String)
    ensures
        r@ == path@ + ".tmp"@,
{
    let mut s = String::from_str(path);
    s.append(".tmp");
    s
}

/// Where recovery writes the project it recovered: the project path with
/// its extension replaced by `recovered.cadproj`.
pub fn recovered_path(path: &str) -> (r: String)
    ensures
        r@ == spec_with_extension(path@, "recovered.cadproj"@),
{
    proof {
        reveal_strlit("recovered.cadproj");
    }
    with_extension(path, "recovered.cadproj")
}

/// Where a project's SVG export is written by default: the project path
/// with its extension replaced by `svg`.
pub fn svg_path_for(path: &str) -> (r: String)
    ensures
        r@ == spec_with_extension(path@, "svg"@),
{
    proof {
        reveal_strlit("svg");
    }
    with_extension(path, "svg")
}

} // verus!
