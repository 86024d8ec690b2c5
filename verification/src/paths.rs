//! File-system paths as the arguments and the configuration file carry them.
//! Whether a path is absolute, its parent and what joining two paths gives
//! follow the path rules of the platform the program is built for; within
//! one build each is a function of its arguments alone.

use std::path::PathBuf;
use vstd::prelude::*;

verus! {

#[verifier::external_type_specification]
#[verifier::external_body]
pub struct ExPathBuf(PathBuf);

/// `PathBuf::clone` gives a path identical to the one cloned.
pub assume_specification[ <PathBuf as Clone>::clone ](p: &PathBuf) -> (r: PathBuf)
    ensures
        r == *p,
;

/// What `Path::is_absolute` tells of a path (on Unix: it starts with a root;
/// on Windows: it has a prefix and a root).
pub uninterp spec fn absolute_path(p: PathBuf) -> bool;

/// What `Path::parent` gives for a path, taken as an owned path: the path
/// without its last component, or none when it ends in a root or prefix or
/// is empty.
pub uninterp spec fn parent_path(p: PathBuf) -> Option<PathBuf>;

/// What `Path::join` gives: `p` appended to `base`, or `p` itself when it is
/// absolute.
pub uninterp spec fn joined_path(base: PathBuf, p: PathBuf) -> PathBuf;

/// What `PathBuf::from` gives for a string.
pub uninterp spec fn path_of(s: Seq<char>) -> PathBuf;

/// Calls `Path::is_absolute`; the result is `absolute_path` of the path.
#[verifier::external_body]
fn path_is_absolute(p: &PathBuf) -> (r: bool)
    ensures
        r == absolute_path(*p),
{
    p.is_absolute()
}

/// Calls `Path::parent` and takes the parent as an owned path; the result is
/// `parent_path` of the path.
#[verifier::external_body]
fn path_parent(p: &PathBuf) -> (r: Option<PathBuf>)
    ensures
        r == parent_path(*p),
{
    match p.parent() {
        Some(q) => Some(q.to_path_buf()),
        None => None,
    }
}

/// Calls `Path::join`; the result is `joined_path` of the two paths.
#[verifier::external_body]
fn path_join(base: &PathBuf, p: &PathBuf) -> (r: PathBuf)
    ensures
        r == joined_path(*base, *p),
{
    base.join(p)
}

/// Calls `PathBuf::from` on a string; the result is `path_of` the string.
#[verifier::external_body]
pub fn path_from_str(s: &str) -> (r: PathBuf)
    ensures
        r == path_of(s@),
{
    PathBuf::from(s)
}

/// `path`, written in the configuration file `config_file`, resolved
/// relative to that file's directory.
pub open spec fn resolved_config_path(config_file: PathBuf, path: PathBuf) -> PathBuf {
    if absolute_path(path) {
        path
    } else {
        match parent_path(config_file) {
            Some(dir) => joined_path(dir, path),
            None => path,
        }
    }
}

/// Resolves `path`, written in the configuration file `config_file`,
/// relative to that file's directory: an absolute path stays as it is, a
/// relative one is joined onto the file's parent directory, and without a
/// parent directory the path stays as it is.
pub fn resolve_config_path(config_file: &PathBuf, path: &PathBuf) -> (r: PathBuf)
    ensures
        r == resolved_config_path(*config_file, *path),
{
    if path_is_absolute(path) {
        path.clone()
    } else {
        match path_parent(config_file) {
            Some(parent) => path_join(&parent, path),
            None => path.clone(),
        }
    }
}


/// An absolute path in the configuration file stays as it is.
pub proof fn law_absolute_path_kept(config_file: PathBuf, path: PathBuf)
    requires
        absolute_path(path),
    ensures
        resolved_config_path(config_file, path) == path,
{
}

/// A relative path is joined onto the configuration file's directory,
/// whether the configuration file's own path is absolute or relative.
pub proof fn law_relative_path_joined(config_file: PathBuf, path: PathBuf, dir: PathBuf)
    requires
        !absolute_path(path),
        parent_path(config_file) == Some(dir),
    ensures
        resolved_config_path(config_file, path) == joined_path(dir, path),
{
}

/// A relative path stays as it is only when the configuration file's path
/// has no parent.
pub proof fn law_relative_path_without_directory(config_file: PathBuf, path: PathBuf)
    requires
        !absolute_path(path),
        parent_path(config_file) is None,
    ensures
        resolved_config_path(config_file, path) == path,
{
}

} // verus!
