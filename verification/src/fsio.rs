//! The engine's window onto the real filesystem: canonicalization, file-kind
//! and size queries, and recursive directory walks. Every function here is
//! trusted and returns plain values. What a query returns depends on the
//! state of the disk, so it carries no contract and the verified logic
//! treats every outcome as possible; the walks promise only what the
//! walkers' own construction guarantees: every yielded path lies under the
//! given root, within the requested depth.

use vstd::prelude::*;

use crate::text::string_views;
use crate::paths::path_within;
use crate::paths::rel_to_base;
use crate::paths::segs_of;

verus! {

/// Relies on std::path::Path::canonicalize: resolves `.`, `..` and symlinks
/// against the real filesystem, returning an absolute path. `Err` carries the
/// failure's message; a result that is not valid text is reported as a
/// failure too.
#[verifier::external_body]
pub(crate) fn canonicalize_path(p: &str) -> (r: Result<String, String>) {
    match std::path::Path::new(p).canonicalize() {
        Ok(c) => match c.to_str() {
            Some(s) => Ok(s.to_string()),
            None => Err("path is not valid unicode".to_string()),
        },
        Err(e) => Err(e.to_string()),
    }
}

/// Relies on std::path::Path::is_dir: whether the path names an existing
/// directory (following symlinks).
#[verifier::external_body]
pub(crate) fn path_is_dir(p: &str) -> (r: bool) {
    std::path::Path::new(p).is_dir()
}

/// Relies on std::path::Path::is_file: whether the path names an existing
/// regular file (following symlinks).
#[verifier::external_body]
pub(crate) fn path_is_file(p: &str) -> (r: bool) {
    std::path::Path::new(p).is_file()
}

/// Relies on std::path::Path::metadata: the size of the file in bytes, or
/// the failure's message.
#[verifier::external_body]
pub(crate) fn file_size(p: &str) -> (r: Result<u64, String>) {
    match std::path::Path::new(p).metadata() {
        Ok(m) => Ok(m.len()),
        Err(e) => Err(e.to_string()),
    }
}

/// Relies on walkdir::WalkDir: every entry strictly below `p` down to depth
/// `max_depth`, in traversal order, each as its full path and whether it is a
/// directory; a failed entry becomes its failure message. Entry paths are
/// built by joining directory-entry names onto `p` (names are nonempty and
/// hold no separator), so every yielded path lies strictly below `p`, between
/// one and `max_depth` segments deep.
#[verifier::external_body]
pub(crate) fn walk_entries(p: &str, max_depth: usize, follow: bool) -> (r: Vec<
    Result<(String, bool), String>,
>)
    requires
        max_depth >= 1,
    ensures
        forall|i: int|
            0 <= i < r@.len() ==> (#[trigger] r@[i] matches Ok(e) ==> path_within(e.0@, p@) && 1
                <= segs_of(rel_to_base(e.0@, p@)).len() <= max_depth),
{
    walkdir::WalkDir::new(p).min_depth(1).max_depth(max_depth).follow_links(
        follow,
    ).into_iter().map(
        |item| match item {
            Ok(e) => Ok((e.path().to_string_lossy().to_string(), e.file_type().is_dir())),
            Err(err) => Err(err.to_string()),
        },
    ).collect()
}

/// Relies on ignore::WalkBuilder: every entry at or below `p` honouring
/// ignore files (standard filters with hidden filtering switched off, global
/// git ignores, .gitignore and git exclude files, no git repository
/// required), each as its full path and whether it is a directory. Entry
/// paths are built by joining directory-entry names onto `p`, so every
/// yielded path lies at or below `p`.
#[verifier::external_body]
pub(crate) fn walk_ignore_entries(p: &str) -> (r: Vec<Result<(String, bool), String>>)
    ensures
        forall|i: int|
            0 <= i < r@.len() ==> (#[trigger] r@[i] matches Ok(e) ==> path_within(e.0@, p@)),
{
    let mut builder = ignore::WalkBuilder::new(p);
    builder.standard_filters(true).hidden(false).git_global(true).git_ignore(true).git_exclude(
        true,
    ).require_git(false);
    builder.build().map(
        |item| match item {
            Ok(e) => Ok((e.path().to_string_lossy().to_string(), e.path().is_dir())),
            Err(err) => Err(err.to_string()),
        },
    ).collect()
}

/// Whether any of the glob patterns matches the path. The outcome is a
/// function of the patterns and the path alone.
pub uninterp spec fn glob_match(patterns: Seq<Seq<char>>, path: Seq<char>) -> bool;

/// Relies on globset::Glob::new, GlobSetBuilder and GlobSet::is_match: builds
/// the set of glob patterns and matches the path against it; matching is a
/// pure function of the patterns and the path. `Err` carries the message of a
/// pattern that does not compile.
#[verifier::external_body]
pub(crate) fn glob_set_matches(patterns: &Vec<String>, path: &str) -> (r: Result<bool, String>)
    ensures
        r matches Ok(b) ==> b == glob_match(string_views(patterns@), path@),
{
    let mut builder = globset::GlobSetBuilder::new();
    for pat in patterns.iter() {
        match globset::Glob::new(pat) {
            Ok(g) => {
                builder.add(g);
            },
            Err(e) => {
                return Err(e.to_string());
            },
        }
    }
    match builder.build() {
        Ok(set) => Ok(set.is_match(std::path::Path::new(path))),
        Err(e) => Err(e.to_string()),
    }
}

} // verus!
