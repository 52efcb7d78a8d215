//! The sandboxed path resolver: turns a reference string into a canonical
//! path and enforces that the result never leaves the sandbox root. The
//! security boundary is the verified containment check performed on whatever
//! the filesystem's canonicalization returned.

use vstd::prelude::*;

use crate::error::TextconError;
use crate::fsio::canonicalize_path;
use crate::paths::clean_reference;
use crate::paths::join_path;
use crate::paths::split_parent;
use crate::paths::trim_dot_tails_exec;
use crate::paths::path_within;
use crate::paths::is_path_within;
use crate::text::str_to_chars;
use crate::text::chars_to_string;

verus! {

/// Resolves a reference against the sandbox root, which the configuration's
/// invariant declares an existing canonical directory.
///
/// The reference's `@`/`!` markers and leading separators are stripped; an
/// empty or `.` remainder names the root itself. The joined path is
/// canonicalized; when the target does not exist, the nearest existing
/// ancestor is canonicalized and the missing tail components re-appended
/// (`.` segments dropped, `..` segments stepping back), so that missing
/// files still resolve. The sandbox law: a path is returned only when it
/// lies within `base`, whatever canonicalization returned, and a result
/// outside `base` is rejected as `PathTraversal`.
pub fn resolve_in_canonical(base: &str, reference: &str) -> (r: Result<String, TextconError>)
    ensures
        r matches Ok(p) ==> path_within(p@, base@),
        r matches Err(e) ==> match e {
            TextconError::PathTraversal { path } => !path_within(path@, base@),
            TextconError::Io(_) => true,
            _ => false,
        },
{
    let rv = str_to_chars(reference);
    let cleaned = clean_reference(&rv);
    let rel: Vec<char> = if cleaned.len() == 0 || (cleaned.len() == 1 && cleaned[0] == '.') {
        let mut d: Vec<char> = Vec::new();
        d.push('.');
        d
    } else {
        cleaned
    };
    let bv = str_to_chars(base);
    let full = join_path(&bv, &rel);
    let full_str = chars_to_string(&full);
    let cand: String = match canonicalize_path(full_str.as_str()) {
        Ok(c) => c,
        Err(_) => {
            let mut prefix: Vec<char> = full;
            let mut tail: Vec<Vec<char>> = Vec::new();
            let mut ancestor: Option<String> = None;
            while ancestor.is_none()
                decreases (if ancestor is Some {
                    0int
                } else {
                    1int
                }), prefix@.len(),
            {
                let trimmed = trim_dot_tails_exec(&prefix);
                proof {
                    crate::paths::lemma_trim_dot_tails_len(prefix@);
                }
                match split_parent(&trimmed) {
                    None => {
                        return Err(TextconError::Io(String::from_str("Invalid path")));
                    },
                    Some((parent, name)) => {
                        proof {
                            crate::paths::lemma_parent_shorter(trimmed@);
                        }
                        tail.push(name);
                        let parent_str = chars_to_string(&parent);
                        match canonicalize_path(parent_str.as_str()) {
                            Ok(c) => {
                                ancestor = Some(c);
                            },
                            Err(_) => {
                                prefix = parent;
                            },
                        }
                    },
                }
            }
            let found = match ancestor {
                Some(c) => c,
                None => {
                    return Err(TextconError::Io(String::from_str("Invalid path")));
                },
            };
            let mut cand_chars = str_to_chars(found.as_str());
            let mut k: usize = tail.len();
            while k > 0
                invariant
                    k <= tail@.len(),
                decreases k,
            {
                k = k - 1;
                let name = &tail[k];
                let is_dot = name.len() == 1 && name[0] == '.';
                let is_dotdot = name.len() == 2 && name[0] == '.' && name[1] == '.';
                if is_dotdot {
                    match split_parent(&cand_chars) {
                        Some(pn) => {
                            cand_chars = pn.0;
                        },
                        None => {},
                    }
                } else if !is_dot && name.len() > 0 {
                    cand_chars = join_path(&cand_chars, name);
                }
            }
            chars_to_string(&cand_chars)
        },
    };
    let cv = str_to_chars(cand.as_str());
    if is_path_within(&cv, &bv) {
        Ok(cand)
    } else {
        Err(TextconError::PathTraversal { path: cand })
    }
}

/// Resolves a reference path relative to the sandbox root `base_dir`, which
/// the configuration's invariant declares canonical; the result never
/// escapes it.
pub fn resolve_reference_path(reference: &str, base_dir: &str) -> (r: Result<String, TextconError>)
    ensures
        r matches Ok(p) ==> path_within(p@, base_dir@),
        r matches Err(e) ==> match e {
            TextconError::PathTraversal { path } => !path_within(path@, base_dir@),
            TextconError::Io(_) => true,
            _ => false,
        },
{
    resolve_in_canonical(base_dir, reference)
}

} // verus!
