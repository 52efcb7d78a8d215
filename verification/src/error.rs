//! The error taxonomy of the engine, and the exact text of each error
//! message. Errors carry plain values only; failures coming from outside
//! collaborators are carried as their message strings.

use vstd::prelude::*;

use crate::paths::hint_name_of;
use crate::paths::hint_name;
use crate::text::dec_rep;
use crate::text::str_to_chars;
use crate::text::chars_to_string;
use crate::text::u64_to_string;

verus! {

/// Everything that can go wrong while processing a template.
#[derive(Debug, Clone)]
pub enum TextconError {
    /// A failure reported by the filesystem, as its message.
    Io(String),
    /// The referenced file does not exist (or is not a file).
    FileNotFound { path: String },
    /// The referenced directory does not exist (or is not a directory).
    DirectoryNotFound { path: String },
    /// The reference did not begin with `@`.
    InvalidReference { reference: String },
    /// The template text could not be scanned. Kept for the error
    /// taxonomy's completeness: the verified scanner cannot fail, so this
    /// kind is never produced.
    TemplateParse { position: usize, message: String },
    /// The resolved path escapes the sandbox root.
    PathTraversal { path: String },
    /// A file was larger than the configured ceiling and not forced.
    FileSizeExceeded { path: String, size: u64, max_size: u64 },
    /// An exclusion pattern could not be compiled.
    Pattern(String),
    /// A recursive directory walk failed.
    Walk(String),
}

/// The exact message text of each error.
pub open spec fn message_spec(e: &TextconError) -> Seq<char> {
    match e {
        TextconError::Io(m) => "IO error: "@ + m@,
        TextconError::FileNotFound { path } => "File not found: "@ + path@,
        TextconError::DirectoryNotFound { path } => "Directory not found: "@ + path@,
        TextconError::InvalidReference { reference } => "Invalid reference format: "@
            + reference@,
        TextconError::TemplateParse { position, message } => "Template parsing error at position "@
            + dec_rep(*position as nat) + ": "@ + message@,
        TextconError::PathTraversal { path } => {
            "Path traversal detected (trying to access files outside working directory): "@ + path@
        },
        TextconError::FileSizeExceeded { path, size, max_size } => {
            "File size exceeds limit of "@ + dec_rep(*max_size as nat) + " bytes: "@ + path@ + " ("@
                + dec_rep(*size as nat) + " bytes). Use @!"@ + hint_name_of(path@)
                + " to force inclusion."@
        },
        TextconError::Pattern(m) => "Pattern error: "@ + m@,
        TextconError::Walk(m) => "Directory traversal error: "@ + m@,
    }
}

impl TextconError {
    /// Renders the error as its message text.
    pub fn message(&self) -> (r: String)
        ensures
            r@ == message_spec(self),
    {
        match self {
            TextconError::Io(m) => {
                let mut s = String::new();
                s.append("IO error: ");
                s.append(m.as_str());
                proof {
                    assert(s@ =~= message_spec(self));
                }
                s
            },
            TextconError::FileNotFound { path } => {
                let mut s = String::new();
                s.append("File not found: ");
                s.append(path.as_str());
                proof {
                    assert(s@ =~= message_spec(self));
                }
                s
            },
            TextconError::DirectoryNotFound { path } => {
                let mut s = String::new();
                s.append("Directory not found: ");
                s.append(path.as_str());
                proof {
                    assert(s@ =~= message_spec(self));
                }
                s
            },
            TextconError::InvalidReference { reference } => {
                let mut s = String::new();
                s.append("Invalid reference format: ");
                s.append(reference.as_str());
                proof {
                    assert(s@ =~= message_spec(self));
                }
                s
            },
            TextconError::TemplateParse { position, message } => {
                let mut s = String::new();
                s.append("Template parsing error at position ");
                let pos = u64_to_string(*position as u64);
                s.append(pos.as_str());
                s.append(": ");
                s.append(message.as_str());
                proof {
                    assert(s@ =~= message_spec(self));
                }
                s
            },
            TextconError::PathTraversal { path } => {
                let mut s = String::new();
                s.append(
                    "Path traversal detected (trying to access files outside working directory): ",
                );
                s.append(path.as_str());
                proof {
                    assert(s@ =~= message_spec(self));
                }
                s
            },
            TextconError::FileSizeExceeded { path, size, max_size } => {
                let mut s = String::new();
                s.append("File size exceeds limit of ");
                let max_str = u64_to_string(*max_size);
                s.append(max_str.as_str());
                s.append(" bytes: ");
                s.append(path.as_str());
                s.append(" (");
                let size_str = u64_to_string(*size);
                s.append(size_str.as_str());
                s.append(" bytes). Use @!");
                let pv = str_to_chars(path.as_str());
                let name = hint_name(&pv);
                let name_str = chars_to_string(&name);
                s.append(name_str.as_str());
                s.append(" to force inclusion.");
                proof {
                    assert(s@ =~= message_spec(self));
                }
                s
            },
            TextconError::Pattern(m) => {
                let mut s = String::new();
                s.append("Pattern error: ");
                s.append(m.as_str());
                proof {
                    assert(s@ =~= message_spec(self));
                }
                s
            },
            TextconError::Walk(m) => {
                let mut s = String::new();
                s.append("Directory traversal error: ");
                s.append(m.as_str());
                proof {
                    assert(s@ =~= message_spec(self));
                }
                s
            },
        }
    }
}

} // verus!
