//! Template processing library for expanding file and directory references
//! embedded in text, producing a single flattened document.
//!
//! Templates contain reference tokens such as `{{ @file.txt }}` (include file
//! contents, size-gated), `{{ @!file.txt }}` (force inclusion), `{{ @dir/ }}`
//! (directory tree) and `{{ @!dir/ }}` (tree plus every contained file).
//! References are resolved inside a sandbox root and may never escape it.

pub mod error;
pub mod exclude;
pub mod format;
pub mod fsio;
pub mod paths;
pub mod resolve;
pub mod scanner;
pub mod store;
pub mod template;
pub mod text;
pub mod tree;

pub use error::TextconError;
pub use scanner::TemplateReference;
pub use scanner::find_references;
pub use store::FileStore;
pub use format::format_as_markdown;
pub use format::format_as_html;
pub use template::MAX_FILE_SIZE;
pub use template::TemplateConfig;
pub use template::read_file_contents;
pub use template::process_file_reference;
pub use template::process_directory_reference;
pub use template::process_directory_deep;
pub use template::process_reference;
pub use template::process_template;
pub use template::process_template_file;
pub use template::stitch_replacements;
pub use template::not_found_error;
pub use tree::TreeNode;
pub use tree::generate_directory_tree;
pub use tree::filter_tree_entries;
pub use tree::build_tree_from_paths;
pub use tree::print_tree;
pub use resolve::resolve_reference_path;
pub use resolve::resolve_in_canonical;
pub use text::u64_to_string;
