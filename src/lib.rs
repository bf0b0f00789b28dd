//! Checks that a directory tree conforms to a declarative config:
//! files and folders that must or must not exist, file lengths, patterns
//! that a file's text must match, and the shape of structured (JSON, YAML,
//! TOML) files, given as an example value whose inferred schema the file's
//! value must satisfy. Configs may include further documents, which
//! resolve into one flat list of check items.
//!
//! The library decides; it does no I/O. The filesystem is seen through a
//! [`Snapshot`] of observations, and included documents through the
//! [`Fetched`] documents: a check or a resolution that lacks one names it.
pub mod items;
pub mod pattern;
pub mod resolve;
pub mod tree;
pub mod validate;
pub mod value;

pub use items::{check_items, CheckItem, FileCheck};
pub use pattern::{Pattern, PatternError};
pub use resolve::{Config, Fetched, ResolveError};
pub use tree::{
    check_tree, join_path, CheckError, Entry, FileContents, FileFormat, FileSpec, FilesAndFolders,
    Problem, Snapshot,
};
pub use validate::{infer, ValueProblem, ValueValidator};
pub use value::{copy_value, values_equal, JsonType, Number, Value};
