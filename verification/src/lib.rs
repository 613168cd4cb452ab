//! A platform-normalized path value type.
//!
//! Textual path fragments may mix `/` and `\` separators, carry a leading
//! "false root", or contain `..` traversal segments.  Parsing such a fragment
//! yields an [`OsPath`]: a canonical sequence of non-empty segments together
//! with an absolute flag and a directory flag.  Joining two paths never lets
//! the added fragment's leading separator discard the base path, and `..`
//! traversal is collapsed eagerly on merge and on request via `resolve`.

pub mod laws;
pub mod model;
mod native;
pub mod path;

pub use model::PathModel;
pub use path::OsPath;
