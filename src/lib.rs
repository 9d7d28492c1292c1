//! Guarded file commands for a note-taking application.
//!
//! Every note command takes untrusted paths and names from the user
//! interface and must stay within the working folder the user chose. The
//! library decides each command from what the file system reported about
//! the paths involved: `validate` judges names and locations, `notes` and
//! `fonts` decide what each command does and returns, and `path` models how a
//! Unix path is read.

pub mod error;
pub mod fonts;
pub mod notes;
pub mod path;
pub mod text;
pub mod validate;

pub use error::CommandError;
pub use fonts::InstalledFont;
pub use notes::{get_file_times, MemoFile, MemoMeta};
pub use validate::{is_markdown_file, is_safe_filename, is_within_folder};
