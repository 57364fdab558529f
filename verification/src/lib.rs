//! Verified core of a ZIP extractor.
//!
//! The library plans the extraction of an archive: it sanitizes entry
//! names against path traversal, decides for each entry whether a
//! directory is created or a file is written, and renders the
//! informational output lines.  Reading the archive itself is delegated
//! to the `zip` crate behind a small trusted boundary; performing the
//! filesystem writes is left to the (unverified) binary around the
//! library.

pub mod archive;
pub mod cli;
pub mod plan;
pub mod render;
pub mod sanitize;

pub use archive::{extract_archive, open_archive, ExtractError};
pub use cli::{cli_action, CliAction};
pub use plan::{plan_entry, EntryOutcome, FsOp, RawEntry};
pub use render::u64_to_dec;
pub use sanitize::sanitize_name;
