//! Riku: semantic version control for chip design files.
//!
//! Xschem schematics are read into components, wires and nets; two versions
//! are compared component by component; the comparison is reported per file
//! (counts, details, categories) for `diff`, `log` and `status`, and as text
//! for the command line.
//!
//! - [`parser`], [`attrs`], [`coord`]: reading `.sch` text.
//! - [`semantic_diff`], [`driver`], [`xschem_driver`]: the comparison and the
//!   driver report it becomes.
//! - [`summary`], [`pipeline`], [`status`], [`diff_view`], [`marks`]:
//!   per-file views.
//! - [`git_types`]: the repository port and its blob-reading policies.
//! - [`format`], [`status_text`], [`doctor`], [`shell`], [`semantic_log`]:
//!   command line text.
//! - [`text`], [`textmap`], [`models`]: shared helpers and data.

pub mod text;
pub mod textmap;
pub mod attrs;
pub mod models;
pub mod parser;
pub mod coord;
pub mod semantic_diff;
pub mod driver;
pub mod xschem_driver;
pub mod summary;
pub mod git_types;
pub mod pipeline;
pub mod status;
pub mod semantic_log;
pub mod format;
pub mod status_text;
pub mod diff_view;
pub mod marks;
pub mod shell;
pub mod doctor;
