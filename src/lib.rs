//! Audits installed packages for binaries whose shared-library requirements
//! cannot be satisfied, and folds the findings into per-file, per-library and
//! per-providing-package indexes.
pub mod cli;
pub mod cmd;
pub mod data;
pub mod output;
pub mod process;
pub mod text;
