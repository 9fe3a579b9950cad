//! Reporting core for a command-line license reporter.
//!
//! Given an already-resolved list of packages (name, optional license
//! identifier, optional license text), this library validates the output-mode
//! flags, groups packages by license, computes found-text statistics, and
//! renders the list in one of five textual forms (full, short, stats, JSON,
//! YAML). All of it is verified; argument parsing, the external license
//! resolver and terminal colouring live outside the library.

pub mod aggregate;
pub mod errors;
pub mod modes;
pub mod parse;
pub mod records;
pub mod render;
pub mod stats;
pub mod text;

pub use records::PackageList;
pub use records::PackageRecord;
