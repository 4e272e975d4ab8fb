//! AUR Security Scanner Core Library
//!
//! Provides security analysis capabilities for Arch Linux AUR packages.
//! Detects malicious patterns in PKGBUILDs and install scripts.

pub mod analyzer;
pub mod aur;
pub mod deobfuscate;
pub mod digest;
pub mod error;
pub mod findings;
pub mod install;
pub mod laws;
pub mod metadata;
pub mod overlay;
pub mod parser;
pub mod patterns;
pub mod provenance;
pub mod rules;
pub mod scanner;
pub mod table;
pub mod text;
pub mod threat_intel;
pub mod types;

pub use error::{IoError, IoKind, ScanError};
pub use install::{expand_pkg_vars, resolve_install_path};
pub use metadata::{extract_maintainer_id, track_variable_assignments, var_assign};
pub use scanner::{Scanner, MAX_SCAN_FILE_BYTES};
pub use types::{
    AnalysisContext, Category, Entry, Finding, Location, ScanConfig, ScanResult, Severity, Value,
};

use vstd::prelude::*;

verus! {

/// Library version.
pub const VERSION: &'static str = "0.1.0";

} // verus!
