//! Classification of files by name into ecosystem and file type.

use vstd::prelude::*;
use crate::models::dependency::{Ecosystem, FileType};
use crate::text::str_eq_str;

verus! {

/// A discovered package-management file.
#[derive(Debug, Clone)]
pub struct DiscoveredFile {
    /// Absolute path of the file
    pub path: String,
    /// File name (for example `package.json`)
    pub filename: String,
    /// Parent directory path
    pub directory: String,
    /// Detected ecosystem
    pub ecosystem: Ecosystem,
    /// File type classification
    pub file_type: FileType,
}

/// The ecosystem and file type a recognized filename stands for.
pub open spec fn classify_file_spec(filename: Seq<char>) -> Option<(Ecosystem, FileType)> {
    if filename == "package.json"@ {
        Some((Ecosystem::Node, FileType::Manifest))
    } else if filename == "yarn.lock"@ || filename == "package-lock.json"@ || filename
        == "pnpm-lock.yaml"@ || filename == "bun.lock"@ || filename == "npm-shrinkwrap.json"@ {
        Some((Ecosystem::Node, FileType::Lockfile))
    } else if filename == "pyproject.toml"@ || filename == "requirements.txt"@ || filename
        == "Pipfile"@ || filename == "environment.yml"@ {
        Some((Ecosystem::Python, FileType::Manifest))
    } else if filename == "poetry.lock"@ || filename == "uv.lock"@ || filename == "Pipfile.lock"@ {
        Some((Ecosystem::Python, FileType::Lockfile))
    } else if filename == "Cargo.toml"@ {
        Some((Ecosystem::Rust, FileType::Manifest))
    } else if filename == "Cargo.lock"@ {
        Some((Ecosystem::Rust, FileType::Lockfile))
    } else {
        None
    }
}

/// Classify a file by its name into its ecosystem and file type.
pub fn classify_file(filename: &str) -> (r: Option<(Ecosystem, FileType)>)
    ensures
        r == classify_file_spec(filename@),
{
    if str_eq_str(filename, "package.json") {
        Some((Ecosystem::Node, FileType::Manifest))
    } else if str_eq_str(filename, "yarn.lock") || str_eq_str(filename, "package-lock.json")
        || str_eq_str(filename, "pnpm-lock.yaml") || str_eq_str(filename, "bun.lock")
        || str_eq_str(filename, "npm-shrinkwrap.json") {
        Some((Ecosystem::Node, FileType::Lockfile))
    } else if str_eq_str(filename, "pyproject.toml") || str_eq_str(filename, "requirements.txt")
        || str_eq_str(filename, "Pipfile") || str_eq_str(filename, "environment.yml") {
        Some((Ecosystem::Python, FileType::Manifest))
    } else if str_eq_str(filename, "poetry.lock") || str_eq_str(filename, "uv.lock") || str_eq_str(
        filename,
        "Pipfile.lock",
    ) {
        Some((Ecosystem::Python, FileType::Lockfile))
    } else if str_eq_str(filename, "Cargo.toml") {
        Some((Ecosystem::Rust, FileType::Manifest))
    } else if str_eq_str(filename, "Cargo.lock") {
        Some((Ecosystem::Rust, FileType::Lockfile))
    } else {
        None
    }
}

} // verus!
