//! Basic dependency record shapes shared by every pipeline stage.

use vstd::prelude::*;

verus! {

/// Package ecosystem: decides which version grammar and which manifest and
/// lockfile filenames apply.
#[derive(Debug, Clone, Copy, PartialEq, Eq, Hash, Structural)]
pub enum Ecosystem {
    /// Node.js (npm, yarn, pnpm)
    Node,
    /// Python (pip, poetry, uv)
    Python,
    /// Rust (cargo)
    Rust,
}

impl Ecosystem {
    /// Lower-case label used in textual output.
    pub fn as_str(&self) -> (r: &'static str)
        ensures
            *self == Ecosystem::Node ==> r@ == "node"@,
            *self == Ecosystem::Python ==> r@ == "python"@,
            *self == Ecosystem::Rust ==> r@ == "rust"@,
    {
        match self {
            Ecosystem::Node => "node",
            Ecosystem::Python => "python",
            Ecosystem::Rust => "rust",
        }
    }
}

/// How a dependency is declared in its source file.
#[derive(Debug, Clone, Copy, PartialEq, Eq, Hash, Structural)]
pub enum DependencyType {
    /// Runtime/production dependency
    Runtime,
    /// Development dependency
    Development,
    /// Peer dependency
    Peer,
    /// Optional dependency
    Optional,
    /// Build dependency
    Build,
}

impl DependencyType {
    /// Lower-case label used in textual output.
    pub fn as_str(&self) -> (r: &'static str)
        ensures
            *self == DependencyType::Runtime ==> r@ == "runtime"@,
            *self == DependencyType::Development ==> r@ == "development"@,
            *self == DependencyType::Peer ==> r@ == "peer"@,
            *self == DependencyType::Optional ==> r@ == "optional"@,
            *self == DependencyType::Build ==> r@ == "build"@,
    {
        match self {
            DependencyType::Runtime => "runtime",
            DependencyType::Development => "development",
            DependencyType::Peer => "peer",
            DependencyType::Optional => "optional",
            DependencyType::Build => "build",
        }
    }
}

/// Whether a record came from a manifest (declared range) or a lockfile
/// (pinned version).
#[derive(Debug, Clone, Copy, PartialEq, Eq, Hash, Structural)]
pub enum FileType {
    /// Manifest file (declared dependencies)
    Manifest,
    /// Lockfile (resolved/pinned versions)
    Lockfile,
}

impl FileType {
    /// Lower-case label used in textual output.
    pub fn as_str(&self) -> (r: &'static str)
        ensures
            *self == FileType::Manifest ==> r@ == "manifest"@,
            *self == FileType::Lockfile ==> r@ == "lockfile"@,
    {
        match self {
            FileType::Manifest => "manifest",
            FileType::Lockfile => "lockfile",
        }
    }
}

/// One dependency finding extracted from a manifest or lockfile.
#[derive(Debug, Clone)]
pub struct DependencyRecord {
    /// Package name
    pub name: String,
    /// Version specification (range for manifests, exact for lockfiles)
    pub version: String,
    /// Path of the file the record was read from
    pub source_file: String,
    /// Kind of dependency declaration
    pub dep_type: DependencyType,
    /// Ecosystem the record belongs to
    pub ecosystem: Ecosystem,
    /// Whether the file was a manifest or a lockfile
    pub file_type: FileType,
}

} // verus!
