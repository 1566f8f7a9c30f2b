//! Ecosystem-specific version grammars.

pub mod triple;

pub mod node_semver;

pub mod python_pep440;

pub mod rust_semver;
