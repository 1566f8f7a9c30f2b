//! Multi-ecosystem dependency audit engine.
//!
//! The library classifies findings about installed and declared packages
//! into a Has/Should/Can lattice, checks version-range satisfaction for the
//! Node, Python and Rust version grammars, links installed packages to the
//! applications that own them, reconstructs dependency trees, and flags
//! packages that appear on a known-bad list.

pub mod text;

pub mod seq_util;

pub mod models;

pub mod version;

pub mod analyzer;

pub mod indexer;

pub mod parsers;
