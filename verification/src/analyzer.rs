//! The analysis engine: version matching, classification, application
//! linking, tree building, and infected-package filtering.

pub mod version_matcher;

pub mod classifier;

pub mod app_linker;

pub mod tree_builder;

pub mod vuln_filter;
