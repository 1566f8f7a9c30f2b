//! Core data models: ecosystems, classifications, dependency records,
//! classified entities, applications and dependency trees.

pub mod dependency;

pub mod error;

pub mod classification;

pub mod installed_package;

pub mod application;

pub mod dependency_tree;

pub mod scan_result;
