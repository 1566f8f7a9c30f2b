//! Identification of package-management files and installation directories.

pub mod file_types;

pub mod install_dirs;
