//! Text parsers for the formats the library reads directly: Python package
//! metadata and requirements files. The parsers work on file contents the
//! caller has already read.

pub mod metadata;

pub mod site_packages;

pub mod requirements_txt;
