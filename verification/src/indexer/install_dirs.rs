//! Shapes describing discovered installation directories (node_modules,
//! site-packages, virtual environments). The filesystem walk that finds
//! them happens outside the library; these are the values it produces.

use vstd::prelude::*;
use crate::models::dependency::Ecosystem;

verus! {

/// Kind of installation directory.
#[derive(Debug, Clone, Copy, PartialEq, Eq, Structural)]
pub enum InstallDirType {
    /// Node.js `node_modules` directory
    NodeModules,
    /// Python `site-packages` directory
    SitePackages,
    /// Python `dist-packages` directory
    DistPackages,
    /// Python virtual environment
    VirtualEnv,
}

/// A discovered installation directory.
#[derive(Debug, Clone)]
pub struct InstallDir {
    /// Path of the installation directory
    pub path: String,
    /// Kind of installation directory
    pub dir_type: InstallDirType,
    /// Ecosystem the directory belongs to
    pub ecosystem: Ecosystem,
    /// Root of the containing virtual environment, when one was found
    pub venv_root: Option<String>,
}

impl InstallDir {
    /// Create an installation directory record with no virtual-environment
    /// root.
    pub fn new(path: String, dir_type: InstallDirType, ecosystem: Ecosystem) -> (r: Self)
        ensures
            r.path == path,
            r.dir_type == dir_type,
            r.ecosystem == ecosystem,
            r.venv_root is None,
    {
        Self { path, dir_type, ecosystem, venv_root: None }
    }

    /// Record the containing virtual environment's root.
    pub fn with_venv_root(self, venv_root: String) -> (r: Self)
        ensures
            r.path == self.path,
            r.dir_type == self.dir_type,
            r.ecosystem == self.ecosystem,
            r.venv_root == Some(venv_root),
    {
        Self { venv_root: Some(venv_root), ..self }
    }
}

} // verus!
