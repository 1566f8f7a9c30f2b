//! Installed-package shapes produced by the filesystem scanning layer.

use vstd::prelude::*;
use crate::models::dependency::Ecosystem;
use crate::text::str_eq_str;

verus! {

/// A dependency declared by an installed package: a name and a version
/// constraint.
#[derive(Debug, Clone)]
pub struct DependencySpec {
    /// Dependency package name
    pub name: String,
    /// Version constraint (for example `^1.0.0`, `>=2.0.0`, `*`)
    pub version_constraint: String,
}

impl DependencySpec {
    /// Create a dependency specification.
    pub fn new(name: String, version_constraint: String) -> (r: Self)
        ensures
            r.name == name,
            r.version_constraint == version_constraint,
    {
        Self { name, version_constraint }
    }
}

/// A package found installed in the filesystem.
#[derive(Debug, Clone)]
pub struct InstalledPackage {
    /// Package name
    pub name: String,
    /// Installed version
    pub version: String,
    /// Installation path (for example `/app/node_modules/react`)
    pub path: String,
    /// Ecosystem the package belongs to
    pub ecosystem: Ecosystem,
    /// Direct dependencies declared by this package
    pub dependencies: Vec<DependencySpec>,
}

impl InstalledPackage {
    /// Create an installed package with no dependencies.
    pub fn new(name: String, version: String, path: String, ecosystem: Ecosystem) -> (r: Self)
        ensures
            r.name == name,
            r.version == version,
            r.path == path,
            r.ecosystem == ecosystem,
            r.dependencies@ =~= Seq::<DependencySpec>::empty(),
    {
        Self { name, version, path, ecosystem, dependencies: Vec::new() }
    }

    /// Append a declared dependency.
    pub fn add_dependency(&mut self, name: String, version_constraint: String)
        ensures
            final(self).dependencies@ == old(self).dependencies@.push(
                DependencySpec { name, version_constraint },
            ),
            final(self).name == old(self).name,
            final(self).version == old(self).version,
            final(self).path == old(self).path,
            final(self).ecosystem == old(self).ecosystem,
    {
        self.dependencies.push(DependencySpec::new(name, version_constraint));
    }

    /// The declared dependencies.
    pub fn get_dependencies(&self) -> (r: &Vec<DependencySpec>)
        ensures
            r == &self.dependencies,
    {
        &self.dependencies
    }

    /// Whether a dependency with the given name is declared.
    pub fn has_dependency(&self, name: &str) -> (r: bool)
        ensures
            r == exists|i: int|
                0 <= i < self.dependencies@.len() && self.dependencies@[i].name@ == name@,
    {
        let n = self.dependencies.len();
        let mut i: usize = 0;
        loop
            invariant
                i <= n,
                n == self.dependencies@.len(),
                forall|j: int| 0 <= j < i ==> self.dependencies@[j].name@ != name@,
            ensures
                i <= n,
                n == self.dependencies@.len(),
                forall|j: int| 0 <= j < i ==> self.dependencies@[j].name@ != name@,
                i < n ==> self.dependencies@[i as int].name@ == name@,
            decreases n - i,
        {
            if i < n {
                if str_eq_str(self.dependencies[i].name.as_str(), name) {
                    break;
                }
                i = i + 1;
            } else {
                break;
            }
        }
        i < n
    }

    /// The first declared dependency with the given name.
    pub fn find_dependency(&self, name: &str) -> (r: Option<&DependencySpec>)
        ensures
            match r {
                Some(d) => exists|i: int|
                    0 <= i < self.dependencies@.len() && *d == self.dependencies@[i]
                        && self.dependencies@[i].name@ == name@ && forall|j: int|
                        0 <= j < i ==> self.dependencies@[j].name@ != name@,
                None => forall|j: int|
                    0 <= j < self.dependencies@.len() ==> self.dependencies@[j].name@ != name@,
            },
    {
        let n = self.dependencies.len();
        let mut i: usize = 0;
        loop
            invariant
                i <= n,
                n == self.dependencies@.len(),
                forall|j: int| 0 <= j < i ==> self.dependencies@[j].name@ != name@,
            ensures
                i <= n,
                n == self.dependencies@.len(),
                forall|j: int| 0 <= j < i ==> self.dependencies@[j].name@ != name@,
                i < n ==> self.dependencies@[i as int].name@ == name@,
            decreases n - i,
        {
            if i < n {
                if str_eq_str(self.dependencies[i].name.as_str(), name) {
                    break;
                }
                i = i + 1;
            } else {
                break;
            }
        }
        if i < n {
            Some(&self.dependencies[i])
        } else {
            None
        }
    }
}

} // verus!
