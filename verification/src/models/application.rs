//! Application roots: the projects that own classified dependencies.

use vstd::prelude::*;
use crate::models::dependency::Ecosystem;
use crate::models::classification::ClassifiedDependency;

verus! {

/// A project root with the dependencies traced to it.
#[derive(Debug, Clone)]
pub struct Application {
    /// Application name (from its manifest)
    pub name: String,
    /// Absolute path of the application's root directory
    pub root_path: String,
    /// Path of the manifest file, or the root directory when absent
    pub manifest_path: String,
    /// Ecosystem of the manifest that identified the application
    pub ecosystem: Ecosystem,
    /// All dependencies associated with this application
    pub dependencies: Vec<ClassifiedDependency>,
}

impl Application {
    /// Create an application with no dependencies.
    pub fn new(name: String, root_path: String, manifest_path: String, ecosystem: Ecosystem) -> (r:
        Self)
        ensures
            r.name == name,
            r.root_path == root_path,
            r.manifest_path == manifest_path,
            r.ecosystem == ecosystem,
            r.dependencies@ =~= Seq::<ClassifiedDependency>::empty(),
    {
        Self { name, root_path, manifest_path, ecosystem, dependencies: Vec::new() }
    }

    /// Append a dependency.
    pub fn add_dependency(&mut self, dependency: ClassifiedDependency)
        ensures
            final(self).dependencies@ == old(self).dependencies@.push(dependency),
            final(self).name == old(self).name,
            final(self).root_path == old(self).root_path,
            final(self).manifest_path == old(self).manifest_path,
            final(self).ecosystem == old(self).ecosystem,
    {
        self.dependencies.push(dependency);
    }

    /// All dependencies of this application.
    pub fn get_dependencies(&self) -> (r: &Vec<ClassifiedDependency>)
        ensures
            r == &self.dependencies,
    {
        &self.dependencies
    }

    /// The first dependency with the given name.
    pub fn find_dependency(&self, name: &str) -> (r: Option<&ClassifiedDependency>)
        ensures
            match r {
                Some(d) => exists|i: int|
                    0 <= i < self.dependencies@.len() && *d == self.dependencies@[i]
                        && self.dependencies@[i].name@ == name@ && forall|j: int|
                        0 <= j < i ==> self.dependencies@[j].name@ != name@,
                None => forall|j: int|
                    0 <= j < self.dependencies@.len() ==> self.dependencies@[j].name@ != name@,
            },
    {
        let n = self.dependencies.len();
        let mut i: usize = 0;
        loop
            invariant
                i <= n,
                n == self.dependencies@.len(),
                forall|j: int| 0 <= j < i ==> self.dependencies@[j].name@ != name@,
            ensures
                i <= n,
                n == self.dependencies@.len(),
                forall|j: int| 0 <= j < i ==> self.dependencies@[j].name@ != name@,
                i < n ==> self.dependencies@[i as int].name@ == name@,
            decreases n - i,
        {
            if i < n {
                if self.dependencies[i].has_name(name) {
                    break;
                }
                i = i + 1;
            } else {
                break;
            }
        }
        if i < n {
            Some(&self.dependencies[i])
        } else {
            None
        }
    }

    /// Index of the first dependency with the given name, for callers that
    /// want to mutate the entry in place.
    pub fn find_dependency_mut(&self, name: &str) -> (r: Option<usize>)
        ensures
            match r {
                Some(i) => i < self.dependencies@.len() && self.dependencies@[i as int].name@
                    == name@ && forall|j: int|
                    0 <= j < i ==> self.dependencies@[j].name@ != name@,
                None => forall|j: int|
                    0 <= j < self.dependencies@.len() ==> self.dependencies@[j].name@ != name@,
            },
    {
        let n = self.dependencies.len();
        let mut i: usize = 0;
        loop
            invariant
                i <= n,
                n == self.dependencies@.len(),
                forall|j: int| 0 <= j < i ==> self.dependencies@[j].name@ != name@,
            ensures
                i <= n,
                n == self.dependencies@.len(),
                forall|j: int| 0 <= j < i ==> self.dependencies@[j].name@ != name@,
                i < n ==> self.dependencies@[i as int].name@ == name@,
            decreases n - i,
        {
            if i < n {
                if self.dependencies[i].has_name(name) {
                    break;
                }
                i = i + 1;
            } else {
                break;
            }
        }
        if i < n {
            Some(i)
        } else {
            None
        }
    }

    /// Number of dependencies.
    pub fn dependency_count(&self) -> (r: usize)
        ensures
            r == self.dependencies@.len(),
    {
        self.dependencies.len()
    }

    /// Whether a dependency with the given name is present.
    pub fn has_dependency(&self, name: &str) -> (r: bool)
        ensures
            r == exists|i: int|
                0 <= i < self.dependencies@.len() && self.dependencies@[i].name@ == name@,
    {
        match self.find_dependency(name) {
            Some(_) => true,
            None => false,
        }
    }
}

} // verus!
