//! The Has/Should/Can classification lattice and the classified dependency
//! entity it annotates.
//!
//! - **Has**: the package is physically installed on disk.
//! - **Should**: a lockfile pins the package to an exact version.
//! - **Can**: a manifest permits the package within a version range.
//!
//! The order Has < Should < Can is a trust order: evidence of what is
//! installed outranks what is pinned, which outranks what is merely allowed.

use vstd::prelude::*;
use crate::models::dependency::Ecosystem;
use crate::text::str_eq_str;

verus! {

/// Classification of a dependency finding by its source.
#[derive(Debug, Clone, Copy, PartialEq, Eq, Hash, Structural)]
pub enum Classification {
    /// Package is physically installed (node_modules, site-packages, ...)
    Has,
    /// Package version is pinned in a lockfile
    Should,
    /// Package is declared in a manifest with a version range
    Can,
}

/// Priority rank of a classification: lower means more trusted.
pub open spec fn class_rank(c: Classification) -> int {
    match c {
        Classification::Has => 0,
        Classification::Should => 1,
        Classification::Can => 2,
    }
}

impl Classification {
    /// Upper-case label used in textual output.
    pub fn as_str(&self) -> (r: &'static str)
        ensures
            *self == Classification::Has ==> r@ == "HAS"@,
            *self == Classification::Should ==> r@ == "SHOULD"@,
            *self == Classification::Can ==> r@ == "CAN"@,
    {
        match self {
            Classification::Has => "HAS",
            Classification::Should => "SHOULD",
            Classification::Can => "CAN",
        }
    }

    /// Priority rank, lower is more trusted.
    pub fn rank(&self) -> (r: u8)
        ensures
            r as int == class_rank(*self),
    {
        match self {
            Classification::Has => 0,
            Classification::Should => 1,
            Classification::Can => 2,
        }
    }
}

/// The version and source file recorded for one classification.
#[derive(Debug, Clone)]
pub struct ClassEntry {
    /// Version string: exact for Has and Should, a range for Can
    pub version: String,
    /// The file (or installed path) the finding came from
    pub source_file: String,
}

/// A dependency finding with its classifications and derived flags.
#[derive(Debug, Clone)]
pub struct ClassifiedDependency {
    /// Package name
    pub name: String,
    /// Ecosystem the finding belongs to
    pub ecosystem: Ecosystem,
    /// Entry recorded under the Has classification
    pub has_entry: Option<ClassEntry>,
    /// Entry recorded under the Should classification
    pub should_entry: Option<ClassEntry>,
    /// Entry recorded under the Can classification
    pub can_entry: Option<ClassEntry>,
    /// Root directory of the owning application, once linked
    pub application_root: Option<String>,
    /// Name of the owning application, once linked
    pub application_name: Option<String>,
    /// Path the package is installed at, for Has findings
    pub installed_path: Option<String>,
    /// Path that identifies where the finding was made
    pub package_name_path: Option<String>,
    /// Has and Should versions differ
    pub has_version_mismatch: bool,
    /// The Should version falls outside the Can range
    pub has_constraint_violation: bool,
    /// Parent package name, for tree output
    pub parent_package: Option<String>,
    /// Names of this package's direct dependencies
    pub dependencies: Vec<String>,
    /// Security status label, set when an infected-package filter ran
    pub security: Option<String>,
}

impl ClassifiedDependency {
    /// The entry stored under `c`.
    pub open spec fn entry_spec(self, c: Classification) -> Option<ClassEntry> {
        match c {
            Classification::Has => self.has_entry,
            Classification::Should => self.should_entry,
            Classification::Can => self.can_entry,
        }
    }

    /// The classifications present, in priority order.
    pub open spec fn classifications_seq(self) -> Seq<Classification> {
        let h: Seq<Classification> = if self.has_entry is Some {
            seq![Classification::Has]
        } else {
            Seq::empty()
        };
        let s: Seq<Classification> = if self.should_entry is Some {
            seq![Classification::Should]
        } else {
            Seq::empty()
        };
        let c: Seq<Classification> = if self.can_entry is Some {
            seq![Classification::Can]
        } else {
            Seq::empty()
        };
        h + s + c
    }

    /// The most trusted classification present.
    pub open spec fn primary_spec(self) -> Option<Classification> {
        if self.has_entry is Some {
            Some(Classification::Has)
        } else if self.should_entry is Some {
            Some(Classification::Should)
        } else if self.can_entry is Some {
            Some(Classification::Can)
        } else {
            None
        }
    }

    /// The version of the most trusted classification present.
    pub open spec fn primary_version_spec(self) -> Option<Seq<char>> {
        match self.primary_spec() {
            Some(c) => Some(self.entry_spec(c)->Some_0.version@),
            None => None,
        }
    }

    /// Create a finding with no classifications and default flags.
    pub fn new(name: String, ecosystem: Ecosystem) -> (r: Self)
        ensures
            r.name == name,
            r.ecosystem == ecosystem,
            r.has_entry is None,
            r.should_entry is None,
            r.can_entry is None,
            r.application_root is None,
            r.application_name is None,
            r.installed_path is None,
            r.package_name_path is None,
            !r.has_version_mismatch,
            !r.has_constraint_violation,
            r.parent_package is None,
            r.dependencies@ =~= Seq::<String>::empty(),
            r.security is None,
    {
        Self {
            name,
            ecosystem,
            has_entry: None,
            should_entry: None,
            can_entry: None,
            application_root: None,
            application_name: None,
            installed_path: None,
            package_name_path: None,
            has_version_mismatch: false,
            has_constraint_violation: false,
            parent_package: None,
            dependencies: Vec::new(),
            security: None,
        }
    }

    /// Record a version and source file under a classification, replacing any
    /// earlier entry for the same classification.
    pub fn add_classification(
        &mut self,
        classification: Classification,
        version: String,
        source_file: String,
    )
        ensures
            final(self).entry_spec(classification) == Some(
                ClassEntry { version, source_file },
            ),
            final(self).has_entry == (if classification == Classification::Has {
                Some(ClassEntry { version, source_file })
            } else {
                old(self).has_entry
            }),
            final(self).should_entry == (if classification == Classification::Should {
                Some(ClassEntry { version, source_file })
            } else {
                old(self).should_entry
            }),
            final(self).can_entry == (if classification == Classification::Can {
                Some(ClassEntry { version, source_file })
            } else {
                old(self).can_entry
            }),
            final(self).name == old(self).name,
            final(self).ecosystem == old(self).ecosystem,
            final(self).application_root == old(self).application_root,
            final(self).application_name == old(self).application_name,
            final(self).installed_path == old(self).installed_path,
            final(self).package_name_path == old(self).package_name_path,
            final(self).has_version_mismatch == old(self).has_version_mismatch,
            final(self).has_constraint_violation == old(self).has_constraint_violation,
            final(self).parent_package == old(self).parent_package,
            final(self).dependencies == old(self).dependencies,
            final(self).security == old(self).security,
    {
        let entry = ClassEntry { version, source_file };
        match classification {
            Classification::Has => {
                self.has_entry = Some(entry);
            },
            Classification::Should => {
                self.should_entry = Some(entry);
            },
            Classification::Can => {
                self.can_entry = Some(entry);
            },
        }
    }

    /// The version recorded under a classification.
    pub fn get_version(&self, classification: Classification) -> (r: Option<&str>)
        ensures
            match self.entry_spec(classification) {
                Some(e) => r is Some && r->0@ == e.version@,
                None => r is None,
            },
    {
        let entry = match classification {
            Classification::Has => &self.has_entry,
            Classification::Should => &self.should_entry,
            Classification::Can => &self.can_entry,
        };
        match entry {
            Some(e) => Some(e.version.as_str()),
            None => None,
        }
    }

    /// The source file recorded under a classification.
    pub fn get_source_file(&self, classification: Classification) -> (r: Option<&str>)
        ensures
            match self.entry_spec(classification) {
                Some(e) => r is Some && r->0@ == e.source_file@,
                None => r is None,
            },
    {
        let entry = match classification {
            Classification::Has => &self.has_entry,
            Classification::Should => &self.should_entry,
            Classification::Can => &self.can_entry,
        };
        match entry {
            Some(e) => Some(e.source_file.as_str()),
            None => None,
        }
    }

    /// Whether an entry exists under a classification.
    pub fn has_classification(&self, classification: Classification) -> (r: bool)
        ensures
            r == (self.entry_spec(classification) is Some),
    {
        match classification {
            Classification::Has => self.has_entry.is_some(),
            Classification::Should => self.should_entry.is_some(),
            Classification::Can => self.can_entry.is_some(),
        }
    }

    /// All classifications present, in priority order Has, Should, Can.
    pub fn get_classifications(&self) -> (r: Vec<Classification>)
        ensures
            r@ == self.classifications_seq(),
    {
        let mut out: Vec<Classification> = Vec::new();
        if self.has_entry.is_some() {
            out.push(Classification::Has);
        }
        if self.should_entry.is_some() {
            out.push(Classification::Should);
        }
        if self.can_entry.is_some() {
            out.push(Classification::Can);
        }
        proof {
            assert(out@ =~= self.classifications_seq());
        }
        out
    }

    /// The most trusted classification present.
    pub fn primary_classification(&self) -> (r: Option<Classification>)
        ensures
            r == self.primary_spec(),
    {
        if self.has_entry.is_some() {
            Some(Classification::Has)
        } else if self.should_entry.is_some() {
            Some(Classification::Should)
        } else if self.can_entry.is_some() {
            Some(Classification::Can)
        } else {
            None
        }
    }

    /// The version of the most trusted classification present.
    pub fn get_primary_version(&self) -> (r: Option<&str>)
        ensures
            match self.primary_version_spec() {
                Some(v) => r is Some && r->0@ == v,
                None => r is None,
            },
    {
        match self.primary_classification() {
            Some(c) => self.get_version(c),
            None => None,
        }
    }

    /// Whether this finding carries the given name.
    pub fn has_name(&self, name: &str) -> (r: bool)
        ensures
            r == (self.name@ == name@),
    {
        str_eq_str(self.name.as_str(), name)
    }
}

} // verus!
