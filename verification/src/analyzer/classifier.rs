//! Classifier: turns raw findings into classified entities, one entity per
//! finding.
//!
//! Every installed package yields one Has entity; every declared record
//! yields one Should entity (lockfile) or Can entity (manifest). No merging
//! is performed: the same package found twice stays two entities, which
//! keeps every install location of a compromised package visible.

use vstd::prelude::*;
use crate::models::classification::{ClassEntry, Classification, ClassifiedDependency};
use crate::models::dependency::{DependencyRecord, FileType};
use crate::models::installed_package::InstalledPackage;

verus! {

/// The entity that `classify` emits for an installed package: a Has
/// classification carrying the installed version and path, the installed
/// path recorded, and the package's declared dependency names copied over.
pub open spec fn is_installed_entity(d: ClassifiedDependency, pkg: InstalledPackage) -> bool {
    &&& d.name == pkg.name
    &&& d.ecosystem == pkg.ecosystem
    &&& d.has_entry == Some(ClassEntry { version: pkg.version, source_file: pkg.path })
    &&& d.should_entry is None
    &&& d.can_entry is None
    &&& d.installed_path == Some(pkg.path)
    &&& d.package_name_path == Some(pkg.path)
    &&& d.application_root is None
    &&& d.application_name is None
    &&& !d.has_version_mismatch
    &&& !d.has_constraint_violation
    &&& d.parent_package is None
    &&& d.security is None
    &&& d.dependencies@.len() == pkg.dependencies@.len()
    &&& forall|k: int|
        0 <= k < pkg.dependencies@.len() ==> d.dependencies@[k]@ == pkg.dependencies@[k].name@
}

/// The entity that `classify` emits for a declared record: a Should entity
/// for a lockfile record, a Can entity for a manifest record, with the
/// declaring file as source.
pub open spec fn is_record_entity(d: ClassifiedDependency, rec: DependencyRecord) -> bool {
    &&& d.name == rec.name
    &&& d.ecosystem == rec.ecosystem
    &&& d.package_name_path == Some(rec.source_file)
    &&& (match rec.file_type {
        FileType::Lockfile => d.should_entry == Some(
            ClassEntry { version: rec.version, source_file: rec.source_file },
        ) && d.has_entry is None && d.can_entry is None,
        FileType::Manifest => d.can_entry == Some(
            ClassEntry { version: rec.version, source_file: rec.source_file },
        ) && d.has_entry is None && d.should_entry is None,
    })
    &&& d.installed_path is None
    &&& d.application_root is None
    &&& d.application_name is None
    &&& !d.has_version_mismatch
    &&& !d.has_constraint_violation
    &&& d.parent_package is None
    &&& d.security is None
    &&& d.dependencies@.len() == 0
}

/// An entity emitted for an installed package carries only the Has
/// classification, and its primary version is exactly the installed
/// version.
pub proof fn lemma_installed_primary_version(d: ClassifiedDependency, pkg: InstalledPackage)
    requires
        is_installed_entity(d, pkg),
    ensures
        d.primary_spec() == Some(Classification::Has),
        d.primary_version_spec() == Some(pkg.version@),
{
}

/// Classifier for assigning Has/Should/Can classifications.
pub struct Classifier;

impl Classifier {
    /// Create a new classifier.
    pub fn new() -> (r: Self) {
        Self
    }

    /// Classify raw findings: one entity per installed package, then one
    /// entity per declared record, in input order.
    pub fn classify(
        &self,
        records: Vec<DependencyRecord>,
        installed: Vec<InstalledPackage>,
    ) -> (r: Vec<ClassifiedDependency>)
        ensures
            r@.len() == installed@.len() + records@.len(),
            forall|i: int|
                #![trigger r@[i]]
                0 <= i < installed@.len() ==> is_installed_entity(r@[i], installed@[i]),
            forall|i: int|
                #![trigger records@[i]]
                0 <= i < records@.len() ==> is_record_entity(
                    r@[installed@.len() + i],
                    records@[i],
                ),
    {
        let mut results: Vec<ClassifiedDependency> = Vec::new();
        let ni = installed.len();
        let mut i: usize = 0;
        while i < ni
            invariant
                i <= ni,
                ni == installed@.len(),
                results@.len() == i,
                forall|k: int|
                    #![trigger results@[k]]
                    0 <= k < i ==> is_installed_entity(results@[k], installed@[k]),
            decreases ni - i,
        {
            let pkg = &installed[i];
            let mut dep = ClassifiedDependency::new(pkg.name.clone(), pkg.ecosystem);
            dep.add_classification(Classification::Has, pkg.version.clone(), pkg.path.clone());
            dep.installed_path = Some(pkg.path.clone());
            dep.package_name_path = Some(pkg.path.clone());
            let nd = pkg.dependencies.len();
            let mut k: usize = 0;
            while k < nd
                invariant
                    k <= nd,
                    nd == pkg.dependencies@.len(),
                    dep.dependencies@.len() == k,
                    forall|m: int|
                        0 <= m < k ==> dep.dependencies@[m]@ == pkg.dependencies@[m].name@,
                    dep.name == pkg.name,
                    dep.ecosystem == pkg.ecosystem,
                    dep.has_entry == Some(
                        ClassEntry { version: pkg.version, source_file: pkg.path },
                    ),
                    dep.should_entry is None,
                    dep.can_entry is None,
                    dep.installed_path == Some(pkg.path),
                    dep.package_name_path == Some(pkg.path),
                    dep.application_root is None,
                    dep.application_name is None,
                    !dep.has_version_mismatch,
                    !dep.has_constraint_violation,
                    dep.parent_package is None,
                    dep.security is None,
                decreases nd - k,
            {
                dep.dependencies.push(pkg.dependencies[k].name.clone());
                k = k + 1;
            }
            results.push(dep);
            i = i + 1;
        }
        let nr = records.len();
        let mut j: usize = 0;
        while j < nr
            invariant
                j <= nr,
                nr == records@.len(),
                ni == installed@.len(),
                results@.len() == ni + j,
                forall|k: int|
                    #![trigger results@[k]]
                    0 <= k < ni ==> is_installed_entity(results@[k], installed@[k]),
                forall|k: int|
                    #![trigger records@[k]]
                    0 <= k < j ==> is_record_entity(results@[ni + k], records@[k]),
            decreases nr - j,
        {
            let record = &records[j];
            let mut dep = ClassifiedDependency::new(record.name.clone(), record.ecosystem);
            dep.package_name_path = Some(record.source_file.clone());
            match record.file_type {
                FileType::Lockfile => {
                    dep.add_classification(
                        Classification::Should,
                        record.version.clone(),
                        record.source_file.clone(),
                    );
                },
                FileType::Manifest => {
                    dep.add_classification(
                        Classification::Can,
                        record.version.clone(),
                        record.source_file.clone(),
                    );
                },
            }
            results.push(dep);
            j = j + 1;
        }
        results
    }
}

impl Default for Classifier {
    /// A default classifier is an ordinary classifier.
    fn default() -> (r: Self) {
        Self::new()
    }
}

} // verus!
