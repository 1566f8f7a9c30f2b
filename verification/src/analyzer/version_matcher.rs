//! Ecosystem-aware version comparison: exact matching, range satisfaction,
//! and the derived mismatch and constraint-violation checks.

use vstd::prelude::*;
use crate::models::dependency::Ecosystem;
use crate::models::error::ScanError;
use crate::text::{trim_spec, trim_of, str_eq_str};
use crate::version::node_semver;
use crate::version::python_pep440;
use crate::version::rust_semver;

verus! {

/// What `satisfies_range` decides for a version against a range under an
/// ecosystem's grammar: `Some(b)` when defined, `None` on a parse failure.
pub open spec fn satisfies_spec(version: Seq<char>, range: Seq<char>, ecosystem: Ecosystem) -> Option<
    bool,
> {
    match ecosystem {
        Ecosystem::Node => node_semver::node_satisfies_spec(version, range),
        Ecosystem::Python => python_pep440::python_satisfies_spec(version, range),
        Ecosystem::Rust => rust_semver::rust_satisfies_spec(version, range),
    }
}

/// Exact constraints are reflexive: under every ecosystem's grammar, a
/// version always satisfies itself as a range.
pub proof fn lemma_satisfies_reflexive(version: Seq<char>, ecosystem: Ecosystem)
    ensures
        satisfies_spec(version, version, ecosystem) == Some(true),
{
    match ecosystem {
        Ecosystem::Node => {
            assert(node_semver::node_satisfies_spec(version, version) == Some(true));
        },
        Ecosystem::Python => {
            assert(python_pep440::python_satisfies_spec(version, version) == Some(true));
        },
        Ecosystem::Rust => {
            assert(rust_semver::rust_satisfies_spec(version, version) == Some(true));
        },
    }
}

/// Version matcher for comparing versions across ecosystems.
pub struct VersionMatcher;

impl VersionMatcher {
    /// Create a new matcher.
    pub fn new() -> (r: Self) {
        Self
    }

    /// Whether two version strings are equal after trimming whitespace.
    pub fn exact_match(&self, v1: &str, v2: &str) -> (r: bool)
        ensures
            r == (trim_spec(v1@) == trim_spec(v2@)),
    {
        let a = trim_of(v1);
        let b = trim_of(v2);
        str_eq_str(a.as_str(), b.as_str())
    }

    /// Whether `version` satisfies `range` under the ecosystem's grammar;
    /// an error when a version that had to be parsed does not parse.
    pub fn satisfies_range(&self, version: &str, range: &str, ecosystem: Ecosystem) -> (r: Result<
        bool,
        ScanError,
    >)
        ensures
            match satisfies_spec(version@, range@, ecosystem) {
                Some(b) => r == Ok::<bool, ScanError>(b),
                None => r is Err,
            },
    {
        match ecosystem {
            Ecosystem::Node => node_semver::satisfies(version, range),
            Ecosystem::Python => python_pep440::satisfies(version, range),
            Ecosystem::Rust => rust_semver::satisfies(version, range),
        }
    }

    /// Whether the installed (Has) and locked (Should) versions differ.
    pub fn detect_version_mismatch(&self, has_version: &str, should_version: &str) -> (r: bool)
        ensures
            r == (trim_spec(has_version@) != trim_spec(should_version@)),
    {
        !self.exact_match(has_version, should_version)
    }

    /// Whether the locked (Should) version falls outside the manifest's
    /// (Can) range; a parse failure counts as no violation.
    pub fn detect_constraint_violation(
        &self,
        should_version: &str,
        can_range: &str,
        ecosystem: Ecosystem,
    ) -> (r: bool)
        ensures
            r == (satisfies_spec(should_version@, can_range@, ecosystem) == Some(false)),
    {
        match self.satisfies_range(should_version, can_range, ecosystem) {
            Ok(satisfies) => !satisfies,
            Err(_) => false,
        }
    }
}

impl Default for VersionMatcher {
    /// A default matcher is an ordinary matcher.
    fn default() -> (r: Self) {
        Self::new()
    }
}

} // verus!
