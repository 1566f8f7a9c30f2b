//! Parser for Python packages installed under `site-packages`: turns the
//! metadata file of a `.dist-info` or `.egg-info` entry into an installed
//! package record. The directory listing and file reads happen outside the
//! library; these functions take the metadata file's content and the
//! entry's path.

use vstd::prelude::*;
use crate::analyzer::app_linker::parent_spec;
use crate::analyzer::app_linker::parent_of;
use crate::models::error::ScanError;
use crate::models::dependency::Ecosystem;
use crate::models::installed_package::InstalledPackage;
use crate::parsers::metadata::{
    dist_deps, last_field, metadata_ok, parse_metadata, parse_pkg_info, pkg_info_deps,
};
use crate::text::lines_spec;

verus! {

/// The install path recorded for a package: its name under the parent of
/// the metadata entry.
pub open spec fn join_spec(parent: Seq<char>, name: Seq<char>) -> Seq<char> {
    if parent == seq!['/'] {
        parent + name
    } else {
        parent + seq!['/'] + name
    }
}

/// What an installed-package result must hold for a metadata entry: the
/// parsed name and version, the joined install path, the Python ecosystem,
/// and the parsed dependency pairs.
pub open spec fn installed_ok(
    p: InstalledPackage,
    lines: Seq<Seq<char>>,
    deps: Seq<(Seq<char>, Seq<char>)>,
    entry_path: Seq<char>,
) -> bool {
    &&& last_field(lines, "Name:"@) == Option::Some(p.name@)
    &&& last_field(lines, "Version:"@) == Option::Some(p.version@)
    &&& parent_spec(entry_path) is Some
    &&& p.path@ == join_spec(parent_spec(entry_path)->0, p.name@)
    &&& p.ecosystem == Ecosystem::Python
    &&& p.dependencies@.len() == deps.len()
    &&& forall|k: int|
        #![trigger p.dependencies@[k]]
        0 <= k < deps.len() ==> p.dependencies@[k].name@ == deps[k].0
            && p.dependencies@[k].version_constraint@ == deps[k].1
}

/// Join a parent directory and an entry name into a path.
fn join_path(parent: &str, name: &str) -> (r: String)
    ensures
        r@ == join_spec(parent@, name@),
{
    let pn = parent.unicode_len();
    if pn == 1 && parent.get_char(0) == '/' {
        proof {
            assert(parent@ =~= seq!['/']);
        }
        parent.to_owned().concat(name)
    } else {
        proof {
            if parent@ == seq!['/'] {
                assert(parent@.len() == 1);
                assert(parent@[0] == '/');
            }
            reveal_strlit("/");
            assert("/"@ =~= seq!['/']);
        }
        parent.to_owned().concat("/").concat(name)
    }
}

/// Build the installed package for parsed metadata and an entry path.
fn package_from_metadata(
    md: crate::parsers::metadata::PythonMetadata,
    entry_path: &str,
) -> (r: Result<InstalledPackage, ScanError>)
    ensures
        match r {
            Ok(p) => {
                &&& parent_spec(entry_path@) is Some
                &&& p.name == md.name
                &&& p.version == md.version
                &&& p.path@ == join_spec(parent_spec(entry_path@)->0, md.name@)
                &&& p.ecosystem == Ecosystem::Python
                &&& p.dependencies@.len() == md.dependencies@.len()
                &&& forall|k: int|
                    #![trigger p.dependencies@[k]]
                    0 <= k < md.dependencies@.len() ==> p.dependencies@[k].name
                        == md.dependencies@[k].0 && p.dependencies@[k].version_constraint
                        == md.dependencies@[k].1
            },
            Err(e) => parent_spec(entry_path@) is None && e is Parse,
        },
{
    let parent = match parent_of(entry_path) {
        Some(p) => p,
        None => {
            return Err(
                ScanError::Parse {
                    file: entry_path.to_owned(),
                    message: String::from_str("could not determine package path"),
                },
            );
        },
    };
    let package_path = join_path(parent.as_str(), md.name.as_str());
    let mut package = InstalledPackage::new(
        md.name.clone(),
        md.version.clone(),
        package_path,
        Ecosystem::Python,
    );
    let nd = md.dependencies.len();
    let mut k: usize = 0;
    while k < nd
        invariant
            k <= nd,
            nd == md.dependencies@.len(),
            package.dependencies@.len() == k,
            forall|m: int|
                #![trigger package.dependencies@[m]]
                0 <= m < k ==> package.dependencies@[m].name == md.dependencies@[m].0
                    && package.dependencies@[m].version_constraint == md.dependencies@[m].1,
            package.name == md.name,
            package.version == md.version,
            package.path@ == join_spec(parent_spec(entry_path@)->0, md.name@),
            package.ecosystem == Ecosystem::Python,
        decreases nd - k,
    {
        let dep = &md.dependencies[k];
        package.add_dependency(dep.0.clone(), dep.1.clone());
        k = k + 1;
    }
    Ok(package)
}

/// Parser for `site-packages` directory entries.
pub struct SitePackagesParser;

impl SitePackagesParser {
    /// Create a new parser.
    pub fn new() -> (r: Self) {
        Self
    }

    /// Parse the `METADATA` content of a `.dist-info` directory into an
    /// installed package rooted next to that directory.
    pub fn parse_dist_info(&self, metadata_content: &str, dist_info_path: &str) -> (r: Result<
        InstalledPackage,
        ScanError,
    >)
        ensures
            match r {
                Ok(p) => installed_ok(
                    p,
                    lines_spec(metadata_content@),
                    dist_deps(lines_spec(metadata_content@)),
                    dist_info_path@,
                ),
                Err(e) => e is Parse,
            },
    {
        let md = match parse_metadata(metadata_content, dist_info_path) {
            Ok(md) => md,
            Err(e) => {
                return Err(e);
            },
        };
        package_from_metadata(md, dist_info_path)
    }

    /// Parse the `PKG-INFO` content of a `.egg-info` directory into an
    /// installed package rooted next to that directory.
    pub fn parse_egg_info_dir(&self, pkg_info_content: &str, egg_info_path: &str) -> (r: Result<
        InstalledPackage,
        ScanError,
    >)
        ensures
            match r {
                Ok(p) => installed_ok(
                    p,
                    lines_spec(pkg_info_content@),
                    pkg_info_deps(lines_spec(pkg_info_content@)),
                    egg_info_path@,
                ),
                Err(e) => e is Parse,
            },
    {
        let md = match parse_pkg_info(pkg_info_content, egg_info_path) {
            Ok(md) => md,
            Err(e) => {
                return Err(e);
            },
        };
        package_from_metadata(md, egg_info_path)
    }

    /// Parse a single-file `.egg-info` entry's content into an installed
    /// package rooted next to that file.
    pub fn parse_egg_info_file(&self, pkg_info_content: &str, egg_info_path: &str) -> (r: Result<
        InstalledPackage,
        ScanError,
    >)
        ensures
            match r {
                Ok(p) => installed_ok(
                    p,
                    lines_spec(pkg_info_content@),
                    pkg_info_deps(lines_spec(pkg_info_content@)),
                    egg_info_path@,
                ),
                Err(e) => e is Parse,
            },
    {
        self.parse_egg_info_dir(pkg_info_content, egg_info_path)
    }
}

} // verus!
