//! Application linker: walks ancestor directories of each installed path to
//! find the owning project and groups classified entities under it.
//!
//! The linker itself never touches the filesystem. The caller hands it, for
//! every directory it may ask about, the contents of the three recognized
//! manifest files when they exist (`package.json`, `pyproject.toml`,
//! `Cargo.toml`). At each directory the checks run in the order Node, then
//! Python, then Rust; the nearest ancestor with a readable project name
//! wins. Entities whose installed path resolves to no project are dropped.

use vstd::prelude::*;
use crate::models::application::Application;
use crate::models::classification::ClassifiedDependency;
use crate::models::dependency::Ecosystem;
use crate::text::{
    find_spec, lemma_find_spec, str_eq_str, str_find_char, str_lines, trim_char_spec,
    trim_char_of, trim_of, trim_spec, lines_spec,
};

verus! {

/// The manifest files found in one directory: each field holds the file's
/// content when the file exists there.
#[derive(Debug, Clone)]
pub struct DirectoryManifests {
    /// Absolute path of the directory, without a trailing slash
    pub directory: String,
    /// Content of `package.json`, when present
    pub package_json: Option<String>,
    /// Content of `pyproject.toml`, when present
    pub pyproject_toml: Option<String>,
    /// Content of `Cargo.toml`, when present
    pub cargo_toml: Option<String>,
}

/// The `name` field of a JSON document's top-level object, when the
/// document parses and the field holds a string.
pub uninterp spec fn json_name_of(s: Seq<char>) -> Option<Seq<char>>;

/// Relies on `serde_json::from_str`, `Value::get` and `Value::as_str`: reads
/// the top-level `name` string of a JSON document. The result depends on
/// the content alone.
#[verifier::external_body]
fn json_package_name(content: &str) -> (r: Option<String>)
    ensures
        match json_name_of(content@) {
            Some(v) => r is Some && r->0@ == v,
            None => r is None,
        },
{
    match serde_json::from_str::<serde_json::Value>(content) {
        Ok(v) => match v.get("name") {
            Some(n) => n.as_str().map(|s| s.to_string()),
            None => None,
        },
        Err(_) => None,
    }
}

/// The parent directory of a path: the prefix before the last `/`, the root
/// `/` for a top-level entry, and nothing for the root itself or a path
/// without a slash.
pub open spec fn parent_spec(p: Seq<char>) -> Option<Seq<char>> {
    if p.len() == 1 && p[0] == '/' {
        Option::None
    } else {
        match last_slash(p) {
            Option::None => Option::None,
            Option::Some(i) => {
                if i == 0 {
                    Option::Some(seq!['/'])
                } else {
                    Option::Some(p.take(i))
                }
            },
        }
    }
}

/// Index of the last `/` in `p`.
pub open spec fn last_slash(p: Seq<char>) -> Option<int>
    decreases p.len(),
{
    if p.len() == 0 {
        Option::None
    } else if p.last() == '/' {
        Option::Some(p.len() - 1)
    } else {
        last_slash(p.drop_last())
    }
}

proof fn lemma_last_slash(p: Seq<char>)
    ensures
        match last_slash(p) {
            Option::Some(i) => 0 <= i < p.len() && p[i] == '/' && forall|j: int|
                i < j < p.len() ==> p[j] != '/',
            Option::None => forall|j: int| 0 <= j < p.len() ==> p[j] != '/',
        },
    decreases p.len(),
{
    if p.len() == 0 {
    } else if p.last() == '/' {
    } else {
        lemma_last_slash(p.drop_last());
        let t = p.drop_last();
        assert(forall|j: int| 0 <= j < t.len() ==> t[j] == p[j]);
    }
}

/// A parent path is strictly shorter.
proof fn lemma_parent_len(p: Seq<char>)
    ensures
        parent_spec(p) is Some ==> 0 < parent_spec(p)->0.len() < p.len(),
{
    lemma_last_slash(p);
    match parent_spec(p) {
        Option::Some(q) => {
            match last_slash(p) {
                Option::Some(i) => {
                    if i == 0 {
                        assert(p[0] == '/');
                        assert(p.len() != 1);
                    }
                },
                Option::None => {
                    assert(false);
                },
            }
        },
        Option::None => {},
    }
}

/// Parent directory of a path string.
pub fn parent_of(p: &str) -> (r: Option<String>)
    ensures
        match parent_spec(p@) {
            Option::Some(q) => r is Some && r->0@ == q,
            Option::None => r is None,
        },
{
    let n = p.unicode_len();
    if n == 1 && p.get_char(0) == '/' {
        return None;
    }
    let mut i: usize = n;
    loop
        invariant
            i <= n,
            n == p@.len(),
            forall|j: int| i <= j < n ==> p@[j] != '/',
        ensures
            i <= n,
            n == p@.len(),
            forall|j: int| i <= j < n ==> p@[j] != '/',
            i > 0 ==> p@[i - 1] == '/',
        decreases i,
    {
        if i > 0 {
            if p.get_char(i - 1) == '/' {
                break;
            }
            i = i - 1;
        } else {
            break;
        }
    }
    proof {
        lemma_last_slash(p@);
    }
    if i == 0 {
        proof {
            match last_slash(p@) {
                Option::Some(k) => {
                    assert(p@[k] == '/');
                    assert(false);
                },
                Option::None => {},
            }
        }
        None
    } else {
        proof {
            match last_slash(p@) {
                Option::Some(k) => {
                    if k < i - 1 {
                        assert(p@[i - 1] == '/');
                        assert(false);
                    }
                    if k > i - 1 {
                        assert(p@[k] != '/');
                        assert(false);
                    }
                },
                Option::None => {
                    assert(p@[i - 1] == '/');
                    assert(false);
                },
            }
        }
        if i == 1 {
            proof {
                reveal_strlit("/");
                assert("/"@ =~= seq!['/']);
            }
            Some(String::from_str("/"))
        } else {
            let cut = p.substring_char(0, i - 1);
            proof {
                assert(cut@ =~= p@.take(i - 1));
            }
            Some(cut.to_owned())
        }
    }
}

/// The project name a `name = ...` assignment line yields: the text between
/// the first `=` and the second `=` or the end of the line, trimmed, with
/// surrounding double then single quotes removed; nothing when the line
/// does not start with `name`, has no `=`, or yields an empty name.
pub open spec fn assign_name_spec(line: Seq<char>) -> Option<Seq<char>> {
    let t = trim_spec(line);
    if t.len() >= 4 && t[0] == 'n' && t[1] == 'a' && t[2] == 'm' && t[3] == 'e' {
        match find_spec(t, '=') {
            Option::None => Option::None,
            Option::Some(e1) => {
                let rest = t.skip(e1 + 1);
                let piece = match find_spec(rest, '=') {
                    Option::Some(e2) => rest.take(e2),
                    Option::None => rest,
                };
                let nm = trim_char_spec(trim_char_spec(trim_spec(piece), '"'), '\'');
                if nm.len() > 0 {
                    Option::Some(nm)
                } else {
                    Option::None
                }
            },
        }
    } else {
        Option::None
    }
}

/// Extract the name from one assignment line.
fn assign_name(line: &str) -> (r: Option<String>)
    ensures
        match assign_name_spec(line@) {
            Option::Some(v) => r is Some && r->0@ == v,
            Option::None => r is None,
        },
{
    let t = trim_of(line);
    let ts = t.as_str();
    let tn = ts.unicode_len();
    if !(tn >= 4 && ts.get_char(0) == 'n' && ts.get_char(1) == 'a' && ts.get_char(2) == 'm'
        && ts.get_char(3) == 'e') {
        return None;
    }
    let e1 = match str_find_char(ts, '=') {
        Some(i) => i,
        None => {
            return None;
        },
    };
    proof {
        lemma_find_spec(t@, '=');
    }
    let rest = ts.substring_char(e1 + 1, tn);
    proof {
        assert(rest@ =~= t@.skip(e1 + 1));
    }
    let rn = rest.unicode_len();
    let piece = match str_find_char(rest, '=') {
        Some(e2) => {
            proof {
                lemma_find_spec(rest@, '=');
            }
            let cut = rest.substring_char(0, e2);
            proof {
                assert(cut@ =~= rest@.take(e2 as int));
            }
            cut
        },
        None => rest,
    };
    let trimmed = trim_of(piece);
    let no_dq = trim_char_of(trimmed.as_str(), '"');
    let nm = trim_char_of(no_dq.as_str(), '\'');
    if nm.as_str().unicode_len() > 0 {
        Some(nm)
    } else {
        None
    }
}

/// The project name a pyproject manifest yields: the first line holding a
/// `name = ...` assignment with a non-empty value.
pub open spec fn python_name_at(lines: Seq<Seq<char>>, i: int) -> Option<Seq<char>>
    decreases lines.len() - i,
{
    if i < 0 || i >= lines.len() {
        Option::None
    } else {
        match assign_name_spec(lines[i]) {
            Option::Some(v) => Option::Some(v),
            Option::None => python_name_at(lines, i + 1),
        }
    }
}

/// The project name a pyproject manifest's content yields.
pub open spec fn python_manifest_name_spec(content: Seq<char>) -> Option<Seq<char>> {
    python_name_at(lines_spec(content), 0)
}

/// Extract the project name from `pyproject.toml` content.
pub fn python_manifest_name(content: &str) -> (r: Option<String>)
    ensures
        match python_manifest_name_spec(content@) {
            Option::Some(v) => r is Some && r->0@ == v,
            Option::None => r is None,
        },
{
    let lines = str_lines(content);
    let ghost lv = lines_spec(content@);
    let n = lines.len();
    proof {
        assert(lines@.map_values(|x: String| x@).len() == lv.len());
    }
    let mut i: usize = 0;
    while i < n
        invariant
            i <= n,
            n == lines@.len(),
            lv == lines_spec(content@),
            lines@.map_values(|x: String| x@) == lv,
            python_name_at(lv, 0) == python_name_at(lv, i as int),
        decreases n - i,
    {
        proof {
            assert(lv[i as int] == lines@.map_values(|x: String| x@)[i as int]);
        }
        match assign_name(lines[i].as_str()) {
            Some(v) => {
                proof {
                    assert(python_name_at(lv, i as int) == Option::Some(v@));
                }
                return Some(v);
            },
            None => {
                proof {
                    assert(python_name_at(lv, i as int) == python_name_at(lv, i + 1));
                }
            },
        }
        i = i + 1;
    }
    None
}

/// The project name a Cargo manifest yields: the first `name = ...`
/// assignment that stands inside a `[package]` section; any other
/// `[section]` header leaves the package section.
pub open spec fn rust_name_at(lines: Seq<Seq<char>>, i: int, in_pkg: bool) -> Option<Seq<char>>
    decreases lines.len() - i,
{
    if i < 0 || i >= lines.len() {
        Option::None
    } else {
        let t = trim_spec(lines[i]);
        if t == "[package]"@ {
            rust_name_at(lines, i + 1, true)
        } else {
            let in2 = if t.len() > 0 && t[0] == '[' {
                false
            } else {
                in_pkg
            };
            if in2 {
                match assign_name_spec(lines[i]) {
                    Option::Some(v) => Option::Some(v),
                    Option::None => rust_name_at(lines, i + 1, in2),
                }
            } else {
                rust_name_at(lines, i + 1, in2)
            }
        }
    }
}

/// The project name a Cargo manifest's content yields.
pub open spec fn rust_manifest_name_spec(content: Seq<char>) -> Option<Seq<char>> {
    rust_name_at(lines_spec(content), 0, false)
}

/// Extract the package name from `Cargo.toml` content.
pub fn rust_manifest_name(content: &str) -> (r: Option<String>)
    ensures
        match rust_manifest_name_spec(content@) {
            Option::Some(v) => r is Some && r->0@ == v,
            Option::None => r is None,
        },
{
    let lines = str_lines(content);
    let ghost lv = lines_spec(content@);
    let n = lines.len();
    proof {
        assert(lines@.map_values(|x: String| x@).len() == lv.len());
    }
    let mut in_pkg = false;
    let mut i: usize = 0;
    while i < n
        invariant
            i <= n,
            n == lines@.len(),
            lv == lines_spec(content@),
            lines@.map_values(|x: String| x@) == lv,
            rust_name_at(lv, 0, false) == rust_name_at(lv, i as int, in_pkg),
        decreases n - i,
    {
        proof {
            assert(lv[i as int] == lines@.map_values(|x: String| x@)[i as int]);
        }
        let ghost in0 = in_pkg;
        let t = trim_of(lines[i].as_str());
        if str_eq_str(t.as_str(), "[package]") {
            in_pkg = true;
            proof {
                assert(rust_name_at(lv, i as int, in0) == rust_name_at(lv, i + 1, true));
            }
        } else {
            let tn = t.as_str().unicode_len();
            if tn > 0 && t.as_str().get_char(0) == '[' {
                in_pkg = false;
            }
            if in_pkg {
                match assign_name(lines[i].as_str()) {
                    Some(v) => {
                        proof {
                            assert(rust_name_at(lv, i as int, in0) == Option::Some(v@));
                        }
                        return Some(v);
                    },
                    None => {
                        proof {
                            assert(rust_name_at(lv, i as int, in0) == rust_name_at(
                                lv,
                                i + 1,
                                in_pkg,
                            ));
                        }
                    },
                }
            } else {
                proof {
                    assert(rust_name_at(lv, i as int, in0) == rust_name_at(lv, i + 1, in_pkg));
                }
            }
        }
        i = i + 1;
    }
    None
}

/// First probed directory entry with the given path.
pub open spec fn dir_lookup(dirs: Seq<DirectoryManifests>, d: Seq<char>) -> Option<
    DirectoryManifests,
>
    decreases dirs.len(),
{
    if dirs.len() == 0 {
        Option::None
    } else if dirs[0].directory@ == d {
        Option::Some(dirs[0])
    } else {
        dir_lookup(dirs.drop_first(), d)
    }
}

proof fn lemma_dir_lookup(dirs: Seq<DirectoryManifests>, d: Seq<char>)
    ensures
        match dir_lookup(dirs, d) {
            Option::Some(e) => exists|i: int|
                0 <= i < dirs.len() && dirs[i] == e && dirs[i].directory@ == d && forall|j: int|
                    0 <= j < i ==> dirs[j].directory@ != d,
            Option::None => forall|j: int| 0 <= j < dirs.len() ==> dirs[j].directory@ != d,
        },
    decreases dirs.len(),
{
    if dirs.len() == 0 {
    } else if dirs[0].directory@ == d {
        assert(dirs[0] == dirs[0]);
    } else {
        lemma_dir_lookup(dirs.drop_first(), d);
        let t = dirs.drop_first();
        match dir_lookup(t, d) {
            Option::Some(e) => {
                let i = choose|i: int|
                    0 <= i < t.len() && t[i] == e && t[i].directory@ == d && forall|j: int|
                        0 <= j < i ==> t[j].directory@ != d;
                assert(dirs[i + 1] == t[i]);
                assert(forall|j: int| 1 <= j < i + 1 ==> dirs[j] == t[j - 1]);
            },
            Option::None => {
                assert(forall|j: int| 1 <= j < dirs.len() ==> dirs[j] == t[j - 1]);
            },
        }
    }
}

/// What one directory resolves to: the project name and ecosystem of the
/// first manifest present and readable there, checking Node, then Python,
/// then Rust.
pub open spec fn resolve_dir_spec(dirs: Seq<DirectoryManifests>, d: Seq<char>) -> Option<
    (Seq<char>, Ecosystem),
> {
    match dir_lookup(dirs, d) {
        Option::None => Option::None,
        Option::Some(e) => {
            if e.package_json is Some && json_name_of(e.package_json->0@) is Some {
                Option::Some((json_name_of(e.package_json->0@)->0, Ecosystem::Node))
            } else if e.pyproject_toml is Some && python_manifest_name_spec(
                e.pyproject_toml->0@,
            ) is Some {
                Option::Some(
                    (python_manifest_name_spec(e.pyproject_toml->0@)->0, Ecosystem::Python),
                )
            } else if e.cargo_toml is Some && rust_manifest_name_spec(e.cargo_toml->0@) is Some {
                Option::Some((rust_manifest_name_spec(e.cargo_toml->0@)->0, Ecosystem::Rust))
            } else {
                Option::None
            }
        },
    }
}

/// The application root an installed path resolves to: the nearest ancestor
/// directory (the path itself excluded) whose manifests yield a project
/// name, with that name and ecosystem.
pub open spec fn resolve_root_spec(dirs: Seq<DirectoryManifests>, path: Seq<char>) -> Option<
    (Seq<char>, Seq<char>, Ecosystem),
>
    decreases path.len(),
    via resolve_root_decreases
{
    match parent_spec(path) {
        Option::None => Option::None,
        Option::Some(par) => {
            match resolve_dir_spec(dirs, par) {
                Option::Some((nm, eco)) => Option::Some((par, nm, eco)),
                Option::None => resolve_root_spec(dirs, par),
            }
        },
    }
}

#[via_fn]
proof fn resolve_root_decreases(dirs: Seq<DirectoryManifests>, path: Seq<char>) {
    lemma_parent_len(path);
}

/// The name and ecosystem a resolved root carries are what the root
/// directory itself resolves to.
proof fn lemma_resolve_root_dir(dirs: Seq<DirectoryManifests>, path: Seq<char>)
    ensures
        match resolve_root_spec(dirs, path) {
            Option::Some((root, nm, eco)) => resolve_dir_spec(dirs, root) == Option::Some(
                (nm, eco),
            ),
            Option::None => true,
        },
    decreases path.len(),
{
    lemma_parent_len(path);
    match parent_spec(path) {
        Option::Some(par) => {
            match resolve_dir_spec(dirs, par) {
                Option::Some(_) => {},
                Option::None => {
                    lemma_resolve_root_dir(dirs, par);
                },
            }
        },
        Option::None => {},
    }
}

/// The manifest path recorded for an application: the canonical manifest
/// filename for its ecosystem inside the root, when that file was probed
/// there.
pub open spec fn manifest_file_spec(
    dirs: Seq<DirectoryManifests>,
    root: Seq<char>,
    ecosystem: Ecosystem,
) -> Option<Seq<char>> {
    match dir_lookup(dirs, root) {
        Option::None => Option::None,
        Option::Some(e) => match ecosystem {
            Ecosystem::Node => {
                if e.package_json is Some {
                    Option::Some(root + "/package.json"@)
                } else {
                    Option::None
                }
            },
            Ecosystem::Python => {
                if e.pyproject_toml is Some {
                    Option::Some(root + "/pyproject.toml"@)
                } else {
                    Option::None
                }
            },
            Ecosystem::Rust => {
                if e.cargo_toml is Some {
                    Option::Some(root + "/Cargo.toml"@)
                } else {
                    Option::None
                }
            },
        },
    }
}

/// An entity with an installed path that resolves to a project root.
pub open spec fn linkable(d: ClassifiedDependency, dirs: Seq<DirectoryManifests>) -> bool {
    d.installed_path is Some && resolve_root_spec(dirs, d.installed_path->0@) is Some
}

/// How the linker annotates one entity: a linkable entity gets its resolved
/// application root and name; any other entity is left unchanged.
pub open spec fn annotated(
    orig: ClassifiedDependency,
    a: ClassifiedDependency,
    dirs: Seq<DirectoryManifests>,
) -> bool {
    if linkable(orig, dirs) {
        let rr = resolve_root_spec(dirs, orig.installed_path->0@)->0;
        &&& a == (ClassifiedDependency {
            application_root: a.application_root,
            application_name: a.application_name,
            ..orig
        })
        &&& a.application_root is Some && a.application_root->0@ == rr.0
        &&& a.application_name is Some && a.application_name->0@ == rr.1
    } else {
        a == orig
    }
}

/// One output application is internally consistent: its name and ecosystem
/// are what its root resolves to, its manifest path is the canonical
/// manifest for that ecosystem when present (the root itself otherwise), it
/// owns at least one entity, and every entity it owns is annotated with
/// this root and name.
pub open spec fn app_ok(app: Application, dirs: Seq<DirectoryManifests>) -> bool {
    &&& resolve_dir_spec(dirs, app.root_path@) is Some
    &&& app.name@ == (resolve_dir_spec(dirs, app.root_path@)->0).0
    &&& app.ecosystem == (resolve_dir_spec(dirs, app.root_path@)->0).1
    &&& (match manifest_file_spec(dirs, app.root_path@, app.ecosystem) {
        Option::Some(m) => app.manifest_path@ == m,
        Option::None => app.manifest_path@ == app.root_path@,
    })
    &&& app.dependencies@.len() > 0
    &&& forall|m: int|
        #![trigger app.dependencies@[m]]
        0 <= m < app.dependencies@.len() ==> app.dependencies@[m].application_root is Some
            && app.dependencies@[m].application_root->0@ == app.root_path@
            && app.dependencies@[m].application_name is Some
            && app.dependencies@[m].application_name->0@ == app.name@
}

/// Total number of entities owned across a list of applications.
pub open spec fn app_dep_count(s: Seq<Application>) -> nat
    decreases s.len(),
{
    if s.len() == 0 {
        0
    } else {
        s[0].dependencies@.len() + app_dep_count(s.drop_first())
    }
}

proof fn lemma_app_count_split(s: Seq<Application>, i: int)
    requires
        0 <= i < s.len(),
    ensures
        app_dep_count(s) == app_dep_count(s.take(i)) + s[i].dependencies@.len() + app_dep_count(
            s.skip(i + 1),
        ),
    decreases i,
{
    if i == 0 {
        assert(s.take(0) =~= Seq::<Application>::empty());
        assert(s.skip(1) =~= s.drop_first());
    } else {
        lemma_app_count_split(s.drop_first(), i - 1);
        let t = s.drop_first();
        assert(s.take(i).drop_first() =~= t.take(i - 1));
        assert(s.take(i)[0] == s[0]);
        assert(s.skip(i + 1) =~= t.skip(i));
        assert(t[i - 1] == s[i]);
    }
}

proof fn lemma_app_count_push(s: Seq<Application>, a: Application)
    ensures
        app_dep_count(s.push(a)) == app_dep_count(s) + a.dependencies@.len(),
    decreases s.len(),
{
    if s.len() == 0 {
        assert(s.push(a)[0] == a);
        assert(s.push(a).drop_first() =~= Seq::<Application>::empty());
        assert(app_dep_count(s.push(a).drop_first()) == 0);
    } else {
        lemma_app_count_push(s.drop_first(), a);
        assert(s.push(a).drop_first() =~= s.drop_first().push(a));
        assert(s.push(a)[0] == s[0]);
    }
}

/// Application linker for finding and linking application roots.
pub struct ApplicationLinker;

impl ApplicationLinker {
    /// Create a new linker.
    pub fn new() -> (r: Self) {
        Self
    }

    /// Resolve one directory against the probe data: the project name and
    /// ecosystem of the first readable manifest there.
    fn resolve_dir(dirs: &Vec<DirectoryManifests>, d: &str) -> (r: Option<(String, Ecosystem)>)
        ensures
            match resolve_dir_spec(dirs@, d@) {
                Option::Some((nm, eco)) => r is Some && (r->0).0@ == nm && (r->0).1 == eco,
                Option::None => r is None,
            },
    {
        proof {
            lemma_dir_lookup(dirs@, d@);
        }
        let n = dirs.len();
        let mut i: usize = 0;
        loop
            invariant
                i <= n,
                n == dirs@.len(),
                forall|j: int| 0 <= j < i ==> dirs@[j].directory@ != d@,
            ensures
                i <= n,
                n == dirs@.len(),
                forall|j: int| 0 <= j < i ==> dirs@[j].directory@ != d@,
                i < n ==> dirs@[i as int].directory@ == d@,
            decreases n - i,
        {
            if i < n {
                if str_eq_str(dirs[i].directory.as_str(), d) {
                    break;
                }
                i = i + 1;
            } else {
                break;
            }
        }
        if i >= n {
            return None;
        }
        let e = &dirs[i];
        proof {
            assert(dir_lookup(dirs@, d@) == Option::Some(*e)) by {
                match dir_lookup(dirs@, d@) {
                    Option::Some(x) => {
                        let w = choose|w: int|
                            0 <= w < dirs@.len() && dirs@[w] == x && dirs@[w].directory@ == d@
                                && forall|j: int| 0 <= j < w ==> dirs@[j].directory@ != d@;
                        assert(w == i);
                    },
                    Option::None => {
                        assert(false);
                    },
                }
            }
        }
        match &e.package_json {
            Some(content) => {
                match json_package_name(content.as_str()) {
                    Some(nm) => {
                        return Some((nm, Ecosystem::Node));
                    },
                    None => {},
                }
            },
            None => {},
        }
        match &e.pyproject_toml {
            Some(content) => {
                match python_manifest_name(content.as_str()) {
                    Some(nm) => {
                        return Some((nm, Ecosystem::Python));
                    },
                    None => {},
                }
            },
            None => {},
        }
        match &e.cargo_toml {
            Some(content) => {
                match rust_manifest_name(content.as_str()) {
                    Some(nm) => {
                        return Some((nm, Ecosystem::Rust));
                    },
                    None => {},
                }
            },
            None => {},
        }
        None
    }

    /// Find the application root for an installed path: the nearest
    /// ancestor directory whose manifests yield a project name.
    pub fn find_application_root(&self, installed_path: &str, dirs: &Vec<DirectoryManifests>) -> (r:
        Option<(String, String, Ecosystem)>)
        ensures
            match resolve_root_spec(dirs@, installed_path@) {
                Option::Some((root, nm, eco)) => r is Some && (r->0).0@ == root && (r->0).1@ == nm
                    && (r->0).2 == eco,
                Option::None => r is None,
            },
    {
        let mut current = installed_path.to_owned();
        loop
            invariant
                resolve_root_spec(dirs@, installed_path@) == resolve_root_spec(dirs@, current@),
            decreases current@.len(),
        {
            proof {
                lemma_parent_len(current@);
            }
            let par = match parent_of(current.as_str()) {
                Some(p) => p,
                None => {
                    return None;
                },
            };
            match Self::resolve_dir(dirs, par.as_str()) {
                Some((nm, eco)) => {
                    return Some((par, nm, eco));
                },
                None => {},
            }
            current = par;
        }
    }

    /// The canonical manifest path for a root directory and ecosystem, when
    /// the probe found the file there; nothing otherwise.
    fn find_manifest_file(dirs: &Vec<DirectoryManifests>, root: &str, ecosystem: Ecosystem) -> (r:
        Option<String>)
        ensures
            match manifest_file_spec(dirs@, root@, ecosystem) {
                Option::Some(m) => r is Some && r->0@ == m,
                Option::None => r is None,
            },
    {
        proof {
            lemma_dir_lookup(dirs@, root@);
        }
        let n = dirs.len();
        let mut i: usize = 0;
        loop
            invariant
                i <= n,
                n == dirs@.len(),
                forall|j: int| 0 <= j < i ==> dirs@[j].directory@ != root@,
            ensures
                i <= n,
                n == dirs@.len(),
                forall|j: int| 0 <= j < i ==> dirs@[j].directory@ != root@,
                i < n ==> dirs@[i as int].directory@ == root@,
            decreases n - i,
        {
            if i < n {
                if str_eq_str(dirs[i].directory.as_str(), root) {
                    break;
                }
                i = i + 1;
            } else {
                break;
            }
        }
        if i >= n {
            return None;
        }
        let e = &dirs[i];
        proof {
            assert(dir_lookup(dirs@, root@) == Option::Some(*e)) by {
                match dir_lookup(dirs@, root@) {
                    Option::Some(x) => {
                        let w = choose|w: int|
                            0 <= w < dirs@.len() && dirs@[w] == x && dirs@[w].directory@ == root@
                                && forall|j: int| 0 <= j < w ==> dirs@[j].directory@ != root@;
                        assert(w == i);
                    },
                    Option::None => {
                        assert(false);
                    },
                }
            }
        }
        match ecosystem {
            Ecosystem::Node => {
                if e.package_json.is_some() {
                    Some(root.to_owned().concat("/package.json"))
                } else {
                    None
                }
            },
            Ecosystem::Python => {
                if e.pyproject_toml.is_some() {
                    Some(root.to_owned().concat("/pyproject.toml"))
                } else {
                    None
                }
            },
            Ecosystem::Rust => {
                if e.cargo_toml.is_some() {
                    Some(root.to_owned().concat("/Cargo.toml"))
                } else {
                    None
                }
            },
        }
    }

    /// Link classified entities to their application roots and group them
    /// into applications. Entities whose installed path resolves to no
    /// project, or that have no installed path, are dropped. Roots are
    /// distinct across the output, every output application is internally
    /// consistent, and the output owns exactly the linkable entities.
    pub fn link_to_applications(
        &self,
        dependencies: Vec<ClassifiedDependency>,
        dirs: &Vec<DirectoryManifests>,
    ) -> (r: Vec<Application>)
        ensures
            forall|a1: int, a2: int|
                #![trigger r@[a1], r@[a2]]
                0 <= a1 < a2 < r@.len() ==> r@[a1].root_path@ != r@[a2].root_path@,
            forall|k: int| #![trigger r@[k]] 0 <= k < r@.len() ==> app_ok(r@[k], dirs@),
            app_dep_count(r@) == dependencies@.filter(
                |d: ClassifiedDependency| linkable(d, dirs@),
            ).len(),
            forall|k: int, m: int|
                #![trigger r@[k].dependencies@[m]]
                0 <= k < r@.len() && 0 <= m < r@[k].dependencies@.len() ==> exists|j: int|
                    0 <= j < dependencies@.len() && annotated(
                        dependencies@[j],
                        r@[k].dependencies@[m],
                        dirs@,
                    ),
    {
        let ghost pred = |d: ClassifiedDependency| linkable(d, dirs@);
        let ghost orig = dependencies@;
        let mut dependencies = dependencies;
        let mut apps: Vec<Application> = Vec::new();
        let n = dependencies.len();
        proof {
            reveal(Seq::filter);
            assert(orig.take(0) =~= Seq::<ClassifiedDependency>::empty());
        }
        let mut i: usize = 0;
        while i < n
            invariant
                i <= n,
                n == orig.len(),
                dependencies@ == orig.skip(i as int),
                pred == (|d: ClassifiedDependency| linkable(d, dirs@)),
                forall|a1: int, a2: int|
                    #![trigger apps@[a1], apps@[a2]]
                    0 <= a1 < a2 < apps@.len() ==> apps@[a1].root_path@ != apps@[a2].root_path@,
                forall|k: int| #![trigger apps@[k]] 0 <= k < apps@.len() ==> app_ok(apps@[k], dirs@),
                app_dep_count(apps@) == orig.take(i as int).filter(pred).len(),
                forall|k: int, m: int|
                    #![trigger apps@[k].dependencies@[m]]
                    0 <= k < apps@.len() && 0 <= m < apps@[k].dependencies@.len() ==> exists|
                        j: int,
                    | 0 <= j < i && annotated(orig[j], apps@[k].dependencies@[m], dirs@),
            decreases n - i,
        {
            proof {
                reveal(Seq::filter);
                assert(dependencies@[0] == orig[i as int]);
                assert(orig.take(i + 1).drop_last() =~= orig.take(i as int));
                assert(orig.take(i + 1).last() == orig[i as int]);
            }
            let mut dep = dependencies.remove(0);
            let resolved = match &dep.installed_path {
                Some(p) => {
                    proof {
                        lemma_resolve_root_dir(dirs@, dep.installed_path->0@);
                    }
                    self.find_application_root(p.as_str(), dirs)
                },
                None => None,
            };
            match resolved {
                Some((root, nm, eco)) => {
                    proof {
                        assert(linkable(orig[i as int], dirs@));
                        assert(resolve_dir_spec(dirs@, root@) is Some);
                        assert((resolve_dir_spec(dirs@, root@)->0).0 == nm@);
                        assert((resolve_dir_spec(dirs@, root@)->0).1 == eco);
                    }
                    dep.application_root = Some(root.clone());
                    dep.application_name = Some(nm.clone());
                    let ghost annotated_dep = dep;
                    proof {
                        assert(annotated(orig[i as int], annotated_dep, dirs@));
                    }
                    let m = apps.len();
                    let mut a: usize = 0;
                    loop
                        invariant
                            a <= m,
                            m == apps@.len(),
                            forall|j: int| 0 <= j < a ==> apps@[j].root_path@ != root@,
                        ensures
                            a <= m,
                            m == apps@.len(),
                            forall|j: int| 0 <= j < a ==> apps@[j].root_path@ != root@,
                            a < m ==> apps@[a as int].root_path@ == root@,
                        decreases m - a,
                    {
                        if a < m {
                            if str_eq_str(apps[a].root_path.as_str(), root.as_str()) {
                                break;
                            }
                            a = a + 1;
                        } else {
                            break;
                        }
                    }
                    if a < m {
                        let ghost before = apps@;
                        let mut found = apps.remove(a);
                        found.add_dependency(dep);
                        let ghost fa = found;
                        apps.insert(a, found);
                        proof {
                            assert(apps@ =~= before.update(a as int, fa));
                            assert(app_ok(fa, dirs@)) by {
                                assert(app_ok(before[a as int], dirs@));
                                assert(fa.dependencies@ == before[a as int].dependencies@.push(
                                    annotated_dep,
                                ));
                                assert forall|q: int|
                                    #![trigger fa.dependencies@[q]]
                                    0 <= q < fa.dependencies@.len() implies fa.dependencies@[q].application_root is Some
                                    && fa.dependencies@[q].application_root->0@ == fa.root_path@
                                    && fa.dependencies@[q].application_name is Some
                                    && fa.dependencies@[q].application_name->0@ == fa.name@ by {
                                    if q < fa.dependencies@.len() - 1 {
                                        assert(fa.dependencies@[q] == before[a as int].dependencies@[q]);
                                    } else {
                                        assert(fa.dependencies@[q] == annotated_dep);
                                        assert(fa.name@ == (resolve_dir_spec(
                                            dirs@,
                                            fa.root_path@,
                                        )->0).0);
                                    }
                                }
                            }
                            assert forall|k: int| #![trigger apps@[k]] 0 <= k < apps@.len() implies
                                app_ok(apps@[k], dirs@) by {
                                if k != a {
                                    assert(apps@[k] == before[k]);
                                }
                            }
                            assert forall|a1: int, a2: int|
                                #![trigger apps@[a1], apps@[a2]]
                                0 <= a1 < a2 < apps@.len() implies apps@[a1].root_path@
                                != apps@[a2].root_path@ by {
                                assert(apps@[a1].root_path@ == before[a1].root_path@);
                                assert(apps@[a2].root_path@ == before[a2].root_path@);
                            }
                            lemma_app_count_split(before, a as int);
                            lemma_app_count_split(apps@, a as int);
                            assert(apps@.take(a as int) =~= before.take(a as int));
                            assert(apps@.skip(a + 1) =~= before.skip(a + 1));
                            assert(app_dep_count(apps@) == app_dep_count(before) + 1);
                            assert forall|k: int, m: int|
                                #![trigger apps@[k].dependencies@[m]]
                                0 <= k < apps@.len() && 0 <= m < apps@[k].dependencies@.len()
                                implies exists|j: int|
                                0 <= j < i + 1 && annotated(
                                    orig[j],
                                    apps@[k].dependencies@[m],
                                    dirs@,
                                ) by {
                                if k == a && m == apps@[k].dependencies@.len() - 1 {
                                    assert(apps@[k].dependencies@[m] == annotated_dep);
                                    assert(annotated(orig[i as int], annotated_dep, dirs@));
                                } else if k == a {
                                    assert(apps@[k].dependencies@[m]
                                        == before[a as int].dependencies@[m]);
                                    assert(exists|j: int|
                                        0 <= j < i && annotated(
                                            orig[j],
                                            before[a as int].dependencies@[m],
                                            dirs@,
                                        ));
                                } else {
                                    assert(apps@[k] == before[k]);
                                    assert(exists|j: int|
                                        0 <= j < i && annotated(
                                            orig[j],
                                            before[k].dependencies@[m],
                                            dirs@,
                                        ));
                                }
                            }
                        }
                    } else {
                        let manifest = match Self::find_manifest_file(dirs, root.as_str(), eco) {
                            Some(mf) => mf,
                            None => root.clone(),
                        };
                        let mut app = Application::new(nm, root, manifest, eco);
                        app.add_dependency(dep);
                        let ghost na = app;
                        let ghost before = apps@;
                        apps.push(app);
                        proof {
                            lemma_app_count_push(before, na);
                            assert(app_ok(na, dirs@)) by {
                                assert(na.dependencies@.len() == 1);
                                assert(na.dependencies@[0] == annotated_dep);
                            }
                            assert forall|k: int| #![trigger apps@[k]] 0 <= k < apps@.len() implies
                                app_ok(apps@[k], dirs@) by {
                                if k < apps@.len() - 1 {
                                    assert(apps@[k] == before[k]);
                                } else {
                                    assert(apps@[k] == na);
                                }
                            }
                            assert forall|a1: int, a2: int|
                                #![trigger apps@[a1], apps@[a2]]
                                0 <= a1 < a2 < apps@.len() implies apps@[a1].root_path@
                                != apps@[a2].root_path@ by {
                                if a2 < apps@.len() - 1 {
                                    assert(apps@[a1] == before[a1]);
                                    assert(apps@[a2] == before[a2]);
                                } else {
                                    assert(apps@[a1] == before[a1]);
                                    assert(apps@[a2] == na);
                                }
                            }
                            assert forall|k: int, m: int|
                                #![trigger apps@[k].dependencies@[m]]
                                0 <= k < apps@.len() && 0 <= m < apps@[k].dependencies@.len()
                                implies exists|j: int|
                                0 <= j < i + 1 && annotated(
                                    orig[j],
                                    apps@[k].dependencies@[m],
                                    dirs@,
                                ) by {
                                if k == apps@.len() - 1 {
                                    assert(apps@[k] == na);
                                    assert(apps@[k].dependencies@[m] == annotated_dep);
                                    assert(annotated(orig[i as int], annotated_dep, dirs@));
                                } else {
                                    assert(apps@[k] == before[k]);
                                    assert(exists|j: int|
                                        0 <= j < i && annotated(
                                            orig[j],
                                            before[k].dependencies@[m],
                                            dirs@,
                                        ));
                                }
                            }
                        }
                    }
                },
                None => {
                    proof {
                        assert(!pred(orig[i as int]));
                    }
                },
            }
            proof {
                assert(dependencies@ =~= orig.skip(i + 1));
            }
            i = i + 1;
        }
        proof {
            assert(orig.take(n as int) =~= orig);
        }
        apps
    }
}

impl Default for ApplicationLinker {
    /// A default linker is an ordinary linker.
    fn default() -> (r: Self) {
        Self::new()
    }
}

} // verus!
