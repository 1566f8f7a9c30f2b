//! Parser for Python package metadata (`METADATA` and `PKG-INFO` files).
//!
//! Both formats carry `Name:`, `Version:` and dependency lines. `METADATA`
//! declares dependencies with `Requires-Dist:`; the older `PKG-INFO` format
//! may also use plain `Requires:` lines. When a field occurs twice, the
//! last occurrence wins, and a missing name or version is a parse error.

use vstd::prelude::*;
use crate::models::error::ScanError;
use crate::text::{
    find_spec, lemma_find_spec, lines_spec, str_find_char, str_lines, str_starts_with,
    trim_char_back, trim_char_end_of, trim_of, trim_spec,
};

verus! {

/// Parsed Python package metadata.
#[derive(Debug, Clone)]
pub struct PythonMetadata {
    /// Package name
    pub name: String,
    /// Package version
    pub version: String,
    /// Dependencies as (name, version constraint) pairs
    pub dependencies: Vec<(String, String)>,
}

/// The dependency a `Requires-Dist` specification yields: markers after a
/// `;` are dropped, a parenthesized constraint is separated from the name,
/// and a bare name gets the constraint `*`.
pub open spec fn requires_dist_spec(s: Seq<char>) -> Option<(Seq<char>, Seq<char>)> {
    let cut = match find_spec(s, ';') {
        Option::Some(i) => s.take(i),
        Option::None => s,
    };
    let t = trim_spec(cut);
    if t.len() == 0 {
        Option::None
    } else {
        match find_spec(t, '(') {
            Option::Some(p) => Option::Some(
                (trim_spec(t.take(p)), trim_spec(trim_char_back(t.skip(p + 1), ')'))),
            ),
            Option::None => Option::Some((t, "*"@)),
        }
    }
}

/// Parse one `Requires-Dist` specification into a name and constraint.
pub fn parse_requires_dist(spec: &str) -> (r: Option<(String, String)>)
    ensures
        match requires_dist_spec(spec@) {
            Option::Some((n, v)) => r is Some && (r->0).0@ == n && (r->0).1@ == v,
            Option::None => r is None,
        },
{
    let cut = match str_find_char(spec, ';') {
        Some(i) => {
            proof {
                lemma_find_spec(spec@, ';');
            }
            let c = spec.substring_char(0, i);
            proof {
                assert(c@ =~= spec@.take(i as int));
            }
            c
        },
        None => spec,
    };
    let t = trim_of(cut);
    let tn = t.as_str().unicode_len();
    if tn == 0 {
        return None;
    }
    match str_find_char(t.as_str(), '(') {
        Some(p) => {
            proof {
                lemma_find_spec(t@, '(');
            }
            let name_part = t.as_str().substring_char(0, p);
            proof {
                assert(name_part@ =~= t@.take(p as int));
            }
            let after = t.as_str().substring_char(p + 1, tn);
            proof {
                assert(after@ =~= t@.skip(p + 1));
            }
            let no_paren = trim_char_end_of(after, ')');
            let version = trim_of(no_paren.as_str());
            Some((trim_of(name_part), version))
        },
        None => Some((t, String::from_str("*"))),
    }
}

/// The value of the last line carrying the given single-character-checked
/// prefix, with the prefix removed and the remainder trimmed.
pub open spec fn last_field(lines: Seq<Seq<char>>, prefix: Seq<char>) -> Option<Seq<char>>
    decreases lines.len(),
{
    if lines.len() == 0 {
        Option::None
    } else {
        let t = trim_spec(lines.last());
        if prefix.is_prefix_of(t) {
            Option::Some(trim_spec(t.skip(prefix.len() as int)))
        } else {
            last_field(lines.drop_last(), prefix)
        }
    }
}

/// The dependencies the `Requires-Dist:` lines of a file yield, in order.
pub open spec fn dist_deps(lines: Seq<Seq<char>>) -> Seq<(Seq<char>, Seq<char>)>
    decreases lines.len(),
{
    if lines.len() == 0 {
        Seq::empty()
    } else {
        let init = dist_deps(lines.drop_last());
        let t = trim_spec(lines.last());
        if "Requires-Dist:"@.is_prefix_of(t) {
            match requires_dist_spec(trim_spec(t.skip("Requires-Dist:"@.len() as int))) {
                Option::Some(d) => init.push(d),
                Option::None => init,
            }
        } else {
            init
        }
    }
}

/// The dependencies the `Requires:` and `Requires-Dist:` lines of a
/// `PKG-INFO` file yield, in order; a plain `Requires:` name gets the
/// constraint `*`.
pub open spec fn pkg_info_deps(lines: Seq<Seq<char>>) -> Seq<(Seq<char>, Seq<char>)>
    decreases lines.len(),
{
    if lines.len() == 0 {
        Seq::empty()
    } else {
        let init = pkg_info_deps(lines.drop_last());
        let t = trim_spec(lines.last());
        if "Requires:"@.is_prefix_of(t) && !"Requires-Dist:"@.is_prefix_of(t) {
            let nm = trim_spec(t.skip("Requires:"@.len() as int));
            if nm.len() > 0 {
                init.push((nm, "*"@))
            } else {
                init
            }
        } else if "Requires-Dist:"@.is_prefix_of(t) {
            match requires_dist_spec(trim_spec(t.skip("Requires-Dist:"@.len() as int))) {
                Option::Some(d) => init.push(d),
                Option::None => init,
            }
        } else {
            init
        }
    }
}

/// What a metadata result must hold for a given content: the last name and
/// version fields, and the dependency list the format's lines yield.
pub open spec fn metadata_ok(
    m: PythonMetadata,
    lines: Seq<Seq<char>>,
    deps: Seq<(Seq<char>, Seq<char>)>,
) -> bool {
    &&& last_field(lines, "Name:"@) == Option::Some(m.name@)
    &&& last_field(lines, "Version:"@) == Option::Some(m.version@)
    &&& m.dependencies@.len() == deps.len()
    &&& forall|k: int|
        #![trigger m.dependencies@[k]]
        0 <= k < deps.len() ==> m.dependencies@[k].0@ == deps[k].0 && m.dependencies@[k].1@
            == deps[k].1
}

/// Parse `METADATA` content from a `.dist-info` directory.
pub fn parse_metadata(content: &str, file_path: &str) -> (r: Result<PythonMetadata, ScanError>)
    ensures
        match r {
            Ok(m) => metadata_ok(m, lines_spec(content@), dist_deps(lines_spec(content@))),
            Err(e) => (last_field(lines_spec(content@), "Name:"@) is None || last_field(
                lines_spec(content@),
                "Version:"@,
            ) is None) && e is Parse,
        },
{
    let lines = str_lines(content);
    let ghost lv = lines_spec(content@);
    let n = lines.len();
    let mut name: Option<String> = None;
    let mut version: Option<String> = None;
    let mut dependencies: Vec<(String, String)> = Vec::new();
    proof {
        assert(lv.take(0) =~= Seq::<Seq<char>>::empty());
    }
    let mut i: usize = 0;
    while i < n
        invariant
            i <= n,
            n == lines@.len(),
            lv == lines_spec(content@),
            lines@.map_values(|x: String| x@) == lv,
            match name {
                Some(v) => last_field(lv.take(i as int), "Name:"@) == Option::Some(v@),
                None => last_field(lv.take(i as int), "Name:"@) is None,
            },
            match version {
                Some(v) => last_field(lv.take(i as int), "Version:"@) == Option::Some(v@),
                None => last_field(lv.take(i as int), "Version:"@) is None,
            },
            dependencies@.len() == dist_deps(lv.take(i as int)).len(),
            forall|k: int|
                #![trigger dependencies@[k]]
                0 <= k < dependencies@.len() ==> dependencies@[k].0@ == dist_deps(
                    lv.take(i as int),
                )[k].0 && dependencies@[k].1@ == dist_deps(lv.take(i as int))[k].1,
        decreases n - i,
    {
        proof {
            assert(lv[i as int] == lines@.map_values(|x: String| x@)[i as int]);
            assert(lv.take(i + 1).drop_last() =~= lv.take(i as int));
            assert(lv.take(i + 1).last() == lv[i as int]);
        }
        let t = trim_of(lines[i].as_str());
        let tn = t.as_str().unicode_len();
        let is_name = str_starts_with(t.as_str(), "Name:");
        let is_version = str_starts_with(t.as_str(), "Version:");
        let is_rd = str_starts_with(t.as_str(), "Requires-Dist:");
        if is_name {
            proof {
                reveal_strlit("Name:");
                reveal_strlit("Version:");
                reveal_strlit("Requires-Dist:");
                assert(!is_version) by {
                    if is_version {
                        assert(t@[0] == "Name:"@[0]);
                        assert(t@[0] == "Version:"@[0]);
                    }
                }
                assert(!is_rd) by {
                    if is_rd {
                        assert(t@[0] == "Name:"@[0]);
                        assert(t@[0] == "Requires-Dist:"@[0]);
                    }
                }
            }
            let value = trim_of(t.as_str().substring_char(5, tn));
            proof {
                assert(t@.subrange(5, tn as int) =~= t@.skip("Name:"@.len() as int));
            }
            name = Some(value);
        } else if is_version {
            proof {
                reveal_strlit("Version:");
                reveal_strlit("Requires-Dist:");
                assert("Version:"@.len() == 8);
                assert(!is_rd) by {
                    if is_rd {
                        assert(t@[0] == "Version:"@[0]);
                        assert(t@[0] == "Requires-Dist:"@[0]);
                    }
                }
            }
            let value = trim_of(t.as_str().substring_char(8, tn));
            proof {
                assert(t@.subrange(8, tn as int) =~= t@.skip("Version:"@.len() as int));
                assert(value@ == trim_spec(t@.skip("Version:"@.len() as int)));
                assert(lv.take(i + 1).last() == lv[i as int]);
                assert(trim_spec(lv.take(i + 1).last()) == t@);
                assert(last_field(lv.take(i + 1), "Version:"@) == Option::Some(value@));
            }
            version = Some(value);
        } else if is_rd {
            proof {
                reveal_strlit("Requires-Dist:");
                assert("Requires-Dist:"@.len() == 14);
            }
            let value = trim_of(t.as_str().substring_char(14, tn));
            proof {
                assert(t@.subrange(14, tn as int) =~= t@.skip("Requires-Dist:"@.len() as int));
                assert(value@ == trim_spec(t@.skip("Requires-Dist:"@.len() as int)));
            }
            match parse_requires_dist(value.as_str()) {
                Some(d) => {
                    proof {
                        assert(requires_dist_spec(value@) is Some);
                        assert(dist_deps(lv.take(i + 1)) == dist_deps(lv.take(i as int)).push(
                            requires_dist_spec(value@)->0,
                        ));
                    }
                    dependencies.push(d);
                },
                None => {
                    proof {
                        assert(dist_deps(lv.take(i + 1)) == dist_deps(lv.take(i as int)));
                    }
                },
            }
        }
        i = i + 1;
    }
    proof {
        assert(lv.take(n as int) =~= lv);
    }
    let name = match name {
        Some(v) => v,
        None => {
            return Err(
                ScanError::Parse {
                    file: file_path.to_owned(),
                    message: String::from_str("missing Name field"),
                },
            );
        },
    };
    let version = match version {
        Some(v) => v,
        None => {
            return Err(
                ScanError::Parse {
                    file: file_path.to_owned(),
                    message: String::from_str("missing Version field"),
                },
            );
        },
    };
    Ok(PythonMetadata { name, version, dependencies })
}

/// Parse `PKG-INFO` content from a `.egg-info` directory or file.
pub fn parse_pkg_info(content: &str, file_path: &str) -> (r: Result<PythonMetadata, ScanError>)
    ensures
        match r {
            Ok(m) => metadata_ok(m, lines_spec(content@), pkg_info_deps(lines_spec(content@))),
            Err(e) => (last_field(lines_spec(content@), "Name:"@) is None || last_field(
                lines_spec(content@),
                "Version:"@,
            ) is None) && e is Parse,
        },
{
    let lines = str_lines(content);
    let ghost lv = lines_spec(content@);
    let n = lines.len();
    let mut name: Option<String> = None;
    let mut version: Option<String> = None;
    let mut dependencies: Vec<(String, String)> = Vec::new();
    proof {
        assert(lv.take(0) =~= Seq::<Seq<char>>::empty());
    }
    let mut i: usize = 0;
    while i < n
        invariant
            i <= n,
            n == lines@.len(),
            lv == lines_spec(content@),
            lines@.map_values(|x: String| x@) == lv,
            match name {
                Some(v) => last_field(lv.take(i as int), "Name:"@) == Option::Some(v@),
                None => last_field(lv.take(i as int), "Name:"@) is None,
            },
            match version {
                Some(v) => last_field(lv.take(i as int), "Version:"@) == Option::Some(v@),
                None => last_field(lv.take(i as int), "Version:"@) is None,
            },
            dependencies@.len() == pkg_info_deps(lv.take(i as int)).len(),
            forall|k: int|
                #![trigger dependencies@[k]]
                0 <= k < dependencies@.len() ==> dependencies@[k].0@ == pkg_info_deps(
                    lv.take(i as int),
                )[k].0 && dependencies@[k].1@ == pkg_info_deps(lv.take(i as int))[k].1,
        decreases n - i,
    {
        proof {
            assert(lv[i as int] == lines@.map_values(|x: String| x@)[i as int]);
            assert(lv.take(i + 1).drop_last() =~= lv.take(i as int));
            assert(lv.take(i + 1).last() == lv[i as int]);
        }
        let t = trim_of(lines[i].as_str());
        let tn = t.as_str().unicode_len();
        let is_name = str_starts_with(t.as_str(), "Name:");
        let is_version = str_starts_with(t.as_str(), "Version:");
        let is_rd = str_starts_with(t.as_str(), "Requires-Dist:");
        let is_req = str_starts_with(t.as_str(), "Requires:");
        proof {
            reveal_strlit("Name:");
            reveal_strlit("Version:");
            reveal_strlit("Requires-Dist:");
            reveal_strlit("Requires:");
            assert(is_name ==> !is_version && !is_rd && !is_req) by {
                if is_name {
                    assert(t@[0] == "Name:"@[0]);
                    if is_version {
                        assert(t@[0] == "Version:"@[0]);
                    }
                    if is_rd {
                        assert(t@[0] == "Requires-Dist:"@[0]);
                    }
                    if is_req {
                        assert(t@[0] == "Requires:"@[0]);
                    }
                }
            }
            assert(is_version ==> !is_rd && !is_req) by {
                if is_version {
                    assert(t@[0] == "Version:"@[0]);
                    if is_rd {
                        assert(t@[0] == "Requires-Dist:"@[0]);
                    }
                    if is_req {
                        assert(t@[0] == "Requires:"@[0]);
                    }
                }
            }
            assert(!(is_rd && is_req)) by {
                if is_rd && is_req {
                    assert(t@[8] == "Requires-Dist:"@[8]);
                    assert(t@[8] == "Requires:"@[8]);
                }
            }
        }
        if is_name {
            let value = trim_of(t.as_str().substring_char(5, tn));
            proof {
                assert(t@.subrange(5, tn as int) =~= t@.skip("Name:"@.len() as int));
            }
            name = Some(value);
        } else if is_version {
            let value = trim_of(t.as_str().substring_char(8, tn));
            proof {
                assert(t@.subrange(8, tn as int) =~= t@.skip("Version:"@.len() as int));
            }
            version = Some(value);
        } else if is_rd {
            let value = trim_of(t.as_str().substring_char(14, tn));
            proof {
                assert(t@.subrange(14, tn as int) =~= t@.skip("Requires-Dist:"@.len() as int));
                assert(value@ == trim_spec(t@.skip("Requires-Dist:"@.len() as int)));
            }
            match parse_requires_dist(value.as_str()) {
                Some(d) => {
                    dependencies.push(d);
                },
                None => {},
            }
        } else if is_req {
            let dep_name = trim_of(t.as_str().substring_char(9, tn));
            proof {
                assert(t@.subrange(9, tn as int) =~= t@.skip("Requires:"@.len() as int));
            }
            if dep_name.as_str().unicode_len() > 0 {
                dependencies.push((dep_name, String::from_str("*")));
            }
        }
        i = i + 1;
    }
    proof {
        assert(lv.take(n as int) =~= lv);
    }
    let name = match name {
        Some(v) => v,
        None => {
            return Err(
                ScanError::Parse {
                    file: file_path.to_owned(),
                    message: String::from_str("missing Name field"),
                },
            );
        },
    };
    let version = match version {
        Some(v) => v,
        None => {
            return Err(
                ScanError::Parse {
                    file: file_path.to_owned(),
                    message: String::from_str("missing Version field"),
                },
            );
        },
    };
    Ok(PythonMetadata { name, version, dependencies })
}

} // verus!
