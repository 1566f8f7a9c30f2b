//! Python version-specifier grammar: comparison operators, strict string
//! equality under `==`, and `~=` compatible-release, over one- to
//! three-component versions.

use vstd::prelude::*;
use crate::models::error::ScanError;
use crate::text::{trim_spec, trim_of, str_eq_str};
use crate::version::triple::{
    loose_triple_spec, triple_ge, triple_lt, caret_match, parse_loose_triple, caret_match_exec,
    triple_lt_exec,
};

verus! {

/// Python version wrapper around a raw version string.
pub struct PythonVersion {
    raw: String,
}

impl View for PythonVersion {
    type V = Seq<char>;

    closed spec fn view(&self) -> Seq<char> {
        self.raw@
    }
}

impl PythonVersion {
    /// Wrap a Python version string.
    pub fn parse(version: &str) -> (r: Result<Self, String>)
        ensures
            r is Ok && r->Ok_0@ == version@,
    {
        Ok(Self { raw: version.to_owned() })
    }

    /// The raw version string.
    pub fn as_str(&self) -> (r: &str)
        ensures
            r@ == self@,
    {
        self.raw.as_str()
    }
}

/// What the Python grammar says of `version` against `specifier`, after
/// trimming both. `==` compares strings; `~=` is compatible release over the
/// parsed triple; the other operators compare triples lexicographically.
pub open spec fn python_satisfies_spec(version: Seq<char>, specifier: Seq<char>) -> Option<bool> {
    let v = trim_spec(version);
    let r = trim_spec(specifier);
    if v == r {
        Some(true)
    } else {
        match loose_triple_spec(v) {
            None => None,
            Some(vp) => {
                if r.len() >= 2 && r[0] == '>' && r[1] == '=' {
                    match loose_triple_spec(trim_spec(r.skip(2))) {
                        None => None,
                        Some(rp) => Some(triple_ge(vp, rp)),
                    }
                } else if r.len() > 0 && r[0] == '>' {
                    match loose_triple_spec(trim_spec(r.skip(1))) {
                        None => None,
                        Some(rp) => Some(triple_lt(rp, vp)),
                    }
                } else if r.len() >= 2 && r[0] == '<' && r[1] == '=' {
                    match loose_triple_spec(trim_spec(r.skip(2))) {
                        None => None,
                        Some(rp) => Some(!triple_lt(rp, vp)),
                    }
                } else if r.len() > 0 && r[0] == '<' {
                    match loose_triple_spec(trim_spec(r.skip(1))) {
                        None => None,
                        Some(rp) => Some(triple_lt(vp, rp)),
                    }
                } else if r.len() >= 2 && r[0] == '=' && r[1] == '=' {
                    Some(v == trim_spec(r.skip(2)))
                } else if r.len() >= 2 && r[0] == '~' && r[1] == '=' {
                    match loose_triple_spec(trim_spec(r.skip(2))) {
                        None => None,
                        Some(rp) => Some(caret_match(vp, rp)),
                    }
                } else {
                    Some(v == r)
                }
            },
        }
    }
}

/// Parse up to three dot-separated components, reporting a `VersionParse`
/// error when the major or minor component is not numeric.
pub fn parse_version_parts(version: &str) -> (r: Result<(u32, u32, u32), ScanError>)
    ensures
        match loose_triple_spec(version@) {
            Some(t) => r == Ok::<(u32, u32, u32), ScanError>(t),
            None => r is Err && r->Err_0 is VersionParse,
        },
{
    match parse_loose_triple(version) {
        Some(t) => Ok(t),
        None => Err(ScanError::VersionParse(version.to_owned())),
    }
}

/// Check whether `version` satisfies `specifier` under the Python grammar.
pub fn satisfies(version: &str, specifier: &str) -> (r: Result<bool, ScanError>)
    ensures
        match python_satisfies_spec(version@, specifier@) {
            Some(b) => r == Ok::<bool, ScanError>(b),
            None => r is Err,
        },
{
    let v = trim_of(version);
    let r = trim_of(specifier);
    if str_eq_str(v.as_str(), r.as_str()) {
        return Ok(true);
    }
    let vp = match parse_version_parts(v.as_str()) {
        Ok(t) => t,
        Err(e) => {
            return Err(e);
        },
    };
    let rn = r.as_str().unicode_len();
    if rn >= 2 && r.as_str().get_char(0) == '>' && r.as_str().get_char(1) == '=' {
        let rest = trim_of(r.as_str().substring_char(2, rn));
        proof {
            assert(r@.subrange(2, rn as int) =~= r@.skip(2));
        }
        let rp = match parse_version_parts(rest.as_str()) {
            Ok(t) => t,
            Err(e) => {
                return Err(e);
            },
        };
        return Ok(!triple_lt_exec(vp, rp));
    }
    if rn > 0 && r.as_str().get_char(0) == '>' {
        let rest = trim_of(r.as_str().substring_char(1, rn));
        proof {
            assert(r@.subrange(1, rn as int) =~= r@.skip(1));
        }
        let rp = match parse_version_parts(rest.as_str()) {
            Ok(t) => t,
            Err(e) => {
                return Err(e);
            },
        };
        return Ok(triple_lt_exec(rp, vp));
    }
    if rn >= 2 && r.as_str().get_char(0) == '<' && r.as_str().get_char(1) == '=' {
        let rest = trim_of(r.as_str().substring_char(2, rn));
        proof {
            assert(r@.subrange(2, rn as int) =~= r@.skip(2));
        }
        let rp = match parse_version_parts(rest.as_str()) {
            Ok(t) => t,
            Err(e) => {
                return Err(e);
            },
        };
        return Ok(!triple_lt_exec(rp, vp));
    }
    if rn > 0 && r.as_str().get_char(0) == '<' {
        let rest = trim_of(r.as_str().substring_char(1, rn));
        proof {
            assert(r@.subrange(1, rn as int) =~= r@.skip(1));
        }
        let rp = match parse_version_parts(rest.as_str()) {
            Ok(t) => t,
            Err(e) => {
                return Err(e);
            },
        };
        return Ok(triple_lt_exec(vp, rp));
    }
    if rn >= 2 && r.as_str().get_char(0) == '=' && r.as_str().get_char(1) == '=' {
        let rest = trim_of(r.as_str().substring_char(2, rn));
        proof {
            assert(r@.subrange(2, rn as int) =~= r@.skip(2));
        }
        return Ok(str_eq_str(v.as_str(), rest.as_str()));
    }
    if rn >= 2 && r.as_str().get_char(0) == '~' && r.as_str().get_char(1) == '=' {
        let rest = trim_of(r.as_str().substring_char(2, rn));
        proof {
            assert(r@.subrange(2, rn as int) =~= r@.skip(2));
        }
        let rp = match parse_version_parts(rest.as_str()) {
            Ok(t) => t,
            Err(e) => {
                return Err(e);
            },
        };
        return Ok(caret_match_exec(vp, rp));
    }
    Ok(false)
}

} // verus!
