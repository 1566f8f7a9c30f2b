//! Node.js semantic-versioning grammar: caret and tilde ranges, `>=`/`>`
//! bounds, wildcards, and literal equality.

use vstd::prelude::*;
use crate::models::error::ScanError;
use crate::text::{trim_spec, trim_of, str_eq_str};
use crate::version::triple::{
    strict_triple_spec, triple_ge, triple_lt, caret_match, tilde_match, parse_strict_triple,
    caret_match_exec, tilde_match_exec, triple_lt_exec,
};

verus! {

/// Node.js version wrapper around a raw version string.
pub struct NodeVersion {
    raw: String,
}

impl View for NodeVersion {
    type V = Seq<char>;

    closed spec fn view(&self) -> Seq<char> {
        self.raw@
    }
}

impl NodeVersion {
    /// Wrap a Node.js version string.
    pub fn parse(version: &str) -> (r: Result<Self, String>)
        ensures
            r is Ok && r->Ok_0@ == version@,
    {
        Ok(Self { raw: version.to_owned() })
    }

    /// The raw version string.
    pub fn as_str(&self) -> (r: &str)
        ensures
            r@ == self@,
    {
        self.raw.as_str()
    }
}

/// What the Node grammar says of `version` against `range`, after trimming
/// both: `Some(b)` when the comparison is defined, `None` when a version
/// string that had to be parsed does not parse.
pub open spec fn node_satisfies_spec(version: Seq<char>, range: Seq<char>) -> Option<bool> {
    let v = trim_spec(version);
    let r = trim_spec(range);
    if v == r {
        Some(true)
    } else {
        match strict_triple_spec(v) {
            None => None,
            Some(vp) => {
                if r.len() > 0 && r[0] == '^' {
                    match strict_triple_spec(r.drop_first()) {
                        None => None,
                        Some(rp) => Some(caret_match(vp, rp)),
                    }
                } else if r.len() > 0 && r[0] == '~' {
                    match strict_triple_spec(r.drop_first()) {
                        None => None,
                        Some(rp) => Some(tilde_match(vp, rp)),
                    }
                } else if r.len() >= 2 && r[0] == '>' && r[1] == '=' {
                    match strict_triple_spec(trim_spec(r.skip(2))) {
                        None => None,
                        Some(rp) => Some(triple_ge(vp, rp)),
                    }
                } else if r.len() > 0 && r[0] == '>' {
                    match strict_triple_spec(trim_spec(r.skip(1))) {
                        None => None,
                        Some(rp) => Some(triple_lt(rp, vp)),
                    }
                } else if r.len() == 1 && (r[0] == '*' || r[0] == 'x' || r[0] == 'X') {
                    Some(true)
                } else {
                    Some(v == r)
                }
            },
        }
    }
}

/// Parse a `major.minor.patch` version, reporting a `VersionParse` error when
/// the string does not have three numeric dot-separated components.
pub fn parse_version_parts(version: &str) -> (r: Result<(u32, u32, u32), ScanError>)
    ensures
        match strict_triple_spec(version@) {
            Some(t) => r == Ok::<(u32, u32, u32), ScanError>(t),
            None => r is Err && r->Err_0 is VersionParse,
        },
{
    match parse_strict_triple(version) {
        Some(t) => Ok(t),
        None => Err(ScanError::VersionParse(version.to_owned())),
    }
}

/// Check whether `version` satisfies `range` under the Node grammar.
pub fn satisfies(version: &str, range: &str) -> (r: Result<bool, ScanError>)
    ensures
        match node_satisfies_spec(version@, range@) {
            Some(b) => r == Ok::<bool, ScanError>(b),
            None => r is Err,
        },
{
    let v = trim_of(version);
    let r = trim_of(range);
    if str_eq_str(v.as_str(), r.as_str()) {
        return Ok(true);
    }
    let vp = match parse_version_parts(v.as_str()) {
        Ok(t) => t,
        Err(e) => {
            return Err(e);
        },
    };
    let rn = r.as_str().unicode_len();
    if rn > 0 && r.as_str().get_char(0) == '^' {
        let rest = r.as_str().substring_char(1, rn);
        proof {
            assert(rest@ =~= r@.drop_first());
        }
        let rp = match parse_version_parts(rest) {
            Ok(t) => t,
            Err(e) => {
                return Err(e);
            },
        };
        return Ok(caret_match_exec(vp, rp));
    }
    if rn > 0 && r.as_str().get_char(0) == '~' {
        let rest = r.as_str().substring_char(1, rn);
        proof {
            assert(rest@ =~= r@.drop_first());
        }
        let rp = match parse_version_parts(rest) {
            Ok(t) => t,
            Err(e) => {
                return Err(e);
            },
        };
        return Ok(tilde_match_exec(vp, rp));
    }
    if rn >= 2 && r.as_str().get_char(0) == '>' && r.as_str().get_char(1) == '=' {
        let rest = trim_of(r.as_str().substring_char(2, rn));
        proof {
            assert(r@.subrange(2, rn as int) =~= r@.skip(2));
        }
        let rp = match parse_version_parts(rest.as_str()) {
            Ok(t) => t,
            Err(e) => {
                return Err(e);
            },
        };
        return Ok(!triple_lt_exec(vp, rp));
    }
    if rn > 0 && r.as_str().get_char(0) == '>' {
        let rest = trim_of(r.as_str().substring_char(1, rn));
        proof {
            assert(r@.subrange(1, rn as int) =~= r@.skip(1));
        }
        let rp = match parse_version_parts(rest.as_str()) {
            Ok(t) => t,
            Err(e) => {
                return Err(e);
            },
        };
        return Ok(triple_lt_exec(rp, vp));
    }
    if rn == 1 {
        let c = r.as_str().get_char(0);
        if c == '*' || c == 'x' || c == 'X' {
            return Ok(true);
        }
    }
    Ok(false)
}

} // verus!
