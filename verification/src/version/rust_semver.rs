//! Cargo version-requirement grammar: caret (also the implicit default),
//! tilde, `>=`/`>` bounds, and the `*` wildcard.

use vstd::prelude::*;
use crate::models::error::ScanError;
use crate::text::{trim_spec, trim_of, str_eq_str};
use crate::version::triple::{
    strict_triple_spec, triple_ge, triple_lt, caret_match, tilde_match, parse_strict_triple,
    caret_match_exec, tilde_match_exec, triple_lt_exec,
};

verus! {

/// Rust version wrapper around a raw version string.
pub struct RustVersion {
    raw: String,
}

impl View for RustVersion {
    type V = Seq<char>;

    closed spec fn view(&self) -> Seq<char> {
        self.raw@
    }
}

impl RustVersion {
    /// Wrap a Rust version string.
    pub fn parse(version: &str) -> (r: Result<Self, String>)
        ensures
            r is Ok && r->Ok_0@ == version@,
    {
        Ok(Self { raw: version.to_owned() })
    }

    /// The raw version string.
    pub fn as_str(&self) -> (r: &str)
        ensures
            r@ == self@,
    {
        self.raw.as_str()
    }
}

/// What the Cargo grammar says of `version` against `requirement`, after
/// trimming both. A bare requirement without an operator is an implicit
/// caret requirement.
pub open spec fn rust_satisfies_spec(version: Seq<char>, requirement: Seq<char>) -> Option<bool> {
    let v = trim_spec(version);
    let r = trim_spec(requirement);
    if v == r {
        Some(true)
    } else {
        match strict_triple_spec(v) {
            None => None,
            Some(vp) => {
                if r.len() > 0 && r[0] == '^' {
                    match strict_triple_spec(r.drop_first()) {
                        None => None,
                        Some(rp) => Some(caret_match(vp, rp)),
                    }
                } else if r.len() > 0 && r[0] == '~' {
                    match strict_triple_spec(r.drop_first()) {
                        None => None,
                        Some(rp) => Some(tilde_match(vp, rp)),
                    }
                } else if r.len() >= 2 && r[0] == '>' && r[1] == '=' {
                    match strict_triple_spec(trim_spec(r.skip(2))) {
                        None => None,
                        Some(rp) => Some(triple_ge(vp, rp)),
                    }
                } else if r.len() > 0 && r[0] == '>' {
                    match strict_triple_spec(trim_spec(r.skip(1))) {
                        None => None,
                        Some(rp) => Some(triple_lt(rp, vp)),
                    }
                } else if r.len() == 1 && r[0] == '*' {
                    Some(true)
                } else {
                    match strict_triple_spec(r) {
                        None => None,
                        Some(rp) => Some(caret_match(vp, rp)),
                    }
                }
            },
        }
    }
}

/// Parse a `major.minor.patch` version, reporting a `VersionParse` error when
/// the string does not have three numeric dot-separated components.
pub fn parse_version_parts(version: &str) -> (r: Result<(u32, u32, u32), ScanError>)
    ensures
        match strict_triple_spec(version@) {
            Some(t) => r == Ok::<(u32, u32, u32), ScanError>(t),
            None => r is Err && r->Err_0 is VersionParse,
        },
{
    match parse_strict_triple(version) {
        Some(t) => Ok(t),
        None => Err(ScanError::VersionParse(version.to_owned())),
    }
}

/// Check whether `version` satisfies `requirement` under the Cargo grammar.
pub fn satisfies(version: &str, requirement: &str) -> (r: Result<bool, ScanError>)
    ensures
        match rust_satisfies_spec(version@, requirement@) {
            Some(b) => r == Ok::<bool, ScanError>(b),
            None => r is Err,
        },
{
    let v = trim_of(version);
    let r = trim_of(requirement);
    if str_eq_str(v.as_str(), r.as_str()) {
        return Ok(true);
    }
    let vp = match parse_version_parts(v.as_str()) {
        Ok(t) => t,
        Err(e) => {
            return Err(e);
        },
    };
    let rn = r.as_str().unicode_len();
    if rn > 0 && r.as_str().get_char(0) == '^' {
        let rest = r.as_str().substring_char(1, rn);
        proof {
            assert(rest@ =~= r@.drop_first());
        }
        let rp = match parse_version_parts(rest) {
            Ok(t) => t,
            Err(e) => {
                return Err(e);
            },
        };
        return Ok(caret_match_exec(vp, rp));
    }
    if rn > 0 && r.as_str().get_char(0) == '~' {
        let rest = r.as_str().substring_char(1, rn);
        proof {
            assert(rest@ =~= r@.drop_first());
        }
        let rp = match parse_version_parts(rest) {
            Ok(t) => t,
            Err(e) => {
                return Err(e);
            },
        };
        return Ok(tilde_match_exec(vp, rp));
    }
    if rn >= 2 && r.as_str().get_char(0) == '>' && r.as_str().get_char(1) == '=' {
        let rest = trim_of(r.as_str().substring_char(2, rn));
        proof {
            assert(r@.subrange(2, rn as int) =~= r@.skip(2));
        }
        let rp = match parse_version_parts(rest.as_str()) {
            Ok(t) => t,
            Err(e) => {
                return Err(e);
            },
        };
        return Ok(!triple_lt_exec(vp, rp));
    }
    if rn > 0 && r.as_str().get_char(0) == '>' {
        let rest = trim_of(r.as_str().substring_char(1, rn));
        proof {
            assert(r@.subrange(1, rn as int) =~= r@.skip(1));
        }
        let rp = match parse_version_parts(rest.as_str()) {
            Ok(t) => t,
            Err(e) => {
                return Err(e);
            },
        };
        return Ok(triple_lt_exec(rp, vp));
    }
    if rn == 1 && r.as_str().get_char(0) == '*' {
        return Ok(true);
    }
    let rp = match parse_version_parts(r.as_str()) {
        Ok(t) => t,
        Err(e) => {
            return Err(e);
        },
    };
    Ok(caret_match_exec(vp, rp))
}

} // verus!
