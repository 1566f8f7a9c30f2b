//! Parser for `requirements.txt` manifests.

use vstd::prelude::*;
use crate::models::dependency::{DependencyRecord, DependencyType, Ecosystem, FileType};
use crate::models::error::ScanError;
use crate::text::{
    find_spec, find_pair_spec, lemma_find_spec, lemma_find_pair_spec, lines_spec, str_find_char,
    str_find_pair, str_lines, str_starts_with, trim_of, trim_spec,
};

verus! {

/// The name and version a requirement line yields once its inline comment
/// is cut: the line is split at the first version operator (in the order
/// `>=`, `<=`, `==`, `!=`, `~=`, `>`, `<`); a line without an operator is a
/// bare name with the constraint `*`; bracketed extras are removed from the
/// name; an empty line yields nothing.
pub open spec fn requirement_line_spec(line: Seq<char>) -> Option<(Seq<char>, Seq<char>)> {
    let cut = match find_spec(line, '#') {
        Option::Some(i) => trim_spec(line.take(i)),
        Option::None => trim_spec(line),
    };
    match req_op_pos(cut) {
        Option::Some(p) => {
            let name_part = trim_spec(cut.take(p));
            let name = match find_spec(name_part, '[') {
                Option::Some(b) => trim_spec(name_part.take(b)),
                Option::None => name_part,
            };
            Option::Some((name, trim_spec(cut.skip(p))))
        },
        Option::None => {
            if cut.len() == 0 {
                Option::None
            } else {
                let name = match find_spec(cut, '[') {
                    Option::Some(b) => trim_spec(cut.take(b)),
                    Option::None => cut,
                };
                Option::Some((name, "*"@))
            }
        },
    }
}

/// Position of the first version operator found, trying the two-character
/// operators before the one-character ones.
pub open spec fn req_op_pos(s: Seq<char>) -> Option<int> {
    if find_pair_spec(s, '>', '=') is Some {
        find_pair_spec(s, '>', '=')
    } else if find_pair_spec(s, '<', '=') is Some {
        find_pair_spec(s, '<', '=')
    } else if find_pair_spec(s, '=', '=') is Some {
        find_pair_spec(s, '=', '=')
    } else if find_pair_spec(s, '!', '=') is Some {
        find_pair_spec(s, '!', '=')
    } else if find_pair_spec(s, '~', '=') is Some {
        find_pair_spec(s, '~', '=')
    } else if find_spec(s, '>') is Some {
        find_spec(s, '>')
    } else if find_spec(s, '<') is Some {
        find_spec(s, '<')
    } else {
        Option::None
    }
}

/// Whether a trimmed requirements line is skipped: blank lines, comments,
/// include and constraint flags, editable installs, and URLs.
pub open spec fn req_line_skipped(t: Seq<char>) -> bool {
    ||| t.len() == 0
    ||| t[0] == '#'
    ||| "-r "@.is_prefix_of(t)
    ||| "-c "@.is_prefix_of(t)
    ||| "--requirement"@.is_prefix_of(t)
    ||| "--constraint"@.is_prefix_of(t)
    ||| "-e "@.is_prefix_of(t)
    ||| "git+"@.is_prefix_of(t)
    ||| "http://"@.is_prefix_of(t)
    ||| "https://"@.is_prefix_of(t)
}

/// The (name, version) entries a requirements file yields, in order.
pub open spec fn req_entries(lines: Seq<Seq<char>>) -> Seq<(Seq<char>, Seq<char>)>
    decreases lines.len(),
{
    if lines.len() == 0 {
        Seq::empty()
    } else {
        let init = req_entries(lines.drop_last());
        let t = trim_spec(lines.last());
        if req_line_skipped(t) {
            init
        } else {
            match requirement_line_spec(t) {
                Option::Some(e) => init.push(e),
                Option::None => init,
            }
        }
    }
}

/// Split a requirement line into a name and version constraint.
pub fn parse_requirement_line(line: &str) -> (r: Option<(String, String)>)
    ensures
        match requirement_line_spec(line@) {
            Option::Some((n, v)) => r is Some && (r->0).0@ == n && (r->0).1@ == v,
            Option::None => r is None,
        },
{
    let cut = match str_find_char(line, '#') {
        Some(i) => {
            proof {
                lemma_find_spec(line@, '#');
            }
            let c = line.substring_char(0, i);
            proof {
                assert(c@ =~= line@.take(i as int));
            }
            trim_of(c)
        },
        None => trim_of(line),
    };
    let cs = cut.as_str();
    let cn = cs.unicode_len();
    let pos = match str_find_pair(cs, '>', '=') {
        Some(p) => Some(p),
        None => match str_find_pair(cs, '<', '=') {
            Some(p) => Some(p),
            None => match str_find_pair(cs, '=', '=') {
                Some(p) => Some(p),
                None => match str_find_pair(cs, '!', '=') {
                    Some(p) => Some(p),
                    None => match str_find_pair(cs, '~', '=') {
                        Some(p) => Some(p),
                        None => match str_find_char(cs, '>') {
                            Some(p) => Some(p),
                            None => match str_find_char(cs, '<') {
                                Some(p) => Some(p),
                                None => None,
                            },
                        },
                    },
                },
            },
        },
    };
    proof {
        lemma_find_pair_spec(cut@, '>', '=');
        lemma_find_pair_spec(cut@, '<', '=');
        lemma_find_pair_spec(cut@, '=', '=');
        lemma_find_pair_spec(cut@, '!', '=');
        lemma_find_pair_spec(cut@, '~', '=');
        lemma_find_spec(cut@, '>');
        lemma_find_spec(cut@, '<');
    }
    match pos {
        Some(p) => {
            let name_part = trim_of(cs.substring_char(0, p));
            proof {
                assert(cut@.subrange(0, p as int) =~= cut@.take(p as int));
            }
            let name = match str_find_char(name_part.as_str(), '[') {
                Some(b) => {
                    proof {
                        lemma_find_spec(name_part@, '[');
                    }
                    let nb = name_part.as_str().substring_char(0, b);
                    proof {
                        assert(nb@ =~= name_part@.take(b as int));
                    }
                    trim_of(nb)
                },
                None => name_part,
            };
            let version = trim_of(cs.substring_char(p, cn));
            proof {
                assert(cut@.subrange(p as int, cn as int) =~= cut@.skip(p as int));
            }
            Some((name, version))
        },
        None => {
            if cn == 0 {
                return None;
            }
            let name = match str_find_char(cs, '[') {
                Some(b) => {
                    proof {
                        lemma_find_spec(cut@, '[');
                    }
                    let nb = cs.substring_char(0, b);
                    proof {
                        assert(nb@ =~= cut@.take(b as int));
                    }
                    trim_of(nb)
                },
                None => cut,
            };
            Some((name, String::from_str("*")))
        },
    }
}

/// Parser for `requirements.txt` manifest files.
pub struct RequirementsTxtParser;

impl RequirementsTxtParser {
    /// Create a new parser.
    pub fn new() -> (r: Self) {
        Self
    }

    /// The ecosystem this parser reads for.
    pub fn ecosystem(&self) -> (r: Ecosystem)
        ensures
            r == Ecosystem::Python,
    {
        Ecosystem::Python
    }

    /// The kind of file this parser reads.
    pub fn file_type(&self) -> (r: FileType)
        ensures
            r == FileType::Manifest,
    {
        FileType::Manifest
    }

    /// The filename this parser is recognized by.
    pub fn filename(&self) -> (r: &'static str)
        ensures
            r@ == "requirements.txt"@,
    {
        "requirements.txt"
    }

    /// Parse requirements content into dependency records, one per
    /// non-skipped line, each a Python manifest record from the given file.
    pub fn parse(&self, content: &str, file_path: &str) -> (r: Result<
        Vec<DependencyRecord>,
        ScanError,
    >)
        ensures
            r is Ok,
            ({
                let recs = r->Ok_0@;
                let entries = req_entries(lines_spec(content@));
                &&& recs.len() == entries.len()
                &&& forall|k: int|
                    #![trigger recs[k]]
                    0 <= k < entries.len() ==> recs[k].name@ == entries[k].0 && recs[k].version@
                        == entries[k].1 && recs[k].source_file@ == file_path@ && recs[k].dep_type
                        == DependencyType::Runtime && recs[k].ecosystem == Ecosystem::Python
                        && recs[k].file_type == FileType::Manifest
            }),
    {
        let lines = str_lines(content);
        let ghost lv = lines_spec(content@);
        let n = lines.len();
        let mut records: Vec<DependencyRecord> = Vec::new();
        proof {
            assert(lv.take(0) =~= Seq::<Seq<char>>::empty());
        }
        let mut i: usize = 0;
        while i < n
            invariant
                i <= n,
                n == lines@.len(),
                lv == lines_spec(content@),
                lines@.map_values(|x: String| x@) == lv,
                records@.len() == req_entries(lv.take(i as int)).len(),
                forall|k: int|
                    #![trigger records@[k]]
                    0 <= k < records@.len() ==> records@[k].name@ == req_entries(
                        lv.take(i as int),
                    )[k].0 && records@[k].version@ == req_entries(lv.take(i as int))[k].1
                        && records@[k].source_file@ == file_path@ && records@[k].dep_type
                        == DependencyType::Runtime && records@[k].ecosystem == Ecosystem::Python
                        && records@[k].file_type == FileType::Manifest,
            decreases n - i,
        {
            proof {
                assert(lv[i as int] == lines@.map_values(|x: String| x@)[i as int]);
                assert(lv.take(i + 1).drop_last() =~= lv.take(i as int));
                assert(lv.take(i + 1).last() == lv[i as int]);
            }
            let t = trim_of(lines[i].as_str());
            let ts = t.as_str();
            let tn = ts.unicode_len();
            let mut skipped = tn == 0;
            if !skipped && ts.get_char(0) == '#' {
                skipped = true;
            }
            if !skipped && str_starts_with(ts, "-r ") {
                skipped = true;
            }
            if !skipped && str_starts_with(ts, "-c ") {
                skipped = true;
            }
            if !skipped && str_starts_with(ts, "--requirement") {
                skipped = true;
            }
            if !skipped && str_starts_with(ts, "--constraint") {
                skipped = true;
            }
            if !skipped && str_starts_with(ts, "-e ") {
                skipped = true;
            }
            if !skipped && str_starts_with(ts, "git+") {
                skipped = true;
            }
            if !skipped && str_starts_with(ts, "http://") {
                skipped = true;
            }
            if !skipped && str_starts_with(ts, "https://") {
                skipped = true;
            }
            proof {
                assert(skipped == req_line_skipped(t@));
            }
            if !skipped {
                match parse_requirement_line(ts) {
                    Some((name, version)) => {
                        proof {
                            assert(requirement_line_spec(t@) is Some);
                        }
                        records.push(
                            DependencyRecord {
                                name,
                                version,
                                source_file: file_path.to_owned(),
                                dep_type: DependencyType::Runtime,
                                ecosystem: Ecosystem::Python,
                                file_type: FileType::Manifest,
                            },
                        );
                    },
                    None => {},
                }
            }
            i = i + 1;
        }
        proof {
            assert(lv.take(n as int) =~= lv);
        }
        Ok(records)
    }
}

} // verus!
