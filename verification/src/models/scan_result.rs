//! Aggregation of raw dependency records across a whole scan.

use vstd::prelude::*;
use crate::models::dependency::{DependencyRecord, Ecosystem};
use crate::text::{lex_le, str_eq_str, str_lex_le, lemma_lex_le_total};
use crate::seq_util::{lemma_insert_multiset, contains_name};

verus! {

/// Rank used to order ecosystems in sorted output; it equals the
/// alphabetical order of their lower-case labels.
pub open spec fn eco_rank(e: Ecosystem) -> int {
    match e {
        Ecosystem::Node => 0,
        Ecosystem::Python => 1,
        Ecosystem::Rust => 2,
    }
}

/// Sort key order on records: ecosystem, then name, then source file.
pub open spec fn record_le(a: DependencyRecord, b: DependencyRecord) -> bool {
    eco_rank(a.ecosystem) < eco_rank(b.ecosystem) || (eco_rank(a.ecosystem) == eco_rank(b.ecosystem)
        && ((lex_le(a.name@, b.name@) && a.name@ != b.name@) || (a.name@ == b.name@ && lex_le(
        a.source_file@,
        b.source_file@,
    ))))
}

/// `record_le` is total.
pub proof fn lemma_record_le_total(a: DependencyRecord, b: DependencyRecord)
    ensures
        record_le(a, b) || record_le(b, a),
{
    lemma_lex_le_total(a.name@, b.name@);
    lemma_lex_le_total(a.source_file@, b.source_file@);
}

/// Adjacent-pair sortedness of a record sequence under `record_le`.
pub open spec fn records_sorted(s: Seq<DependencyRecord>) -> bool {
    forall|k: int| #![trigger s[k]] 0 <= k < s.len() - 1 ==> record_le(s[k], s[k + 1])
}

/// Compare two records by ecosystem, name, then source file.
fn record_le_exec(a: &DependencyRecord, b: &DependencyRecord) -> (r: bool)
    ensures
        r == record_le(*a, *b),
{
    let ra = match a.ecosystem {
        Ecosystem::Node => 0u8,
        Ecosystem::Python => 1u8,
        Ecosystem::Rust => 2u8,
    };
    let rb = match b.ecosystem {
        Ecosystem::Node => 0u8,
        Ecosystem::Python => 1u8,
        Ecosystem::Rust => 2u8,
    };
    if ra < rb {
        true
    } else if ra > rb {
        false
    } else if str_eq_str(a.name.as_str(), b.name.as_str()) {
        str_lex_le(a.source_file.as_str(), b.source_file.as_str())
    } else {
        str_lex_le(a.name.as_str(), b.name.as_str())
    }
}

/// Aggregated scan results.
#[derive(Debug, Clone, Default)]
pub struct ScanResult {
    /// All discovered dependency records
    pub dependencies: Vec<DependencyRecord>,
}

impl ScanResult {
    /// Create an empty scan result.
    pub fn new() -> (r: Self)
        ensures
            r.dependencies@ =~= Seq::<DependencyRecord>::empty(),
    {
        Self { dependencies: Vec::new() }
    }

    /// Append one record.
    pub fn add(&mut self, record: DependencyRecord)
        ensures
            final(self).dependencies@ == old(self).dependencies@.push(record),
    {
        self.dependencies.push(record);
    }

    /// Append all given records, in order.
    pub fn add_all(&mut self, records: Vec<DependencyRecord>)
        ensures
            final(self).dependencies@ == old(self).dependencies@ + records@,
    {
        let mut records = records;
        self.dependencies.append(&mut records);
    }

    /// Total number of records.
    pub fn total_count(&self) -> (r: usize)
        ensures
            r == self.dependencies@.len(),
    {
        self.dependencies.len()
    }

    /// The records of one ecosystem, in order.
    pub fn by_ecosystem(&self, ecosystem: Ecosystem) -> (r: Vec<&DependencyRecord>)
        ensures
            r@.map_values(|d: &DependencyRecord| *d) == self.dependencies@.filter(
                |d: DependencyRecord| d.ecosystem == ecosystem,
            ),
    {
        let ghost pred = |d: DependencyRecord| d.ecosystem == ecosystem;
        let ghost f = |d: &DependencyRecord| *d;
        let n = self.dependencies.len();
        let mut out: Vec<&DependencyRecord> = Vec::new();
        proof {
            reveal(Seq::filter);
            assert(self.dependencies@.take(0) =~= Seq::<DependencyRecord>::empty());
            assert(out@.map_values(f) =~= self.dependencies@.take(0).filter(pred));
        }
        let mut i: usize = 0;
        while i < n
            invariant
                i <= n,
                n == self.dependencies@.len(),
                pred == (|d: DependencyRecord| d.ecosystem == ecosystem),
                f == (|d: &DependencyRecord| *d),
                out@.map_values(f) == self.dependencies@.take(i as int).filter(pred),
            decreases n - i,
        {
            let s = Ghost(self.dependencies@);
            let ghost prev = out@.map_values(f);
            proof {
                reveal(Seq::filter);
                assert(s@.take(i + 1).drop_last() =~= s@.take(i as int));
                assert(s@.take(i + 1).last() == s@[i as int]);
                assert(s@.take(i + 1).len() > 0);
            }
            if matches_eco(&self.dependencies[i], ecosystem) {
                out.push(&self.dependencies[i]);
                proof {
                    reveal(Seq::filter);
                    assert(out@.map_values(f) =~= prev.push(s@[i as int]));
                    assert(s@.take(i + 1).filter(pred) == s@.take(i as int).filter(pred).push(
                        s@[i as int],
                    ));
                }
            } else {
                proof {
                    reveal(Seq::filter);
                    assert(s@.take(i + 1).filter(pred) == s@.take(i as int).filter(pred));
                }
            }
            i = i + 1;
        }
        proof {
            assert(self.dependencies@.take(n as int) =~= self.dependencies@);
        }
        out
    }

    /// The records of one package name, in order.
    pub fn by_package(&self, name: &str) -> (r: Vec<&DependencyRecord>)
        ensures
            r@.map_values(|d: &DependencyRecord| *d) == self.dependencies@.filter(
                |d: DependencyRecord| d.name@ == name@,
            ),
    {
        let ghost pred = |d: DependencyRecord| d.name@ == name@;
        let ghost f = |d: &DependencyRecord| *d;
        let n = self.dependencies.len();
        let mut out: Vec<&DependencyRecord> = Vec::new();
        proof {
            reveal(Seq::filter);
            assert(self.dependencies@.take(0) =~= Seq::<DependencyRecord>::empty());
            assert(out@.map_values(f) =~= self.dependencies@.take(0).filter(pred));
        }
        let mut i: usize = 0;
        while i < n
            invariant
                i <= n,
                n == self.dependencies@.len(),
                pred == (|d: DependencyRecord| d.name@ == name@),
                f == (|d: &DependencyRecord| *d),
                out@.map_values(f) == self.dependencies@.take(i as int).filter(pred),
            decreases n - i,
        {
            let s = Ghost(self.dependencies@);
            let ghost prev = out@.map_values(f);
            proof {
                reveal(Seq::filter);
                assert(s@.take(i + 1).drop_last() =~= s@.take(i as int));
                assert(s@.take(i + 1).last() == s@[i as int]);
                assert(s@.take(i + 1).len() > 0);
            }
            if str_eq_str(self.dependencies[i].name.as_str(), name) {
                out.push(&self.dependencies[i]);
                proof {
                    reveal(Seq::filter);
                    assert(out@.map_values(f) =~= prev.push(s@[i as int]));
                    assert(s@.take(i + 1).filter(pred) == s@.take(i as int).filter(pred).push(
                        s@[i as int],
                    ));
                }
            } else {
                proof {
                    reveal(Seq::filter);
                    assert(s@.take(i + 1).filter(pred) == s@.take(i as int).filter(pred));
                }
            }
            i = i + 1;
        }
        proof {
            assert(self.dependencies@.take(n as int) =~= self.dependencies@);
        }
        out
    }

    /// The distinct package names, in ascending order.
    pub fn unique_packages(&self) -> (r: Vec<String>)
        ensures
            names_sorted_unique(r@),
            forall|k: int|
                #![trigger r@[k]]
                0 <= k < r@.len() ==> name_among(
                    self.dependencies@,
                    self.dependencies@.len() as int,
                    r@[k]@,
                ),
            forall|j: int|
                #![trigger self.dependencies@[j]]
                0 <= j < self.dependencies@.len() ==> contains_name(
                    r@,
                    self.dependencies@[j].name@,
                ),
    {
        let n = self.dependencies.len();
        let mut out: Vec<String> = Vec::new();
        let mut i: usize = 0;
        while i < n
            invariant
                i <= n,
                n == self.dependencies@.len(),
                names_sorted_unique(out@),
                forall|k: int|
                    #![trigger out@[k]]
                    0 <= k < out@.len() ==> name_among(self.dependencies@, i as int, out@[k]@),
                forall|j: int|
                    #![trigger self.dependencies@[j]]
                    0 <= j < i ==> contains_name(out@, self.dependencies@[j].name@),
            decreases n - i,
        {
            let ghost old_out = out@;
            insert_unique_name(&mut out, &self.dependencies[i].name);
            proof {
                let ghost deps = self.dependencies@;
                let ghost name_i = deps[i as int].name@;
                assert forall|k: int|
                    #![trigger out@[k]]
                    0 <= k < out@.len() implies name_among(deps, i + 1, out@[k]@) by {
                    if out@[k]@ == name_i {
                        assert(deps[i as int].name@ == out@[k]@);
                    } else {
                        assert(contains_name(old_out, out@[k]@));
                        let k0 = choose|k0: int| 0 <= k0 < old_out.len() && old_out[k0]@ == out@[k]@;
                        assert(name_among(deps, i as int, old_out[k0]@));
                        let j0 = choose|j0: int| 0 <= j0 < i && deps[j0].name@ == old_out[k0]@;
                        assert(deps[j0].name@ == out@[k]@);
                    }
                }
                assert forall|j: int|
                    #![trigger deps[j]]
                    0 <= j < i + 1 implies contains_name(out@, deps[j].name@) by {
                    if j == i {
                        assert(contains_name(out@, name_i));
                    } else {
                        assert(contains_name(old_out, deps[j].name@));
                        let k0 = choose|k0: int|
                            0 <= k0 < old_out.len() && old_out[k0]@ == deps[j].name@;
                        assert(contains_name(out@, old_out[k0]@));
                    }
                }
            }
            i = i + 1;
        }
        out
    }

    /// Per-ecosystem record counts, for the ecosystems that occur, in the
    /// order Node, Python, Rust; no ecosystem appears twice.
    pub fn ecosystem_stats(&self) -> (r: Vec<(Ecosystem, usize)>)
        ensures
            forall|k: int|
                #![trigger r@[k]]
                0 <= k < r@.len() ==> r@[k].1 == self.dependencies@.filter(
                    |d: DependencyRecord| d.ecosystem == r@[k].0,
                ).len() && r@[k].1 > 0,
            forall|k1: int, k2: int|
                #![trigger r@[k1], r@[k2]]
                0 <= k1 < k2 < r@.len() ==> eco_rank(r@[k1].0) < eco_rank(r@[k2].0),
            self.dependencies@.filter(|d: DependencyRecord| d.ecosystem == Ecosystem::Node).len()
                > 0 ==> exists|k: int| 0 <= k < r@.len() && r@[k].0 == Ecosystem::Node,
            self.dependencies@.filter(
                |d: DependencyRecord| d.ecosystem == Ecosystem::Python,
            ).len() > 0 ==> exists|k: int| 0 <= k < r@.len() && r@[k].0 == Ecosystem::Python,
            self.dependencies@.filter(|d: DependencyRecord| d.ecosystem == Ecosystem::Rust).len()
                > 0 ==> exists|k: int| 0 <= k < r@.len() && r@[k].0 == Ecosystem::Rust,
    {
        let node_count = self.by_ecosystem(Ecosystem::Node).len();
        let python_count = self.by_ecosystem(Ecosystem::Python).len();
        let rust_count = self.by_ecosystem(Ecosystem::Rust).len();
        let mut out: Vec<(Ecosystem, usize)> = Vec::new();
        if node_count > 0 {
            out.push((Ecosystem::Node, node_count));
        }
        if python_count > 0 {
            out.push((Ecosystem::Python, python_count));
        }
        if rust_count > 0 {
            out.push((Ecosystem::Rust, rust_count));
        }
        proof {
            if node_count > 0 {
                assert(out@[0].0 == Ecosystem::Node);
            }
            if python_count > 0 {
                if node_count > 0 {
                    assert(out@[1].0 == Ecosystem::Python);
                } else {
                    assert(out@[0].0 == Ecosystem::Python);
                }
            }
            if rust_count > 0 {
                assert(out@[out@.len() - 1].0 == Ecosystem::Rust);
            }
        }
        out
    }

    /// Sort records by ecosystem, package name, then source file.
    pub fn sort(&mut self)
        ensures
            records_sorted(final(self).dependencies@),
            final(self).dependencies@.to_multiset() == old(self).dependencies@.to_multiset(),
    {
        broadcast use vstd::seq_lib::group_to_multiset_ensures;

        let n = self.dependencies.len();
        let mut sorted: Vec<DependencyRecord> = Vec::new();
        let ghost orig = self.dependencies@;
        let mut i: usize = 0;
        proof {
            assert(orig.take(0) =~= Seq::<DependencyRecord>::empty());
            assert(sorted@.to_multiset() =~= orig.take(0).to_multiset());
        }
        while i < n
            invariant
                i <= n,
                n == self.dependencies@.len(),
                self.dependencies@ == orig,
                records_sorted(sorted@),
                sorted@.to_multiset() == orig.take(i as int).to_multiset(),
            decreases n - i,
        {
            let x = clone_record(&self.dependencies[i]);
            sorted_insert_record(&mut sorted, x);
            proof {
                orig.take(i as int).to_multiset_ensures();
                assert(orig.take(i + 1) =~= orig.take(i as int).push(orig[i as int]));
                assert(orig.take(i as int).push(orig[i as int]).to_multiset() =~= orig.take(
                    i as int,
                ).to_multiset().insert(orig[i as int]));
            }
            i = i + 1;
        }
        proof {
            assert(orig.take(n as int) =~= orig);
        }
        self.dependencies = sorted;
    }
}

/// Strictly ascending, duplicate-free name list.
pub open spec fn names_sorted_unique(s: Seq<String>) -> bool {
    forall|k: int|
        #![trigger s[k]]
        0 <= k < s.len() - 1 ==> lex_le(s[k]@, s[k + 1]@) && s[k]@ != s[k + 1]@
}

/// Some record among the first `hi` of `d` is named `x`.
pub open spec fn name_among(d: Seq<DependencyRecord>, hi: int, x: Seq<char>) -> bool {
    exists|j: int| 0 <= j < hi && j < d.len() && d[j].name@ == x
}

/// Insert a name into a strictly sorted name list unless it is already
/// present; the result holds exactly the old names plus the new one.
fn insert_unique_name(v: &mut Vec<String>, name: &String)
    requires
        names_sorted_unique(old(v)@),
    ensures
        names_sorted_unique(final(v)@),
        contains_name(final(v)@, name@),
        forall|k: int|
            #![trigger final(v)@[k]]
            0 <= k < final(v)@.len() ==> (final(v)@[k]@ == name@ || contains_name(
                old(v)@,
                final(v)@[k]@,
            )),
        forall|k0: int|
            #![trigger old(v)@[k0]]
            0 <= k0 < old(v)@.len() ==> contains_name(final(v)@, old(v)@[k0]@),
{
    let m = v.len();
    let mut pos: usize = 0;
    let mut seen = false;
    loop
        invariant_except_break
            !seen,
        invariant
            pos <= m,
            m == v@.len(),
            v@ == old(v)@,
            forall|k: int| 0 <= k < pos ==> lex_le(v@[k]@, name@) && v@[k]@ != name@,
        ensures
            pos <= m,
            m == v@.len(),
            v@ == old(v)@,
            forall|k: int| 0 <= k < pos ==> lex_le(v@[k]@, name@) && v@[k]@ != name@,
            seen ==> pos < m && v@[pos as int]@ == name@,
            !seen && pos < m ==> !lex_le(v@[pos as int]@, name@),
        decreases m - pos,
    {
        if pos < m {
            if str_eq_str(v[pos].as_str(), name.as_str()) {
                seen = true;
                break;
            }
            if str_lex_le(v[pos].as_str(), name.as_str()) {
                pos = pos + 1;
            } else {
                break;
            }
        } else {
            break;
        }
    }
    if seen {
        proof {
            assert(contains_name(v@, name@));
            assert forall|k0: int| #![trigger v@[k0]] 0 <= k0 < v@.len() implies contains_name(
                v@,
                v@[k0]@,
            ) by {
                assert(v@[k0]@ == v@[k0]@);
            }
        }
        return;
    }
    let ghost before = v@;
    v.insert(pos, name.clone());
    proof {
        assert(v@[pos as int]@ == name@);
        assert(contains_name(v@, name@));
        assert forall|k: int|
            #![trigger v@[k]]
            0 <= k < v@.len() - 1 implies lex_le(v@[k]@, v@[k + 1]@) && v@[k]@ != v@[k + 1]@ by {
            if k + 1 < pos {
                assert(v@[k] == before[k]);
                assert(v@[k + 1] == before[k + 1]);
            } else if k + 1 == pos {
                assert(v@[k] == before[k]);
                assert(v@[k + 1]@ == name@);
            } else if k == pos {
                assert(v@[k]@ == name@);
                assert(v@[k + 1] == before[k]);
                lemma_lex_le_total(v@[k]@, v@[k + 1]@);
            } else {
                assert(v@[k] == before[k - 1]);
                assert(v@[k + 1] == before[k]);
            }
        }
        assert forall|k: int|
            #![trigger v@[k]]
            0 <= k < v@.len() implies (v@[k]@ == name@ || contains_name(before, v@[k]@)) by {
            if k < pos {
                assert(v@[k] == before[k]);
                assert(contains_name(before, before[k]@));
            } else if k > pos {
                assert(v@[k] == before[k - 1]);
                assert(contains_name(before, before[k - 1]@));
            }
        }
        assert forall|k0: int|
            #![trigger before[k0]]
            0 <= k0 < before.len() implies contains_name(v@, before[k0]@) by {
            if k0 < pos {
                assert(v@[k0] == before[k0]);
            } else {
                assert(v@[k0 + 1] == before[k0]);
            }
        }
    }
}

/// Ecosystem equality test on a record.
fn matches_eco(d: &DependencyRecord, ecosystem: Ecosystem) -> (r: bool)
    ensures
        r == (d.ecosystem == ecosystem),
{
    d.ecosystem == ecosystem
}

/// Field-for-field copy of a record, with its contents pinned.
fn clone_record(d: &DependencyRecord) -> (r: DependencyRecord)
    ensures
        r == *d,
{
    DependencyRecord {
        name: d.name.clone(),
        version: d.version.clone(),
        source_file: d.source_file.clone(),
        dep_type: d.dep_type,
        ecosystem: d.ecosystem,
        file_type: d.file_type,
    }
}

/// Insert a record into a sorted vector, keeping it sorted.
fn sorted_insert_record(v: &mut Vec<DependencyRecord>, x: DependencyRecord)
    requires
        records_sorted(old(v)@),
    ensures
        records_sorted(final(v)@),
        final(v)@.to_multiset() == old(v)@.to_multiset().insert(x),
        final(v)@.len() == old(v)@.len() + 1,
{
    let n = v.len();
    let mut idx: usize = 0;
    loop
        invariant
            idx <= n,
            n == v@.len(),
            v@ == old(v)@,
            forall|j: int| 0 <= j < idx ==> record_le(v@[j], x),
        ensures
            idx <= n,
            n == v@.len(),
            v@ == old(v)@,
            forall|j: int| 0 <= j < idx ==> record_le(v@[j], x),
            idx < n ==> !record_le(v@[idx as int], x),
        decreases n - idx,
    {
        if idx < n {
            if record_le_exec(&v[idx], &x) {
                idx = idx + 1;
            } else {
                break;
            }
        } else {
            break;
        }
    }
    let ghost before = v@;
    v.insert(idx, x);
    proof {
        lemma_insert_multiset(before, idx as int, x);
        assert forall|k: int| #![trigger v@[k]] 0 <= k < v@.len() - 1 implies record_le(
            v@[k],
            v@[k + 1],
        ) by {
            if k + 1 < idx {
                assert(v@[k] == before[k]);
                assert(v@[k + 1] == before[k + 1]);
            } else if k + 1 == idx {
                assert(v@[k] == before[k]);
                assert(v@[k + 1] == x);
            } else if k == idx {
                assert(v@[k] == x);
                assert(v@[k + 1] == before[k]);
                lemma_record_le_total(v@[k], v@[k + 1]);
            } else {
                assert(v@[k] == before[k - 1]);
                assert(v@[k + 1] == before[k]);
            }
        }
    }
}

} // verus!
