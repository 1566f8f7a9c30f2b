//! Infected-package filter: matches classified entities against a known-bad
//! package list and sorts the hits by classification priority.
//!
//! An exact version hit on installed (Has) or locked (Should) evidence is
//! `Infected`. A manifest range (Can) that could admit a bad version is
//! `MatchVersion`. A name on the list with no version evidence is
//! `MatchPackage`. A name not on the list carries no risk marker.

use vstd::prelude::*;
use crate::analyzer::version_matcher::{satisfies_spec, VersionMatcher};
use crate::models::classification::{ClassEntry, Classification, ClassifiedDependency};
use crate::models::error::ScanError;
use crate::seq_util::{contains_name, lemma_insert_multiset};
use crate::text::{
    find_spec, lemma_find_spec, lex_le, lines_spec, lemma_lex_le_total, str_eq_str, str_find_char,
    str_lex_le, str_lines, trim_spec, trim_of,
};

verus! {

/// An infected package: a name and the set of versions known bad. An empty
/// version list means every version of the name is bad.
#[derive(Debug, Clone)]
pub struct InfectedPackage {
    /// Package name
    pub name: String,
    /// Known-bad versions; empty means all versions
    pub versions: Vec<String>,
}

/// Whether an entry under a classification is an exact hit on the infected
/// version list (any version when the list is empty).
pub open spec fn entry_hit(ip: InfectedPackage, entry: Option<ClassEntry>) -> bool {
    entry is Some && (ip.versions@.len() == 0 || contains_name(
        ip.versions@,
        entry->Some_0.version@,
    ))
}

/// Whether the entity's Can range could admit some infected version under
/// the entity's ecosystem grammar (any range when the list is empty).
pub open spec fn can_hit(ip: InfectedPackage, dep: ClassifiedDependency) -> bool {
    dep.can_entry is Some && (ip.versions@.len() == 0 || exists|k: int|
        0 <= k < ip.versions@.len() && satisfies_spec(
            ip.versions@[k]@,
            dep.can_entry->Some_0.version@,
            dep.ecosystem,
        ) == Some(true))
}

impl InfectedPackage {
    /// Create an infected package entry.
    pub fn new(name: String, versions: Vec<String>) -> (r: Self)
        ensures
            r.name == name,
            r.versions == versions,
    {
        Self { name, versions }
    }

    /// What `matches` decides: the names agree, and either every version is
    /// bad or the entity's primary version is on the list.
    pub open spec fn matches_spec(self, dep: ClassifiedDependency) -> bool {
        &&& dep.name@ == self.name@
        &&& (self.versions@.len() == 0 || (dep.primary_version_spec() is Some && contains_name(
            self.versions@,
            dep.primary_version_spec()->0,
        )))
    }

    /// Whether this infected entry matches a classified entity by name and
    /// primary version.
    pub fn matches(&self, dep: &ClassifiedDependency) -> (r: bool)
        ensures
            r == self.matches_spec(*dep),
    {
        if !str_eq_str(dep.name.as_str(), self.name.as_str()) {
            return false;
        }
        if self.versions.is_empty() {
            return true;
        }
        match dep.get_primary_version() {
            Some(v) => contains_version(&self.versions, v),
            None => false,
        }
    }

    /// The entity's primary version when this entry condemns it: the
    /// version itself, whatever the names are.
    pub fn get_matched_version(&self, dep: &ClassifiedDependency) -> (r: Option<String>)
        ensures
            match dep.primary_version_spec() {
                Some(v) => {
                    if self.versions@.len() == 0 || contains_name(self.versions@, v) {
                        r is Some && r->0@ == v
                    } else {
                        r is None
                    }
                },
                None => r is None,
            },
    {
        match dep.get_primary_version() {
            Some(v) => {
                if self.versions.is_empty() || contains_version(&self.versions, v) {
                    Some(v.to_owned())
                } else {
                    None
                }
            },
            None => None,
        }
    }
}

/// Whether `v` occurs in the version list.
fn contains_version(versions: &Vec<String>, v: &str) -> (r: bool)
    ensures
        r == contains_name(versions@, v@),
{
    let n = versions.len();
    let mut i: usize = 0;
    loop
        invariant
            i <= n,
            n == versions@.len(),
            forall|j: int| 0 <= j < i ==> versions@[j]@ != v@,
        ensures
            i <= n,
            n == versions@.len(),
            forall|j: int| 0 <= j < i ==> versions@[j]@ != v@,
            i < n ==> versions@[i as int]@ == v@,
        decreases n - i,
    {
        if i < n {
            if str_eq_str(versions[i].as_str(), v) {
                break;
            }
            i = i + 1;
        } else {
            break;
        }
    }
    i < n
}

/// Security status of a classified entity against the infected list, in
/// ascending priority.
#[derive(Debug, Clone, Copy, PartialEq, Eq, Structural)]
pub enum SecurityStatus {
    /// Exact version hit in Has or Should evidence
    Infected,
    /// The Can range could admit an infected version
    MatchVersion,
    /// Name on the list, no version evidence
    MatchPackage,
    /// Name not on the list
    NotListed,
}

impl SecurityStatus {
    /// Priority for sorting: lower is more severe.
    pub fn priority(&self) -> (r: u8)
        ensures
            *self == SecurityStatus::Infected ==> r == 0,
            *self == SecurityStatus::MatchVersion ==> r == 1,
            *self == SecurityStatus::MatchPackage ==> r == 2,
            *self == SecurityStatus::NotListed ==> r == 3,
    {
        match self {
            SecurityStatus::Infected => 0,
            SecurityStatus::MatchVersion => 1,
            SecurityStatus::MatchPackage => 2,
            SecurityStatus::NotListed => 3,
        }
    }

    /// The label this status serializes to.
    pub fn as_str(&self) -> (r: &'static str)
        ensures
            *self == SecurityStatus::NotListed ==> r@ == "NONE"@,
            *self == SecurityStatus::MatchPackage ==> r@ == "MATCH_PACKAGE"@,
            *self == SecurityStatus::MatchVersion ==> r@ == "MATCH_VERSION"@,
            *self == SecurityStatus::Infected ==> r@ == "INFECTED"@,
    {
        match self {
            SecurityStatus::NotListed => "NONE",
            SecurityStatus::MatchPackage => "MATCH_PACKAGE",
            SecurityStatus::MatchVersion => "MATCH_VERSION",
            SecurityStatus::Infected => "INFECTED",
        }
    }
}

/// First table entry with the given name.
pub open spec fn ip_lookup(table: Seq<InfectedPackage>, name: Seq<char>) -> Option<InfectedPackage>
    decreases table.len(),
{
    if table.len() == 0 {
        Option::None
    } else if table[0].name@ == name {
        Option::Some(table[0])
    } else {
        ip_lookup(table.drop_first(), name)
    }
}

/// `ip_lookup` finds the first entry with the name, or nothing when no
/// entry has it.
pub proof fn lemma_ip_lookup(table: Seq<InfectedPackage>, name: Seq<char>)
    ensures
        match ip_lookup(table, name) {
            Option::Some(ip) => exists|i: int|
                0 <= i < table.len() && table[i] == ip && table[i].name@ == name && forall|j: int|
                    0 <= j < i ==> table[j].name@ != name,
            Option::None => forall|j: int| 0 <= j < table.len() ==> table[j].name@ != name,
        },
    decreases table.len(),
{
    if table.len() == 0 {
    } else if table[0].name@ == name {
        assert(table[0] == table[0]);
    } else {
        lemma_ip_lookup(table.drop_first(), name);
        let t = table.drop_first();
        match ip_lookup(t, name) {
            Option::Some(ip) => {
                let i = choose|i: int|
                    0 <= i < t.len() && t[i] == ip && t[i].name@ == name && forall|j: int|
                        0 <= j < i ==> t[j].name@ != name;
                assert(table[i + 1] == t[i]);
                assert(forall|j: int| 1 <= j < i + 1 ==> table[j] == t[j - 1]);
            },
            Option::None => {
                assert(forall|j: int| 1 <= j < table.len() ==> table[j] == t[j - 1]);
            },
        }
    }
}

/// The status the filter assigns to an entity against a table.
pub open spec fn status_spec(table: Seq<InfectedPackage>, dep: ClassifiedDependency) -> SecurityStatus {
    match ip_lookup(table, dep.name@) {
        Option::None => SecurityStatus::NotListed,
        Option::Some(ip) => {
            if entry_hit(ip, dep.has_entry) || entry_hit(ip, dep.should_entry) {
                SecurityStatus::Infected
            } else if can_hit(ip, dep) {
                SecurityStatus::MatchVersion
            } else {
                SecurityStatus::MatchPackage
            }
        },
    }
}

/// Classification priority of an entity: Has 0, Should 1, Can 2, none 3.
pub open spec fn priority_spec(dep: ClassifiedDependency) -> int {
    if dep.has_entry is Some {
        0
    } else if dep.should_entry is Some {
        1
    } else if dep.can_entry is Some {
        2
    } else {
        3
    }
}

/// Order on entities by classification priority, ties by name.
pub open spec fn dep_le(a: ClassifiedDependency, b: ClassifiedDependency) -> bool {
    priority_spec(a) < priority_spec(b) || (priority_spec(a) == priority_spec(b) && lex_le(
        a.name@,
        b.name@,
    ))
}

/// `dep_le` is total.
pub proof fn lemma_dep_le_total(a: ClassifiedDependency, b: ClassifiedDependency)
    ensures
        dep_le(a, b) || dep_le(b, a),
{
    lemma_lex_le_total(a.name@, b.name@);
}

/// Adjacent-pair sortedness under `dep_le`.
pub open spec fn deps_sorted(s: Seq<ClassifiedDependency>) -> bool {
    forall|k: int| #![trigger s[k]] 0 <= k < s.len() - 1 ==> dep_le(s[k], s[k + 1])
}

/// One step of the stable insertion sort: `x` is placed after every entity
/// of `s` that compares less-or-equal under `dep_le`.
pub open spec fn stable_insert_dep(
    s: Seq<ClassifiedDependency>,
    x: ClassifiedDependency,
) -> Seq<ClassifiedDependency>
    decreases s.len(),
{
    if s.len() == 0 {
        seq![x]
    } else if dep_le(s[0], x) {
        seq![s[0]] + stable_insert_dep(s.drop_first(), x)
    } else {
        seq![x] + s
    }
}

/// The stable sort of a batch under `dep_le`: entities are inserted left to
/// right, each after every entity already placed that compares
/// less-or-equal, so two entities equal under the order keep their input
/// order.
pub open spec fn stable_sort_deps(s: Seq<ClassifiedDependency>) -> Seq<ClassifiedDependency>
    decreases s.len(),
{
    if s.len() == 0 {
        Seq::empty()
    } else {
        stable_insert_dep(stable_sort_deps(s.drop_last()), s.last())
    }
}

/// Inserting at the first position whose entity does not compare
/// less-or-equal to `x` is the stable insertion.
proof fn lemma_stable_insert_at(s: Seq<ClassifiedDependency>, x: ClassifiedDependency, idx: int)
    requires
        0 <= idx <= s.len(),
        forall|j: int| 0 <= j < idx ==> dep_le(s[j], x),
        idx < s.len() ==> !dep_le(s[idx as int], x),
    ensures
        stable_insert_dep(s, x) == s.insert(idx, x),
    decreases s.len(),
{
    if s.len() == 0 {
        assert(stable_insert_dep(s, x) =~= s.insert(0, x));
    } else if dep_le(s[0], x) {
        assert(idx >= 1);
        let t = s.drop_first();
        assert(forall|j: int| 0 <= j < idx - 1 ==> t[j] == s[j + 1]);
        lemma_stable_insert_at(t, x, idx - 1);
        assert(stable_insert_dep(s, x) =~= s.insert(idx, x)) by {
            assert(stable_insert_dep(s, x) == seq![s[0]] + t.insert(idx - 1, x));
            assert forall|k: int| 0 <= k < s.insert(idx, x).len() implies (seq![s[0]] + t.insert(
                idx - 1,
                x,
            ))[k] == s.insert(idx, x)[k] by {
                if k == 0 {
                } else if k < idx {
                    assert(t.insert(idx - 1, x)[k - 1] == t[k - 1]);
                    assert(s.insert(idx, x)[k] == s[k]);
                } else if k == idx {
                    assert(t.insert(idx - 1, x)[k - 1] == x);
                } else {
                    assert(t.insert(idx - 1, x)[k - 1] == t[k - 2]);
                    assert(s.insert(idx, x)[k] == s[k - 1]);
                }
            }
        }
    } else {
        assert(idx == 0);
        assert(stable_insert_dep(s, x) =~= s.insert(0, x));
    }
}

/// In a sorted batch, classification priorities never decrease: every
/// Has-classified entity stands before every Should-only entity, which
/// stands before every Can-only entity; ties are ordered by name.
pub proof fn lemma_sorted_priorities(s: Seq<ClassifiedDependency>)
    requires
        deps_sorted(s),
    ensures
        forall|k1: int, k2: int|
            0 <= k1 < k2 < s.len() ==> priority_spec(#[trigger] s[k1]) <= priority_spec(
                #[trigger] s[k2],
            ),
    decreases s.len(),
{
    if s.len() > 1 {
        assert(deps_sorted(s.drop_first())) by {
            assert forall|k: int|
                #![trigger s.drop_first()[k]]
                0 <= k < s.drop_first().len() - 1 implies dep_le(
                s.drop_first()[k],
                s.drop_first()[k + 1],
            ) by {
                assert(s.drop_first()[k] == s[k + 1]);
                assert(s.drop_first()[k + 1] == s[k + 2]);
            }
        }
        lemma_sorted_priorities(s.drop_first());
        assert forall|k1: int, k2: int| 0 <= k1 < k2 < s.len() implies priority_spec(
            #[trigger] s[k1],
        ) <= priority_spec(#[trigger] s[k2]) by {
            if k1 == 0 {
                assert(dep_le(s[0], s[1]));
                if k2 > 1 {
                    assert(s.drop_first()[0] == s[1]);
                    assert(s.drop_first()[k2 - 1] == s[k2]);
                    assert(priority_spec(s[1]) <= priority_spec(s[k2]));
                }
            } else {
                assert(s.drop_first()[k1 - 1] == s[k1]);
                assert(s.drop_first()[k2 - 1] == s[k2]);
            }
        }
    }
}

/// Infected-package filter holding the known-bad list.
pub struct InfectedPackageFilter {
    infected_packages: Vec<InfectedPackage>,
}

impl InfectedPackageFilter {
    /// The table of infected entries, in insertion order.
    pub closed spec fn table(self) -> Seq<InfectedPackage> {
        self.infected_packages@
    }

    /// Create an empty filter.
    pub fn new() -> (r: Self)
        ensures
            r.table() =~= Seq::<InfectedPackage>::empty(),
    {
        Self { infected_packages: Vec::new() }
    }

    /// Add an infected package, replacing an earlier entry with the same
    /// name.
    pub fn add_infected_package(&mut self, infected: InfectedPackage)
        ensures
            final(self).table() == match ip_first_idx(old(self).table(), infected.name@) {
                Option::Some(i) => old(self).table().update(i, infected),
                Option::None => old(self).table().push(infected),
            },
    {
        let n = self.infected_packages.len();
        let mut i: usize = 0;
        loop
            invariant
                i <= n,
                n == self.infected_packages@.len(),
                forall|j: int| 0 <= j < i ==> self.infected_packages@[j].name@ != infected.name@,
            ensures
                i <= n,
                n == self.infected_packages@.len(),
                self.infected_packages@ == old(self).infected_packages@,
                forall|j: int| 0 <= j < i ==> self.infected_packages@[j].name@ != infected.name@,
                i < n ==> self.infected_packages@[i as int].name@ == infected.name@,
            decreases n - i,
        {
            if i < n {
                if str_eq_str(self.infected_packages[i].name.as_str(), infected.name.as_str()) {
                    break;
                }
                i = i + 1;
            } else {
                break;
            }
        }
        proof {
            lemma_ip_first_idx(old(self).table(), infected.name@);
        }
        if i < n {
            self.infected_packages.set(i, infected);
        } else {
            self.infected_packages.push(infected);
        }
    }

    /// Number of infected entries loaded.
    pub fn count(&self) -> (r: usize)
        ensures
            r == self.table().len(),
    {
        self.infected_packages.len()
    }

    /// The security status of one entity against the loaded table.
    pub fn get_security_status(&self, dep: &ClassifiedDependency) -> (r: SecurityStatus)
        ensures
            r == status_spec(self.table(), *dep),
    {
        proof {
            lemma_ip_lookup(self.table(), dep.name@);
        }
        let n = self.infected_packages.len();
        let mut i: usize = 0;
        loop
            invariant
                i <= n,
                n == self.infected_packages@.len(),
                forall|j: int| 0 <= j < i ==> self.infected_packages@[j].name@ != dep.name@,
            ensures
                i <= n,
                n == self.infected_packages@.len(),
                forall|j: int| 0 <= j < i ==> self.infected_packages@[j].name@ != dep.name@,
                i < n ==> self.infected_packages@[i as int].name@ == dep.name@,
            decreases n - i,
        {
            if i < n {
                if str_eq_str(self.infected_packages[i].name.as_str(), dep.name.as_str()) {
                    break;
                }
                i = i + 1;
            } else {
                break;
            }
        }
        if i >= n {
            return SecurityStatus::NotListed;
        }
        let infected = &self.infected_packages[i];
        proof {
            assert(ip_lookup(self.table(), dep.name@) == Option::Some(*infected)) by {
                match ip_lookup(self.table(), dep.name@) {
                    Option::Some(ip) => {
                        let w = choose|w: int|
                            0 <= w < self.table().len() && self.table()[w] == ip
                                && self.table()[w].name@ == dep.name@ && forall|j: int|
                                0 <= j < w ==> self.table()[j].name@ != dep.name@;
                        assert(w == i);
                    },
                    Option::None => {
                        assert(false);
                    },
                }
            }
        }
        match dep.get_version(Classification::Has) {
            Some(has_version) => {
                if infected.versions.is_empty() || contains_version(&infected.versions, has_version) {
                    return SecurityStatus::Infected;
                }
            },
            None => {},
        }
        match dep.get_version(Classification::Should) {
            Some(should_version) => {
                if infected.versions.is_empty() || contains_version(
                    &infected.versions,
                    should_version,
                ) {
                    return SecurityStatus::Infected;
                }
            },
            None => {},
        }
        match dep.get_version(Classification::Can) {
            Some(can_version) => {
                if Self::semver_could_match(can_version, &infected.versions, dep) {
                    return SecurityStatus::MatchVersion;
                }
            },
            None => {},
        }
        SecurityStatus::MatchPackage
    }

    /// Whether any infected version satisfies the entity's Can range (or
    /// the list is empty, in which case any range could match).
    fn semver_could_match(range: &str, versions: &Vec<String>, dep: &ClassifiedDependency) -> (r:
        bool)
        requires
            dep.can_entry is Some,
            range@ == dep.can_entry->Some_0.version@,
        ensures
            r == (versions@.len() == 0 || exists|k: int|
                0 <= k < versions@.len() && satisfies_spec(
                    versions@[k]@,
                    dep.can_entry->Some_0.version@,
                    dep.ecosystem,
                ) == Some(true)),
    {
        if versions.is_empty() {
            return true;
        }
        let matcher = VersionMatcher::new();
        let n = versions.len();
        let mut i: usize = 0;
        loop
            invariant
                i <= n,
                n == versions@.len(),
                range@ == dep.can_entry->Some_0.version@,
                forall|j: int|
                    0 <= j < i ==> satisfies_spec(
                        versions@[j]@,
                        dep.can_entry->Some_0.version@,
                        dep.ecosystem,
                    ) != Some(true),
            ensures
                i <= n,
                n == versions@.len(),
                forall|j: int|
                    0 <= j < i ==> satisfies_spec(
                        versions@[j]@,
                        dep.can_entry->Some_0.version@,
                        dep.ecosystem,
                    ) != Some(true),
                i < n ==> satisfies_spec(
                    versions@[i as int]@,
                    dep.can_entry->Some_0.version@,
                    dep.ecosystem,
                ) == Some(true),
            decreases n - i,
        {
            if i < n {
                match matcher.satisfies_range(versions[i].as_str(), range, dep.ecosystem) {
                    Ok(true) => {
                        break;
                    },
                    _ => {
                        i = i + 1;
                    },
                }
            } else {
                break;
            }
        }
        i < n
    }

    /// Whether the entity's status is `Infected`.
    pub fn is_infected(&self, dep: &ClassifiedDependency) -> (r: bool)
        ensures
            r == (status_spec(self.table(), *dep) == SecurityStatus::Infected),
    {
        let status = self.get_security_status(dep);
        match status {
            SecurityStatus::Infected => true,
            _ => false,
        }
    }

    /// Keep only the entities whose status is `Infected`, in order.
    pub fn filter(&self, dependencies: Vec<ClassifiedDependency>) -> (r: Vec<ClassifiedDependency>)
        ensures
            r@ == dependencies@.filter(
                |d: ClassifiedDependency| status_spec(self.table(), d)
                    == SecurityStatus::Infected,
            ),
    {
        let ghost pred = |d: ClassifiedDependency| status_spec(self.table(), d)
            == SecurityStatus::Infected;
        let ghost orig = dependencies@;
        let mut dependencies = dependencies;
        let mut out: Vec<ClassifiedDependency> = Vec::new();
        let n = dependencies.len();
        proof {
            reveal(Seq::filter);
            assert(orig.take(0) =~= Seq::<ClassifiedDependency>::empty());
            assert(out@ =~= orig.take(0).filter(pred));
        }
        let mut i: usize = 0;
        while i < n
            invariant
                i <= n,
                n == orig.len(),
                dependencies@ == orig.skip(i as int),
                pred == (|d: ClassifiedDependency| status_spec(self.table(), d)
                    == SecurityStatus::Infected),
                out@ == orig.take(i as int).filter(pred),
            decreases n - i,
        {
            proof {
                reveal(Seq::filter);
                assert(dependencies@[0] == orig[i as int]);
                assert(orig.take(i + 1).drop_last() =~= orig.take(i as int));
                assert(orig.take(i + 1).last() == orig[i as int]);
            }
            let dep = dependencies.remove(0);
            let keep = self.is_infected(&dep);
            if keep {
                out.push(dep);
            }
            proof {
                assert(dependencies@ =~= orig.skip(i + 1));
            }
            i = i + 1;
        }
        proof {
            assert(orig.take(n as int) =~= orig);
        }
        out
    }

    /// Classification priority of an entity, lower first.
    pub fn get_priority(&self, dep: &ClassifiedDependency) -> (r: u8)
        ensures
            r as int == priority_spec(*dep),
    {
        if dep.has_classification(Classification::Has) {
            0
        } else if dep.has_classification(Classification::Should) {
            1
        } else if dep.has_classification(Classification::Can) {
            2
        } else {
            3
        }
    }

    /// Keep only infected entities and stable-sort them by classification
    /// priority (Has first), ties by name ascending; entities equal in both
    /// priority and name keep their input order.
    pub fn filter_and_sort(&self, dependencies: Vec<ClassifiedDependency>) -> (r: Vec<
        ClassifiedDependency,
    >)
        ensures
            deps_sorted(r@),
            r@ == stable_sort_deps(
                dependencies@.filter(
                    |d: ClassifiedDependency| status_spec(self.table(), d)
                        == SecurityStatus::Infected,
                ),
            ),
            r@.to_multiset() == dependencies@.filter(
                |d: ClassifiedDependency| status_spec(self.table(), d)
                    == SecurityStatus::Infected,
            ).to_multiset(),
    {
        let kept = self.filter(dependencies);
        let ghost orig = kept@;
        let mut kept = kept;
        let mut sorted: Vec<ClassifiedDependency> = Vec::new();
        let n = kept.len();
        proof {
            broadcast use vstd::seq_lib::group_to_multiset_ensures;

            assert(orig.take(0) =~= Seq::<ClassifiedDependency>::empty());
            assert(sorted@.to_multiset() =~= orig.take(0).to_multiset());
            assert(sorted@ =~= stable_sort_deps(orig.take(0)));
        }
        let mut i: usize = 0;
        while i < n
            invariant
                i <= n,
                n == orig.len(),
                kept@ == orig.skip(i as int),
                deps_sorted(sorted@),
                sorted@ == stable_sort_deps(orig.take(i as int)),
                sorted@.to_multiset() == orig.take(i as int).to_multiset(),
            decreases n - i,
        {
            proof {
                assert(kept@[0] == orig[i as int]);
            }
            let x = kept.remove(0);
            let ghost before = sorted@;
            sorted_insert_dep(&mut sorted, x);
            proof {
                assert(orig.take(i + 1).drop_last() =~= orig.take(i as int));
                assert(orig.take(i + 1).last() == orig[i as int]);
                assert(sorted@ == stable_insert_dep(before, orig[i as int]));
                assert(sorted@ == stable_sort_deps(orig.take(i + 1)));
            }
            proof {
                broadcast use vstd::seq_lib::group_to_multiset_ensures;

                orig.take(i as int).to_multiset_ensures();
                assert(orig.take(i + 1) =~= orig.take(i as int).push(orig[i as int]));
                assert(orig.take(i as int).push(orig[i as int]).to_multiset() =~= orig.take(
                    i as int,
                ).to_multiset().insert(orig[i as int]));
                assert(kept@ =~= orig.skip(i + 1));
            }
            i = i + 1;
        }
        proof {
            assert(orig.take(n as int) =~= orig);
        }
        sorted
    }
}

impl Default for InfectedPackageFilter {
    /// A default filter has an empty table.
    fn default() -> (r: Self) {
        Self::new()
    }
}

/// First index of a table entry with the given name.
pub open spec fn ip_first_idx(table: Seq<InfectedPackage>, name: Seq<char>) -> Option<int>
    decreases table.len(),
{
    if table.len() == 0 {
        Option::None
    } else if table[0].name@ == name {
        Option::Some(0int)
    } else {
        match ip_first_idx(table.drop_first(), name) {
            Option::Some(i) => Option::Some(i + 1),
            Option::None => Option::None,
        }
    }
}

/// `ip_first_idx` is the first index holding the name, or nothing.
pub proof fn lemma_ip_first_idx(table: Seq<InfectedPackage>, name: Seq<char>)
    ensures
        match ip_first_idx(table, name) {
            Option::Some(i) => 0 <= i < table.len() && table[i].name@ == name && forall|j: int|
                0 <= j < i ==> table[j].name@ != name,
            Option::None => forall|j: int| 0 <= j < table.len() ==> table[j].name@ != name,
        },
    decreases table.len(),
{
    if table.len() == 0 {
    } else if table[0].name@ == name {
    } else {
        lemma_ip_first_idx(table.drop_first(), name);
        let t = table.drop_first();
        match ip_first_idx(t, name) {
            Option::Some(i) => {
                assert(table[i + 1] == t[i]);
                assert(forall|j: int| 1 <= j < i + 1 ==> table[j] == t[j - 1]);
            },
            Option::None => {
                assert(forall|j: int| 1 <= j < table.len() ==> table[j] == t[j - 1]);
            },
        }
    }
}

/// What one line of an infected-package list means.
pub enum CsvLine {
    /// Blank line or comment: ignored
    Skipped,
    /// A line without a comma: a fatal format error
    Malformed,
    /// A package name with its set of known-bad versions
    Entry(Seq<char>, Seq<Seq<char>>),
}

/// The versions a pipe-delimited list yields: each piece trimmed, empty
/// pieces dropped.
pub open spec fn pipe_versions(s: Seq<char>) -> Seq<Seq<char>>
    decreases s.len(),
    via pipe_versions_decreases
{
    match find_spec(s, '|') {
        Option::Some(i) => {
            let head = trim_spec(s.take(i));
            if head.len() > 0 {
                seq![head] + pipe_versions(s.skip(i + 1))
            } else {
                pipe_versions(s.skip(i + 1))
            }
        },
        Option::None => {
            let t = trim_spec(s);
            if t.len() > 0 {
                seq![t]
            } else {
                Seq::empty()
            }
        },
    }
}

#[via_fn]
proof fn pipe_versions_decreases(s: Seq<char>) {
    lemma_find_spec(s, '|');
}

/// What one line of the list means: blank lines and `#` comments are
/// skipped, a line without a comma is malformed, and any other line is a
/// name with its pipe-delimited version set.
pub open spec fn csv_line_spec(line: Seq<char>) -> CsvLine {
    let t = trim_spec(line);
    if t.len() == 0 || t[0] == '#' {
        CsvLine::Skipped
    } else {
        match find_spec(t, ',') {
            Option::None => CsvLine::Malformed,
            Option::Some(c) => CsvLine::Entry(
                trim_spec(t.take(c)),
                pipe_versions(trim_spec(t.skip(c + 1))),
            ),
        }
    }
}

/// Index of the first malformed line.
pub open spec fn first_bad(lines: Seq<Seq<char>>) -> Option<int>
    decreases lines.len(),
{
    if lines.len() == 0 {
        Option::None
    } else if csv_line_spec(lines[0]) is Malformed {
        Option::Some(0int)
    } else {
        match first_bad(lines.drop_first()) {
            Option::Some(i) => Option::Some(i + 1),
            Option::None => Option::None,
        }
    }
}

/// `first_bad` is the first malformed index, or nothing.
pub proof fn lemma_first_bad(lines: Seq<Seq<char>>)
    ensures
        match first_bad(lines) {
            Option::Some(i) => 0 <= i < lines.len() && csv_line_spec(lines[i]) is Malformed
                && forall|j: int| 0 <= j < i ==> !(csv_line_spec(#[trigger] lines[j]) is Malformed),
            Option::None => forall|j: int|
                0 <= j < lines.len() ==> !(csv_line_spec(#[trigger] lines[j]) is Malformed),
        },
    decreases lines.len(),
{
    if lines.len() == 0 {
    } else if csv_line_spec(lines[0]) is Malformed {
    } else {
        lemma_first_bad(lines.drop_first());
        let t = lines.drop_first();
        assert(forall|j: int| 0 <= j < t.len() ==> t[j] == lines[j + 1]);
        match first_bad(t) {
            Option::Some(i2) => {
                assert(lines[i2 + 1] == t[i2]);
                assert forall|j: int| 0 <= j < i2 + 1 implies !(csv_line_spec(
                    #[trigger] lines[j],
                ) is Malformed) by {
                    if j >= 1 {
                        assert(t[j - 1] == lines[j]);
                    }
                }
            },
            Option::None => {
                assert forall|j: int| 0 <= j < lines.len() implies !(csv_line_spec(
                    #[trigger] lines[j],
                ) is Malformed) by {
                    if j >= 1 {
                        assert(t[j - 1] == lines[j]);
                    }
                }
            },
        }
    }
}

/// The table as plain values: each entry's name view with its version
/// views.
pub open spec fn table_view(t: Seq<InfectedPackage>) -> Seq<(Seq<char>, Seq<Seq<char>>)> {
    t.map_values(|ip: InfectedPackage| (ip.name@, ip.versions@.map_values(|v: String| v@)))
}

/// First view-table index with the given name.
pub open spec fn view_first_idx(tv: Seq<(Seq<char>, Seq<Seq<char>>)>, name: Seq<char>) -> Option<
    int,
>
    decreases tv.len(),
{
    if tv.len() == 0 {
        Option::None
    } else if tv[0].0 == name {
        Option::Some(0int)
    } else {
        match view_first_idx(tv.drop_first(), name) {
            Option::Some(i) => Option::Some(i + 1),
            Option::None => Option::None,
        }
    }
}

/// `view_first_idx` is the first index holding the name, or nothing.
pub proof fn lemma_view_first_idx(tv: Seq<(Seq<char>, Seq<Seq<char>>)>, name: Seq<char>)
    ensures
        match view_first_idx(tv, name) {
            Option::Some(i) => 0 <= i < tv.len() && tv[i].0 == name && forall|j: int|
                0 <= j < i ==> (#[trigger] tv[j]).0 != name,
            Option::None => forall|j: int| 0 <= j < tv.len() ==> (#[trigger] tv[j]).0 != name,
        },
    decreases tv.len(),
{
    if tv.len() == 0 {
    } else if tv[0].0 == name {
    } else {
        lemma_view_first_idx(tv.drop_first(), name);
        let t = tv.drop_first();
        assert(forall|j: int| 0 <= j < t.len() ==> t[j] == tv[j + 1]);
        match view_first_idx(t, name) {
            Option::Some(i2) => {
                assert(tv[i2 + 1] == t[i2]);
                assert forall|j: int| 0 <= j < i2 + 1 implies (#[trigger] tv[j]).0 != name by {
                    if j >= 1 {
                        assert(t[j - 1] == tv[j]);
                    }
                }
            },
            Option::None => {
                assert forall|j: int| 0 <= j < tv.len() implies (#[trigger] tv[j]).0 != name by {
                    if j >= 1 {
                        assert(t[j - 1] == tv[j]);
                    }
                }
            },
        }
    }
}

/// The two first-index lookups agree through the view.
proof fn lemma_first_idx_agree(t: Seq<InfectedPackage>, name: Seq<char>)
    ensures
        ip_first_idx(t, name) == view_first_idx(table_view(t), name),
    decreases t.len(),
{
    if t.len() == 0 {
        assert(table_view(t).len() == 0);
    } else {
        assert(table_view(t)[0].0 == t[0].name@);
        lemma_first_idx_agree(t.drop_first(), name);
        assert(table_view(t.drop_first()) =~= table_view(t).drop_first());
    }
}

/// Replace the first entry with the given name, or append a new one.
pub open spec fn upsert_view(
    tv: Seq<(Seq<char>, Seq<Seq<char>>)>,
    name: Seq<char>,
    versions: Seq<Seq<char>>,
) -> Seq<(Seq<char>, Seq<Seq<char>>)> {
    match view_first_idx(tv, name) {
        Option::Some(i) => tv.update(i, (name, versions)),
        Option::None => tv.push((name, versions)),
    }
}

/// The view table after folding the first `k` lines of a list over an
/// initial table: each entry line replaces or appends its name.
pub open spec fn load_fold(
    tv: Seq<(Seq<char>, Seq<Seq<char>>)>,
    lines: Seq<Seq<char>>,
    k: int,
) -> Seq<(Seq<char>, Seq<Seq<char>>)>
    decreases k,
{
    if k <= 0 {
        tv
    } else {
        let prev = load_fold(tv, lines, k - 1);
        match csv_line_spec(lines[k - 1]) {
            CsvLine::Entry(nm, vs) => upsert_view(prev, nm, vs),
            _ => prev,
        }
    }
}

impl InfectedPackageFilter {
    /// Load infected packages from the text of a list file. Each record
    /// line reads `name,version_a | version_b`; an empty right-hand side
    /// means every version of the name. A line without a comma stops the
    /// load with an error naming the 1-based line number; the entries of
    /// the lines before it stay loaded.
    pub fn load_from_text(&mut self, content: &str, file: &str) -> (r: Result<(), ScanError>)
        ensures
            match first_bad(lines_spec(content@)) {
                Option::Some(b) => {
                    &&& r is Err
                    &&& r->Err_0 matches ScanError::InvalidCsvLine { file: f, line: l } && f@
                        == file@ && l == b + 1
                    &&& table_view(final(self).table()) == load_fold(
                        table_view(old(self).table()),
                        lines_spec(content@),
                        b,
                    )
                },
                Option::None => {
                    &&& r is Ok
                    &&& table_view(final(self).table()) == load_fold(
                        table_view(old(self).table()),
                        lines_spec(content@),
                        lines_spec(content@).len() as int,
                    )
                },
            },
    {
        proof {
            lemma_first_bad(lines_spec(content@));
        }
        let lines = str_lines(content);
        let ghost lv = lines_spec(content@);
        let ghost tv0 = table_view(old(self).table());
        let n = lines.len();
        let mut i: usize = 0;
        while i < n
            invariant
                i <= n,
                n == lines@.len(),
                lv == lines_spec(content@),
                lines@.map_values(|x: String| x@) == lv,
                tv0 == table_view(old(self).table()),
                table_view(self.table()) == load_fold(tv0, lv, i as int),
                forall|j: int| 0 <= j < i ==> !(csv_line_spec(#[trigger] lv[j]) is Malformed),
            decreases n - i,
        {
            proof {
                assert(lv[i as int] == lines@.map_values(|x: String| x@)[i as int]);
            }
            let t = trim_of(lines[i].as_str());
            let ts = t.as_str();
            let tn = ts.unicode_len();
            if tn == 0 || ts.get_char(0) == '#' {
                i = i + 1;
                continue ;
            }
            let c = match str_find_char(ts, ',') {
                Some(c) => c,
                None => {
                    proof {
                        lemma_first_bad(lv);
                        assert(csv_line_spec(lv[i as int]) is Malformed);
                        match first_bad(lv) {
                            Option::Some(b) => {
                                if b < i {
                                    assert(false);
                                }
                                if b > i {
                                    assert(false);
                                }
                            },
                            Option::None => {
                                assert(false);
                            },
                        }
                    }
                    return Err(
                        ScanError::InvalidCsvLine { file: file.to_owned(), line: i + 1 },
                    );
                },
            };
            proof {
                lemma_find_spec(t@, ',');
            }
            let name = trim_of(ts.substring_char(0, c));
            proof {
                assert(t@.subrange(0, c as int) =~= t@.take(c as int));
            }
            let versions_str = trim_of(ts.substring_char(c + 1, tn));
            proof {
                assert(t@.subrange(c + 1, tn as int) =~= t@.skip(c + 1));
            }
            let versions = split_pipe(versions_str.as_str());
            let ghost nm_v = name@;
            let ghost vs_v = versions@.map_values(|v: String| v@);
            proof {
                assert(csv_line_spec(lv[i as int]) == CsvLine::Entry(nm_v, vs_v));
                lemma_first_idx_agree(self.table(), nm_v);
            }
            let ghost before = self.table();
            let ip = InfectedPackage::new(name, versions);
            let ghost gip = ip;
            self.add_infected_package(ip);
            proof {
                assert(gip.name@ == nm_v);
                assert(gip.versions@.map_values(|v: String| v@) == vs_v);
                lemma_ip_first_idx(before, nm_v);
                lemma_view_first_idx(table_view(before), nm_v);
                match ip_first_idx(before, nm_v) {
                    Option::Some(ix) => {
                        assert(view_first_idx(table_view(before), nm_v) == Option::Some(ix));
                        assert(self.table() == before.update(ix, gip));
                        assert forall|q: int|
                            0 <= q < table_view(self.table()).len() implies table_view(
                            self.table(),
                        )[q] == upsert_view(table_view(before), nm_v, vs_v)[q] by {
                            if q != ix {
                                assert(self.table()[q] == before[q]);
                            } else {
                                assert(self.table()[q] == gip);
                            }
                        }
                        assert(table_view(self.table()) =~= upsert_view(
                            table_view(before),
                            nm_v,
                            vs_v,
                        ));
                    },
                    Option::None => {
                        assert(view_first_idx(table_view(before), nm_v) is None);
                        assert(self.table() == before.push(gip));
                        assert forall|q: int|
                            0 <= q < table_view(self.table()).len() implies table_view(
                            self.table(),
                        )[q] == upsert_view(table_view(before), nm_v, vs_v)[q] by {
                            if q < before.len() {
                                assert(self.table()[q] == before[q]);
                            } else {
                                assert(self.table()[q] == gip);
                            }
                        }
                        assert(table_view(self.table()) =~= upsert_view(
                            table_view(before),
                            nm_v,
                            vs_v,
                        ));
                    },
                }
                assert(table_view(self.table()) == load_fold(tv0, lv, i + 1));
            }
            i = i + 1;
        }
        proof {
            lemma_first_bad(lv);
            match first_bad(lv) {
                Option::Some(b) => {
                    assert(false);
                },
                Option::None => {},
            }
        }
        Ok(())
    }
}

/// Split a pipe-delimited version list into trimmed, non-empty pieces.
fn split_pipe(s: &str) -> (r: Vec<String>)
    ensures
        r@.map_values(|v: String| v@) == pipe_versions(s@),
{
    let ghost f = |v: String| v@;
    let mut out: Vec<String> = Vec::new();
    let mut rest: &str = s;
    proof {
        assert(out@.map_values(f) =~= Seq::<Seq<char>>::empty());
    }
    loop
        invariant
            f == (|v: String| v@),
            out@.map_values(f) + pipe_versions(rest@) == pipe_versions(s@),
        ensures
            out@.map_values(f) + pipe_versions(rest@) == pipe_versions(s@),
            find_spec(rest@, '|') is None,
            trim_spec(rest@).len() == 0,
        decreases rest@.len(),
    {
        let n = rest.unicode_len();
        match str_find_char(rest, '|') {
            Some(i) => {
                proof {
                    lemma_find_spec(rest@, '|');
                }
                let piece = trim_of(rest.substring_char(0, i));
                proof {
                    assert(rest@.subrange(0, i as int) =~= rest@.take(i as int));
                }
                let ghost prev = out@.map_values(f);
                if piece.as_str().unicode_len() > 0 {
                    out.push(piece);
                    proof {
                        assert(out@.map_values(f) =~= prev.push(trim_spec(rest@.take(i as int))));
                    }
                }
                let next = rest.substring_char(i + 1, n);
                proof {
                    assert(next@ =~= rest@.skip(i + 1));
                    assert(out@.map_values(f) + pipe_versions(next@) =~= prev + pipe_versions(
                        rest@,
                    ));
                }
                rest = next;
            },
            None => {
                proof {
                    lemma_find_spec(rest@, '|');
                }
                let piece = trim_of(rest);
                let ghost prev = out@.map_values(f);
                if piece.as_str().unicode_len() > 0 {
                    out.push(piece);
                    proof {
                        assert(out@.map_values(f) =~= prev.push(trim_spec(rest@)));
                        assert(pipe_versions(rest@) =~= seq![trim_spec(rest@)]);
                    }
                    let empty_tail = rest.substring_char(n, n);
                    proof {
                        assert(empty_tail@ =~= Seq::<char>::empty());
                        assert(trim_spec(empty_tail@) =~= Seq::<char>::empty());
                        assert(pipe_versions(empty_tail@) =~= Seq::<Seq<char>>::empty());
                        assert(out@.map_values(f) + pipe_versions(empty_tail@) =~= prev
                            + pipe_versions(rest@));
                        crate::text::lemma_find_spec(empty_tail@, '|');
                    }
                    rest = empty_tail;
                    break;
                } else {
                    proof {
                        assert(pipe_versions(rest@) =~= Seq::<Seq<char>>::empty());
                        assert(out@.map_values(f) + pipe_versions(rest@) =~= prev + pipe_versions(
                            rest@,
                        ));
                    }
                    break;
                }
            },
        }
    }
    proof {
        assert(out@.map_values(f) =~= out@.map_values(f) + pipe_versions(rest@));
    }
    out
}

/// Loading a list whose lines are all well-formed entries with pairwise
/// distinct names into an empty filter yields exactly one table entry per
/// line.
pub proof fn lemma_load_distinct_count(lines: Seq<Seq<char>>)
    requires
        forall|i: int| 0 <= i < lines.len() ==> csv_line_spec(#[trigger] lines[i]) is Entry,
        forall|i: int, j: int|
            0 <= i < j < lines.len() ==> (csv_line_spec(#[trigger] lines[i]))->Entry_0 != (
            csv_line_spec(#[trigger] lines[j]))->Entry_0,
    ensures
        load_fold(Seq::empty(), lines, lines.len() as int).len() == lines.len(),
{
    lemma_load_distinct_count_aux(lines, lines.len() as int);
}

proof fn lemma_load_distinct_count_aux(lines: Seq<Seq<char>>, k: int)
    requires
        0 <= k <= lines.len(),
        forall|i: int| 0 <= i < lines.len() ==> csv_line_spec(#[trigger] lines[i]) is Entry,
        forall|i: int, j: int|
            0 <= i < j < lines.len() ==> (csv_line_spec(#[trigger] lines[i]))->Entry_0 != (
            csv_line_spec(#[trigger] lines[j]))->Entry_0,
    ensures
        load_fold(Seq::empty(), lines, k).len() == k,
        forall|m: int|
            0 <= m < k ==> exists|i: int|
                0 <= i < k && (csv_line_spec(lines[i]))->Entry_0 == (#[trigger] load_fold(
                    Seq::empty(),
                    lines,
                    k,
                )[m]).0,
    decreases k,
{
    if k > 0 {
        lemma_load_distinct_count_aux(lines, k - 1);
        let prev = load_fold(Seq::<(Seq<char>, Seq<Seq<char>>)>::empty(), lines, k - 1);
        let nm = (csv_line_spec(lines[k - 1]))->Entry_0;
        lemma_view_first_idx(prev, nm);
        match view_first_idx(prev, nm) {
            Option::Some(ix) => {
                let i0 = choose|i0: int|
                    0 <= i0 < k - 1 && (csv_line_spec(lines[i0]))->Entry_0 == prev[ix].0;
                assert((csv_line_spec(lines[i0]))->Entry_0 == nm);
                assert(false);
            },
            Option::None => {
                let cur = load_fold(Seq::<(Seq<char>, Seq<Seq<char>>)>::empty(), lines, k);
                assert(cur == prev.push(
                    (nm, (csv_line_spec(lines[k - 1]))->Entry_1),
                ));
                assert forall|m: int| 0 <= m < k implies exists|i: int|
                    0 <= i < k && (csv_line_spec(lines[i]))->Entry_0 == (#[trigger] cur[m]).0 by {
                    if m < k - 1 {
                        assert(cur[m] == prev[m]);
                        let iw = choose|iw: int|
                            0 <= iw < k - 1 && (csv_line_spec(lines[iw]))->Entry_0 == prev[m].0;
                        assert((csv_line_spec(lines[iw]))->Entry_0 == cur[m].0);
                    } else {
                        assert(cur[m].0 == nm);
                        assert((csv_line_spec(lines[k - 1]))->Entry_0 == cur[m].0);
                    }
                }
            },
        }
    }
}

/// Insert an entity into a vector sorted under `dep_le`, keeping it sorted.
fn sorted_insert_dep(v: &mut Vec<ClassifiedDependency>, x: ClassifiedDependency)
    requires
        deps_sorted(old(v)@),
    ensures
        deps_sorted(final(v)@),
        final(v)@ == stable_insert_dep(old(v)@, x),
        final(v)@.to_multiset() == old(v)@.to_multiset().insert(x),
        final(v)@.len() == old(v)@.len() + 1,
{
    let n = v.len();
    let mut idx: usize = 0;
    loop
        invariant
            idx <= n,
            n == v@.len(),
            v@ == old(v)@,
            forall|j: int| 0 <= j < idx ==> dep_le(v@[j], x),
        ensures
            idx <= n,
            n == v@.len(),
            v@ == old(v)@,
            forall|j: int| 0 <= j < idx ==> dep_le(v@[j], x),
            idx < n ==> !dep_le(v@[idx as int], x),
        decreases n - idx,
    {
        if idx < n {
            if dep_le_exec(&v[idx], &x) {
                idx = idx + 1;
            } else {
                break;
            }
        } else {
            break;
        }
    }
    let ghost before = v@;
    v.insert(idx, x);
    proof {
        lemma_insert_multiset(before, idx as int, x);
        lemma_stable_insert_at(before, x, idx as int);
        assert forall|k: int| #![trigger v@[k]] 0 <= k < v@.len() - 1 implies dep_le(
            v@[k],
            v@[k + 1],
        ) by {
            if k + 1 < idx {
                assert(v@[k] == before[k]);
                assert(v@[k + 1] == before[k + 1]);
            } else if k + 1 == idx {
                assert(v@[k] == before[k]);
                assert(v@[k + 1] == x);
            } else if k == idx {
                assert(v@[k] == x);
                assert(v@[k + 1] == before[k]);
                lemma_dep_le_total(v@[k], v@[k + 1]);
            } else {
                assert(v@[k] == before[k - 1]);
                assert(v@[k + 1] == before[k]);
            }
        }
    }
}

/// Compare two entities by classification priority, ties by name.
fn dep_le_exec(a: &ClassifiedDependency, b: &ClassifiedDependency) -> (r: bool)
    ensures
        r == dep_le(*a, *b),
{
    let pa = if a.has_entry.is_some() {
        0u8
    } else if a.should_entry.is_some() {
        1u8
    } else if a.can_entry.is_some() {
        2u8
    } else {
        3u8
    };
    let pb = if b.has_entry.is_some() {
        0u8
    } else if b.should_entry.is_some() {
        1u8
    } else if b.can_entry.is_some() {
        2u8
    } else {
        3u8
    };
    if pa < pb {
        true
    } else if pa > pb {
        false
    } else {
        str_lex_le(a.name.as_str(), b.name.as_str())
    }
}

} // verus!
