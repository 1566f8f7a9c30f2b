//! Tree builder: reconstructs the parent/child dependency structure of an
//! application's classified entities.
//!
//! Only entities with a Has classification become roots: a package known
//! only from a lockfile or manifest is not installed and heads no tree. A
//! cycle is broken at the point of re-entry: a name may not repeat along its
//! own ancestor chain, but siblings may share descendants freely.

use vstd::prelude::*;
use crate::models::application::Application;
use crate::models::classification::{Classification, ClassifiedDependency};
use crate::models::dependency_tree::{DependencyNode, DependencyTree};
use crate::seq_util::contains_name;
use crate::text::str_eq_str;

verus! {

/// Some entity of `deps` is named `x`.
pub open spec fn contains_dep_name(deps: Seq<ClassifiedDependency>, x: Seq<char>) -> bool {
    exists|j: int| 0 <= j < deps.len() && deps[j].name@ == x
}

/// No two entries of `v` view as the same name.
pub open spec fn distinct_names(v: Seq<String>) -> bool {
    forall|k1: int, k2: int| 0 <= k1 < k2 < v.len() ==> v[k1]@ != v[k2]@
}

/// Every entry of `v` names some entity of `deps`.
pub open spec fn names_in(v: Seq<String>, deps: Seq<ClassifiedDependency>) -> bool {
    forall|k: int| #![trigger v[k]] 0 <= k < v.len() ==> contains_dep_name(deps, v[k]@)
}

/// A distinct list of names drawn from `deps` is no longer than `deps`.
proof fn lemma_distinct_names_bound(v: Seq<String>, deps: Seq<ClassifiedDependency>)
    requires
        distinct_names(v),
        names_in(v, deps),
    ensures
        v.len() <= deps.len(),
    decreases v.len(),
{
    if v.len() > 0 {
        let x = v.last()@;
        let j = choose|j: int| 0 <= j < deps.len() && deps[j].name@ == x;
        let v2 = v.drop_last();
        let deps2 = deps.remove(j);
        assert(distinct_names(v2)) by {
            assert(forall|k1: int, k2: int|
                0 <= k1 < k2 < v2.len() ==> v2[k1] == v[k1] && v2[k2] == v[k2]);
        }
        assert(names_in(v2, deps2)) by {
            assert forall|k: int| #![trigger v2[k]] 0 <= k < v2.len() implies contains_dep_name(
                deps2,
                v2[k]@,
            ) by {
                assert(v2[k] == v[k]);
                assert(v[k]@ != x);
                let jy = choose|jy: int| 0 <= jy < deps.len() && deps[jy].name@ == v[k]@;
                assert(jy != j);
                if jy < j {
                    assert(deps2[jy] == deps[jy]);
                } else {
                    assert(deps2[jy - 1] == deps[jy]);
                }
            }
        }
        lemma_distinct_names_bound(v2, deps2);
    }
}

/// The shape of a dependency node as plain values: what the builder is
/// specified against.
#[verifier::ext_equal]
pub struct NodeView {
    /// Package name
    pub name: Seq<char>,
    /// Version shown for the node
    pub version: Seq<char>,
    /// Classification the version was taken from
    pub classification: Classification,
    /// Whether the node is a direct dependency
    pub is_direct: bool,
    /// Child nodes
    pub children: Seq<NodeView>,
}

/// The view of a built node.
pub open spec fn node_view(n: DependencyNode) -> NodeView
    decreases n,
{
    NodeView {
        name: n.name@,
        version: n.version@,
        classification: n.classification,
        is_direct: n.is_direct,
        children: views_of(n.dependencies@),
    }
}

/// The views of a forest, in order.
pub open spec fn views_of(s: Seq<DependencyNode>) -> Seq<NodeView>
    decreases s,
{
    if s.len() == 0 {
        Seq::empty()
    } else {
        seq![node_view(s[0])] + views_of(s.drop_first())
    }
}

proof fn lemma_views_of_push(s: Seq<DependencyNode>, x: DependencyNode)
    ensures
        views_of(s.push(x)) == views_of(s).push(node_view(x)),
    decreases s.len(),
{
    if s.len() == 0 {
        assert(s.push(x)[0] == x);
        assert(s.push(x).drop_first() =~= Seq::<DependencyNode>::empty());
        assert(views_of(s.push(x).drop_first()) =~= Seq::<NodeView>::empty());
        assert(views_of(s.push(x)) == seq![node_view(x)] + views_of(s.push(x).drop_first()));
        assert(views_of(s.push(x)) =~= views_of(s).push(node_view(x)));
    } else {
        lemma_views_of_push(s.drop_first(), x);
        assert(s.push(x).drop_first() =~= s.drop_first().push(x));
        assert(s.push(x)[0] == s[0]);
        assert(views_of(s.push(x)) == seq![node_view(s[0])] + views_of(s.drop_first().push(x)));
        assert(views_of(s) == seq![node_view(s[0])] + views_of(s.drop_first()));
        assert(views_of(s.push(x)) =~= views_of(s).push(node_view(x)));
    }
}

/// The name views of the visited stack.
pub open spec fn name_views(v: Seq<String>) -> Seq<Seq<char>> {
    v.map_values(|s: String| s@)
}

/// No two entries of a view stack are equal.
pub open spec fn distinct_views(v: Seq<Seq<char>>) -> bool {
    forall|k1: int, k2: int| 0 <= k1 < k2 < v.len() ==> v[k1] != v[k2]
}

/// Every entry of a view stack names some entity of `deps`.
pub open spec fn views_in(v: Seq<Seq<char>>, deps: Seq<ClassifiedDependency>) -> bool {
    forall|k: int| #![trigger v[k]] 0 <= k < v.len() ==> contains_dep_name(deps, v[k])
}

/// A distinct view stack drawn from `deps` is no longer than `deps`.
proof fn lemma_distinct_views_bound(v: Seq<Seq<char>>, deps: Seq<ClassifiedDependency>)
    requires
        distinct_views(v),
        views_in(v, deps),
    ensures
        v.len() <= deps.len(),
    decreases v.len(),
{
    if v.len() > 0 {
        let x = v.last();
        let j = choose|j: int| 0 <= j < deps.len() && deps[j].name@ == x;
        let v2 = v.drop_last();
        let deps2 = deps.remove(j);
        assert(distinct_views(v2)) by {
            assert(forall|k1: int, k2: int|
                0 <= k1 < k2 < v2.len() ==> v2[k1] == v[k1] && v2[k2] == v[k2]);
        }
        assert(views_in(v2, deps2)) by {
            assert forall|k: int| #![trigger v2[k]] 0 <= k < v2.len() implies contains_dep_name(
                deps2,
                v2[k],
            ) by {
                assert(v2[k] == v[k]);
                assert(v[k] != x);
                let jy = choose|jy: int| 0 <= jy < deps.len() && deps[jy].name@ == v[k];
                assert(jy != j);
                if jy < j {
                    assert(deps2[jy] == deps[jy]);
                } else {
                    assert(deps2[jy - 1] == deps[jy]);
                }
            }
        }
        lemma_distinct_views_bound(v2, deps2);
    }
}

/// Index of the last entity with the given name, the entry a name lookup
/// over the list resolves to.
pub open spec fn last_dep_idx(deps: Seq<ClassifiedDependency>, name: Seq<char>) -> Option<int>
    decreases deps.len(),
{
    if deps.len() == 0 {
        Option::None
    } else if deps.last().name@ == name {
        Option::Some(deps.len() - 1)
    } else {
        last_dep_idx(deps.drop_last(), name)
    }
}

proof fn lemma_last_dep_idx(deps: Seq<ClassifiedDependency>, name: Seq<char>)
    ensures
        match last_dep_idx(deps, name) {
            Option::Some(i) => 0 <= i < deps.len() && deps[i].name@ == name && forall|j: int|
                i < j < deps.len() ==> deps[j].name@ != name,
            Option::None => forall|j: int| 0 <= j < deps.len() ==> deps[j].name@ != name,
        },
    decreases deps.len(),
{
    if deps.len() == 0 {
    } else if deps.last().name@ == name {
    } else {
        lemma_last_dep_idx(deps.drop_last(), name);
        let t = deps.drop_last();
        assert(forall|j: int| 0 <= j < t.len() ==> t[j] == deps[j]);
    }
}

/// The version the builder shows for an entity: its primary version, or
/// `unknown` when it has none.
pub open spec fn shown_version(d: ClassifiedDependency) -> Seq<char> {
    match d.primary_version_spec() {
        Some(v) => v,
        None => "unknown"@,
    }
}

/// The classification the builder records for an entity: its primary
/// classification, or Can when it has none.
pub open spec fn shown_classification(d: ClassifiedDependency) -> Classification {
    match d.primary_spec() {
        Some(c) => c,
        None => Classification::Can,
    }
}

/// Whether the recursive construction may be applied: the visited stack is
/// duplicate-free and every stack entry, and the entity itself, names some
/// entity of the list.
pub open spec fn build_ok(
    deps: Seq<ClassifiedDependency>,
    d: ClassifiedDependency,
    visited: Seq<Seq<char>>,
) -> bool {
    distinct_views(visited) && views_in(visited, deps) && contains_dep_name(deps, d.name@)
}

/// The node built for one entity: nothing when its name is already on the
/// visited chain (the cycle break); otherwise a node carrying the entity's
/// name, shown version and classification, with one child for each of the
/// entity's dependency names that resolves against the list and is not on
/// the extended chain.
pub open spec fn build_node_view(
    deps: Seq<ClassifiedDependency>,
    d: ClassifiedDependency,
    is_direct: bool,
    visited: Seq<Seq<char>>,
) -> Option<NodeView>
    decreases deps.len() - visited.len(), 0int,
        when build_ok(deps, d, visited)
    via build_node_view_decreases
{
    if visited.contains(d.name@) {
        Option::None
    } else {
        Option::Some(
            NodeView {
                name: d.name@,
                version: shown_version(d),
                classification: shown_classification(d),
                is_direct,
                children: build_children_views(
                    deps,
                    name_views(d.dependencies@),
                    visited.push(d.name@),
                ),
            },
        )
    }
}

/// The child nodes built for a list of dependency names, left to right: a
/// name that resolves to no entity, or whose node is cut by the cycle
/// break, contributes nothing.
pub open spec fn build_children_views(
    deps: Seq<ClassifiedDependency>,
    names: Seq<Seq<char>>,
    visited: Seq<Seq<char>>,
) -> Seq<NodeView>
    decreases deps.len() - visited.len(), 1int, names.len(),
        when distinct_views(visited) && views_in(visited, deps)
    via build_children_views_decreases
{
    if names.len() == 0 {
        Seq::empty()
    } else {
        let head: Seq<NodeView> = match last_dep_idx(deps, names[0]) {
            Option::Some(j) => {
                match build_node_view(deps, deps[j], false, visited) {
                    Option::Some(v) => seq![v],
                    Option::None => Seq::empty(),
                }
            },
            Option::None => Seq::empty(),
        };
        head + build_children_views(deps, names.drop_first(), visited)
    }
}

#[via_fn]
proof fn build_node_view_decreases(
    deps: Seq<ClassifiedDependency>,
    d: ClassifiedDependency,
    is_direct: bool,
    visited: Seq<Seq<char>>,
) {
    lemma_distinct_views_bound(visited, deps);
    if !visited.contains(d.name@) {
        let visited2 = visited.push(d.name@);
        assert(distinct_views(visited2)) by {
            assert forall|k1: int, k2: int|
                0 <= k1 < k2 < visited2.len() implies visited2[k1] != visited2[k2] by {
                if k2 == visited2.len() - 1 {
                    assert(visited2[k1] == visited[k1]);
                    assert(visited.contains(visited[k1]));
                } else {
                    assert(visited2[k1] == visited[k1]);
                    assert(visited2[k2] == visited[k2]);
                }
            }
        }
        assert(views_in(visited2, deps)) by {
            assert forall|k: int| #![trigger visited2[k]] 0 <= k < visited2.len() implies
                contains_dep_name(deps, visited2[k]) by {
                if k < visited2.len() - 1 {
                    assert(visited2[k] == visited[k]);
                } else {
                    assert(visited2[k] == d.name@);
                }
            }
        }
        lemma_distinct_views_bound(visited2, deps);
    }
}

#[via_fn]
proof fn build_children_views_decreases(
    deps: Seq<ClassifiedDependency>,
    names: Seq<Seq<char>>,
    visited: Seq<Seq<char>>,
) {
    lemma_distinct_views_bound(visited, deps);
    if names.len() > 0 {
        lemma_last_dep_idx(deps, names[0]);
    }
}

/// Appending a name to the child list appends that name's contribution.
proof fn lemma_build_children_push(
    deps: Seq<ClassifiedDependency>,
    names: Seq<Seq<char>>,
    visited: Seq<Seq<char>>,
    x: Seq<char>,
)
    requires
        distinct_views(visited),
        views_in(visited, deps),
    ensures
        build_children_views(deps, names.push(x), visited) == build_children_views(
            deps,
            names,
            visited,
        ) + (match last_dep_idx(deps, x) {
            Option::Some(j) => {
                match build_node_view(deps, deps[j], false, visited) {
                    Option::Some(v) => seq![v],
                    Option::None => Seq::<NodeView>::empty(),
                }
            },
            Option::None => Seq::<NodeView>::empty(),
        }),
    decreases names.len(),
{
    lemma_last_dep_idx(deps, x);
    if names.len() == 0 {
        assert(names.push(x)[0] == x);
        assert(names.push(x).drop_first() =~= Seq::<Seq<char>>::empty());
        assert(build_children_views(deps, names.push(x).drop_first(), visited) =~= Seq::<
            NodeView,
        >::empty());
        assert(build_children_views(deps, names, visited) =~= Seq::<NodeView>::empty());
        assert(build_children_views(deps, names.push(x), visited) =~= Seq::<
            NodeView,
        >::empty() + (match last_dep_idx(deps, x) {
            Option::Some(j) => {
                match build_node_view(deps, deps[j], false, visited) {
                    Option::Some(v) => seq![v],
                    Option::None => Seq::<NodeView>::empty(),
                }
            },
            Option::None => Seq::<NodeView>::empty(),
        }));
    } else {
        lemma_build_children_push(deps, names.drop_first(), visited, x);
        lemma_last_dep_idx(deps, names[0]);
        assert(names.push(x).drop_first() =~= names.drop_first().push(x));
        assert(names.push(x)[0] == names[0]);
        assert(build_children_views(deps, names.push(x), visited) =~= build_children_views(
            deps,
            names,
            visited,
        ) + (match last_dep_idx(deps, x) {
            Option::Some(j) => {
                match build_node_view(deps, deps[j], false, visited) {
                    Option::Some(v) => seq![v],
                    Option::None => Seq::<NodeView>::empty(),
                }
            },
            Option::None => Seq::<NodeView>::empty(),
        }));
    }
}

/// Number of levels of a node view: one for the node itself plus its
/// deepest child.
pub open spec fn view_depth(v: NodeView) -> nat
    decreases v,
{
    1 + forest_depth(v.children)
}

/// Number of levels of the deepest node of a forest.
pub open spec fn forest_depth(s: Seq<NodeView>) -> nat
    decreases s,
{
    if s.len() == 0 {
        0
    } else if view_depth(s[0]) >= forest_depth(s.drop_first()) {
        view_depth(s[0])
    } else {
        forest_depth(s.drop_first())
    }
}

/// A node built against a visited chain is bounded in depth: a name already
/// on the chain is never re-entered, so each level consumes one entity name
/// not yet on the chain, and the node is at most `deps.len() -
/// visited.len()` levels deep.
pub proof fn lemma_build_node_depth(
    deps: Seq<ClassifiedDependency>,
    d: ClassifiedDependency,
    is_direct: bool,
    visited: Seq<Seq<char>>,
)
    requires
        build_ok(deps, d, visited),
    ensures
        match build_node_view(deps, d, is_direct, visited) {
            Option::Some(v) => view_depth(v) <= deps.len() - visited.len(),
            Option::None => true,
        },
    decreases deps.len() - visited.len(), 0int,
{
    lemma_distinct_views_bound(visited, deps);
    if !visited.contains(d.name@) {
        let visited2 = visited.push(d.name@);
        assert(distinct_views(visited2)) by {
            assert forall|k1: int, k2: int|
                0 <= k1 < k2 < visited2.len() implies visited2[k1] != visited2[k2] by {
                if k2 == visited2.len() - 1 {
                    assert(visited2[k1] == visited[k1]);
                    assert(visited.contains(visited[k1]));
                } else {
                    assert(visited2[k1] == visited[k1]);
                    assert(visited2[k2] == visited[k2]);
                }
            }
        }
        assert(views_in(visited2, deps)) by {
            assert forall|k: int| #![trigger visited2[k]] 0 <= k < visited2.len() implies
                contains_dep_name(deps, visited2[k]) by {
                if k < visited2.len() - 1 {
                    assert(visited2[k] == visited[k]);
                } else {
                    assert(visited2[k] == d.name@);
                }
            }
        }
        lemma_distinct_views_bound(visited2, deps);
        lemma_build_children_depth(deps, name_views(d.dependencies@), visited2);
    }
}

/// The forest built for a list of dependency names is no deeper than the
/// number of entities not yet on the visited chain.
proof fn lemma_build_children_depth(
    deps: Seq<ClassifiedDependency>,
    names: Seq<Seq<char>>,
    visited: Seq<Seq<char>>,
)
    requires
        distinct_views(visited),
        views_in(visited, deps),
    ensures
        forest_depth(build_children_views(deps, names, visited)) <= deps.len() - visited.len(),
    decreases deps.len() - visited.len(), 1int, names.len(),
{
    lemma_distinct_views_bound(visited, deps);
    if names.len() > 0 {
        lemma_last_dep_idx(deps, names[0]);
        let rest = build_children_views(deps, names.drop_first(), visited);
        lemma_build_children_depth(deps, names.drop_first(), visited);
        match last_dep_idx(deps, names[0]) {
            Option::Some(j) => {
                assert(contains_dep_name(deps, deps[j].name@));
                lemma_build_node_depth(deps, deps[j], false, visited);
                match build_node_view(deps, deps[j], false, visited) {
                    Option::Some(v) => {
                        let whole = seq![v] + rest;
                        assert(whole[0] == v);
                        assert(whole.drop_first() =~= rest);
                    },
                    Option::None => {
                        assert(Seq::<NodeView>::empty() + rest =~= rest);
                    },
                }
            },
            Option::None => {
                assert(Seq::<NodeView>::empty() + rest =~= rest);
            },
        }
    }
}

/// Elementwise relation between a string stack and its view stack.
proof fn lemma_name_views_bridge(v: Seq<String>, deps: Seq<ClassifiedDependency>)
    ensures
        name_views(v).len() == v.len(),
        forall|k: int| #![trigger name_views(v)[k]] 0 <= k < v.len() ==> name_views(v)[k] == v[k]@,
        distinct_names(v) ==> distinct_views(name_views(v)),
        names_in(v, deps) ==> views_in(name_views(v), deps),
        forall|x: Seq<char>|
            #![trigger name_views(v).contains(x)]
            name_views(v).contains(x) <==> contains_name(v, x),
{
    let nv = name_views(v);
    assert(forall|k: int| #![trigger nv[k]] 0 <= k < v.len() ==> nv[k] == v[k]@);
    if distinct_names(v) {
        assert forall|k1: int, k2: int| 0 <= k1 < k2 < nv.len() implies nv[k1] != nv[k2] by {
            assert(nv[k1] == v[k1]@);
            assert(nv[k2] == v[k2]@);
        }
    }
    if names_in(v, deps) {
        assert forall|k: int| #![trigger nv[k]] 0 <= k < nv.len() implies contains_dep_name(
            deps,
            nv[k],
        ) by {
            assert(v[k] == v[k]);
        }
    }
    assert forall|x: Seq<char>| #![trigger nv.contains(x)] nv.contains(x) <==> contains_name(
        v,
        x,
    ) by {
        if nv.contains(x) {
            let k = choose|k: int| 0 <= k < nv.len() && nv[k] == x;
            assert(v[k]@ == x);
        }
        if contains_name(v, x) {
            let k = choose|k: int| 0 <= k < v.len() && v[k]@ == x;
            assert(nv[k] == x);
        }
    }
}

/// What the built node says of the entity it came from: the entity's name,
/// the version of its primary classification (or `unknown` when it has
/// none), that classification (or Can when it has none), and the direct
/// flag the caller passed.
pub open spec fn node_matches_entity(
    node: DependencyNode,
    dep: ClassifiedDependency,
    is_direct: bool,
) -> bool {
    &&& node.name@ == dep.name@
    &&& node.version@ == match dep.primary_version_spec() {
        Some(v) => v,
        None => "unknown"@,
    }
    &&& node.classification == match dep.primary_spec() {
        Some(c) => c,
        None => Classification::Can,
    }
    &&& node.is_direct == is_direct
}

/// The roots of `tree` correspond one to one, in order, to the
/// Has-classified entities of `app`: each root carries that entity's name
/// and installed version and is marked direct.
pub open spec fn roots_match(tree: DependencyTree, app: Application) -> bool {
    let has_deps = app.dependencies@.filter(|d: ClassifiedDependency| d.has_entry is Some);
    &&& tree.roots@.len() == has_deps.len()
    &&& forall|k: int|
        #![trigger tree.roots@[k]]
        0 <= k < has_deps.len() ==> node_matches_entity(tree.roots@[k], has_deps[k], true)
    &&& forall|k: int|
        #![trigger tree.roots@[k]]
        0 <= k < has_deps.len() ==> build_node_view(
            app.dependencies@,
            has_deps[k],
            true,
            Seq::empty(),
        ) == Option::Some(node_view(tree.roots@[k]))
}

/// Only installed entities head a tree: every root of a tree built for an
/// application carries the name and version of an entity of that
/// application that has a Has classification. An entity with only a Should
/// or Can classification never appears as a root.
pub proof fn lemma_roots_are_installed(tree: DependencyTree, app: Application)
    requires
        roots_match(tree, app),
    ensures
        forall|k: int|
            #![trigger tree.roots@[k]]
            0 <= k < tree.roots@.len() ==> exists|j: int|
                0 <= j < app.dependencies@.len() && app.dependencies@[j].has_entry is Some
                    && app.dependencies@[j].name@ == tree.roots@[k].name@,
{
    broadcast use vstd::seq_lib::group_filter_ensures;

    let pred = |d: ClassifiedDependency| d.has_entry is Some;
    let has_deps = app.dependencies@.filter(pred);
    assert forall|k: int| #![trigger tree.roots@[k]] 0 <= k < tree.roots@.len() implies exists|
        j: int,
    |
        0 <= j < app.dependencies@.len() && app.dependencies@[j].has_entry is Some
            && app.dependencies@[j].name@ == tree.roots@[k].name@ by {
        crate::seq_util::lemma_filter_elem_member(app.dependencies@, pred, k);
        let j = choose|j: int|
            0 <= j < app.dependencies@.len() && app.dependencies@[j] == has_deps[k];
        assert(pred(has_deps[k]));
        assert(app.dependencies@[j].has_entry is Some);
        assert(app.dependencies@[j].name@ == tree.roots@[k].name@);
    }
}

/// Every built tree is finite, whatever the shape of the dependency-name
/// graph, cycles included: the construction never re-enters a name on its
/// own ancestor chain, so each root of a tree built for an application is
/// at most as many levels deep as the application has entities.
pub proof fn lemma_tree_depth_bounded(tree: DependencyTree, app: Application)
    requires
        roots_match(tree, app),
    ensures
        forall|k: int|
            #![trigger tree.roots@[k]]
            0 <= k < tree.roots@.len() ==> view_depth(node_view(tree.roots@[k]))
                <= app.dependencies@.len(),
{
    broadcast use vstd::seq_lib::group_filter_ensures;

    let pred = |d: ClassifiedDependency| d.has_entry is Some;
    let has_deps = app.dependencies@.filter(pred);
    assert forall|k: int| #![trigger tree.roots@[k]] 0 <= k < tree.roots@.len() implies view_depth(
        node_view(tree.roots@[k]),
    ) <= app.dependencies@.len() by {
        crate::seq_util::lemma_filter_elem_member(app.dependencies@, pred, k);
        let j = choose|j: int|
            0 <= j < app.dependencies@.len() && app.dependencies@[j] == has_deps[k];
        assert(contains_dep_name(app.dependencies@, has_deps[k].name@)) by {
            assert(app.dependencies@[j].name@ == has_deps[k].name@);
        }
        assert(build_ok(app.dependencies@, has_deps[k], Seq::empty()));
        lemma_build_node_depth(app.dependencies@, has_deps[k], true, Seq::empty());
        assert(build_node_view(app.dependencies@, has_deps[k], true, Seq::empty())
            == Option::Some(node_view(tree.roots@[k])));
    }
}

/// Index of the last entity with the given name, the entry a name lookup
/// over the list resolves to.
fn find_dep_last(deps: &Vec<ClassifiedDependency>, name: &str) -> (r: Option<usize>)
    ensures
        match r {
            Some(i) => i < deps@.len() && deps@[i as int].name@ == name@ && forall|j: int|
                i < j < deps@.len() ==> deps@[j].name@ != name@,
            None => !contains_dep_name(deps@, name@),
        },
{
    let n = deps.len();
    let mut i: usize = n;
    loop
        invariant
            i <= n,
            n == deps@.len(),
            forall|j: int| i <= j < n ==> deps@[j].name@ != name@,
        ensures
            i <= n,
            n == deps@.len(),
            forall|j: int| i <= j < n ==> deps@[j].name@ != name@,
            i > 0 ==> deps@[i - 1].name@ == name@,
        decreases i,
    {
        if i > 0 {
            if str_eq_str(deps[i - 1].name.as_str(), name) {
                break;
            }
            i = i - 1;
        } else {
            break;
        }
    }
    if i > 0 {
        Some(i - 1)
    } else {
        None
    }
}

/// Whether `name` is on the visited stack.
fn visited_contains(visited: &Vec<String>, name: &str) -> (r: bool)
    ensures
        r == contains_name(visited@, name@),
{
    let n = visited.len();
    let mut i: usize = 0;
    loop
        invariant
            i <= n,
            n == visited@.len(),
            forall|j: int| 0 <= j < i ==> visited@[j]@ != name@,
        ensures
            i <= n,
            n == visited@.len(),
            forall|j: int| 0 <= j < i ==> visited@[j]@ != name@,
            i < n ==> visited@[i as int]@ == name@,
        decreases n - i,
    {
        if i < n {
            if str_eq_str(visited[i].as_str(), name) {
                break;
            }
            i = i + 1;
        } else {
            break;
        }
    }
    i < n
}

/// Tree builder for constructing dependency trees.
pub struct TreeBuilder;

impl TreeBuilder {
    /// Create a new tree builder.
    pub fn new() -> (r: Self) {
        Self
    }

    /// Build one dependency tree per application, in order.
    pub fn build_trees(&self, applications: Vec<Application>) -> (r: Vec<DependencyTree>)
        ensures
            r@.len() == applications@.len(),
            forall|i: int|
                #![trigger r@[i]]
                0 <= i < applications@.len() ==> r@[i].application == applications@[i]
                    && roots_match(r@[i], applications@[i]),
    {
        let n = applications.len();
        let mut applications = applications;
        let mut out: Vec<DependencyTree> = Vec::new();
        let ghost orig = applications@;
        let mut i: usize = 0;
        while i < n
            invariant
                i <= n,
                n == orig.len(),
                applications@ == orig.skip(i as int),
                out@.len() == i,
                forall|k: int|
                    #![trigger out@[k]]
                    0 <= k < i ==> out@[k].application == orig[k] && roots_match(out@[k], orig[k]),
            decreases n - i,
        {
            proof {
                assert(applications@[0] == orig[i as int]);
            }
            let app = applications.remove(0);
            let tree = self.build_tree(app);
            out.push(tree);
            proof {
                assert(applications@ =~= orig.skip(i + 1));
            }
            i = i + 1;
        }
        out
    }

    /// Build the dependency tree for one application: one root per
    /// Has-classified entity, children resolved by name against the
    /// application's own entity list, cycles broken at re-entry.
    pub fn build_tree(&self, application: Application) -> (r: DependencyTree)
        ensures
            r.application == application,
            roots_match(r, application),
    {
        broadcast use vstd::seq_lib::group_filter_ensures;

        let ghost pred = |d: ClassifiedDependency| d.has_entry is Some;
        let n = application.dependencies.len();
        let mut roots: Vec<DependencyNode> = Vec::new();
        proof {
            reveal(Seq::filter);
            assert(application.dependencies@.take(0) =~= Seq::<ClassifiedDependency>::empty());
        }
        let mut i: usize = 0;
        while i < n
            invariant
                i <= n,
                n == application.dependencies@.len(),
                pred == (|d: ClassifiedDependency| d.has_entry is Some),
                roots@.len() == application.dependencies@.take(i as int).filter(pred).len(),
                forall|k: int|
                    #![trigger roots@[k]]
                    0 <= k < roots@.len() ==> node_matches_entity(
                        roots@[k],
                        application.dependencies@.take(i as int).filter(pred)[k],
                        true,
                    ),
                forall|k: int|
                    #![trigger roots@[k]]
                    0 <= k < roots@.len() ==> build_node_view(
                        application.dependencies@,
                        application.dependencies@.take(i as int).filter(pred)[k],
                        true,
                        Seq::empty(),
                    ) == Option::Some(node_view(roots@[k])),
            decreases n - i,
        {
            let s = Ghost(application.dependencies@);
            proof {
                reveal(Seq::filter);
                assert(s@.take(i + 1).drop_last() =~= s@.take(i as int));
                assert(s@.take(i + 1).last() == s@[i as int]);
            }
            let dep = &application.dependencies[i];
            if dep.has_classification(Classification::Has) {
                let mut visited: Vec<String> = Vec::new();
                proof {
                    assert(contains_dep_name(s@, dep.name@)) by {
                        assert(s@[i as int].name@ == dep.name@);
                    }
                }
                let node = Self::build_node(dep, &application.dependencies, true, &mut visited);
                match node {
                    Some(node) => {
                        proof {
                            assert(name_views(Seq::<String>::empty()) =~= Seq::<
                                Seq<char>,
                            >::empty());
                        }
                        roots.push(node);
                    },
                    None => {
                        // unreachable: nothing is on the visited stack yet
                        proof {
                            assert(!contains_name(Seq::<String>::empty(), dep.name@));
                            assert(false);
                        }
                    },
                }
            }
            i = i + 1;
        }
        proof {
            assert(application.dependencies@.take(n as int) =~= application.dependencies@);
        }
        let mut tree = DependencyTree::new(application);
        tree.roots = roots;
        tree
    }

    /// Build the node for one entity, recursing into the children its
    /// dependency names resolve to. Returns no node when the entity's name
    /// is already on the visited stack: that is the cycle break. The
    /// visited stack is restored before returning.
    fn build_node(
        dep: &ClassifiedDependency,
        deps: &Vec<ClassifiedDependency>,
        is_direct: bool,
        visited: &mut Vec<String>,
    ) -> (r: Option<DependencyNode>)
        requires
            distinct_names(old(visited)@),
            names_in(old(visited)@, deps@),
            contains_dep_name(deps@, dep.name@),
        ensures
            final(visited)@ == old(visited)@,
            r is Some <==> !contains_name(old(visited)@, dep.name@),
            r is Some ==> node_matches_entity(r->0, *dep, is_direct),
            r is Some ==> build_node_view(deps@, *dep, is_direct, name_views(old(visited)@))
                == Option::Some(node_view(r->0)),
        decreases deps@.len() - old(visited)@.len(),
    {
        proof {
            lemma_name_views_bridge(old(visited)@, deps@);
        }
        proof {
            lemma_distinct_names_bound(old(visited)@, deps@);
        }
        if visited_contains(visited, dep.name.as_str()) {
            return None;
        }
        visited.push(dep.name.clone());
        proof {
            assert(visited@.drop_last() =~= old(visited)@);
            assert(distinct_names(visited@)) by {
                assert forall|k1: int, k2: int|
                    0 <= k1 < k2 < visited@.len() implies visited@[k1]@ != visited@[k2]@ by {
                    if k2 == visited@.len() - 1 {
                        assert(visited@[k1] == old(visited)@[k1]);
                        assert(visited@[k2]@ == dep.name@);
                        assert(!contains_name(old(visited)@, dep.name@));
                    } else {
                        assert(visited@[k1] == old(visited)@[k1]);
                        assert(visited@[k2] == old(visited)@[k2]);
                    }
                }
            }
            assert(names_in(visited@, deps@)) by {
                assert forall|k: int| #![trigger visited@[k]] 0 <= k < visited@.len() implies
                    contains_dep_name(deps@, visited@[k]@) by {
                    if k < visited@.len() - 1 {
                        assert(visited@[k] == old(visited)@[k]);
                    } else {
                        assert(visited@[k]@ == dep.name@);
                    }
                }
            }
        }
        let version = match dep.get_primary_version() {
            Some(v) => v.to_owned(),
            None => String::from_str("unknown"),
        };
        let classification = match dep.primary_classification() {
            Some(c) => c,
            None => Classification::Can,
        };
        let mut node = DependencyNode::new(dep.name.clone(), version, classification, is_direct);
        let nc = dep.dependencies.len();
        let ghost pushed = visited@;
        let ghost pv = name_views(pushed);
        let ghost child_names = name_views(dep.dependencies@);
        proof {
            lemma_name_views_bridge(pushed, deps@);
            lemma_name_views_bridge(dep.dependencies@, deps@);
            assert(child_names.take(0) =~= Seq::<Seq<char>>::empty());
            assert(views_of(node.dependencies@) =~= Seq::<NodeView>::empty());
        }
        let mut c: usize = 0;
        while c < nc
            invariant
                c <= nc,
                nc == dep.dependencies@.len(),
                visited@ == pushed,
                pushed == old(visited)@.push(dep.name),
                pv == name_views(pushed),
                child_names == name_views(dep.dependencies@),
                child_names.len() == nc,
                distinct_names(visited@),
                names_in(visited@, deps@),
                views_of(node.dependencies@) == build_children_views(
                    deps@,
                    child_names.take(c as int),
                    pv,
                ),
                node.name@ == dep.name@,
                node.version@ == match dep.primary_version_spec() {
                    Some(v) => v,
                    None => "unknown"@,
                },
                node.classification == match dep.primary_spec() {
                    Some(cl) => cl,
                    None => Classification::Can,
                },
                node.is_direct == is_direct,
            decreases nc - c,
        {
            let child_name = &dep.dependencies[c];
            let ghost cn = child_names[c as int];
            proof {
                lemma_name_views_bridge(pushed, deps@);
                lemma_name_views_bridge(dep.dependencies@, deps@);
                assert(cn == dep.dependencies@[c as int]@);
                assert(child_names.take(c + 1) =~= child_names.take(c as int).push(cn));
                lemma_build_children_push(deps@, child_names.take(c as int), pv, cn);
                lemma_last_dep_idx(deps@, cn);
            }
            match find_dep_last(deps, child_name.as_str()) {
                Some(j) => {
                    proof {
                        assert(last_dep_idx(deps@, cn) == Option::Some(j as int)) by {
                            match last_dep_idx(deps@, cn) {
                                Option::Some(i) => {
                                    if i < j {
                                        assert(deps@[j as int].name@ == cn);
                                        assert(false);
                                    }
                                    if i > j {
                                        assert(deps@[i].name@ != cn);
                                        assert(false);
                                    }
                                },
                                Option::None => {
                                    assert(deps@[j as int].name@ == cn);
                                    assert(false);
                                },
                            }
                        }
                        assert(contains_dep_name(deps@, deps@[j as int].name@));
                        lemma_distinct_names_bound(visited@, deps@);
                    }
                    let child = &deps[j];
                    match Self::build_node(child, deps, false, visited) {
                        Some(child_node) => {
                            let ghost cv = node_view(child_node);
                            let ghost before_children = node.dependencies@;
                            node.add_dependency(child_node);
                            proof {
                                lemma_views_of_push(before_children, node.dependencies@.last());
                                assert(build_node_view(deps@, deps@[j as int], false, pv)
                                    == Option::Some(cv));
                                assert(views_of(node.dependencies@) == build_children_views(
                                    deps@,
                                    child_names.take(c + 1),
                                    pv,
                                ));
                            }
                        },
                        None => {
                            proof {
                                assert(contains_name(pushed, deps@[j as int].name@));
                                assert(pv.contains(cn));
                                assert(build_node_view(deps@, deps@[j as int], false, pv)
                                    is None);
                                assert(views_of(node.dependencies@) == build_children_views(
                                    deps@,
                                    child_names.take(c + 1),
                                    pv,
                                ));
                            }
                        },
                    }
                },
                None => {
                    proof {
                        assert(last_dep_idx(deps@, cn) is None) by {
                            match last_dep_idx(deps@, cn) {
                                Option::Some(i) => {
                                    assert(deps@[i].name@ == cn);
                                    assert(false);
                                },
                                Option::None => {},
                            }
                        }
                        assert(views_of(node.dependencies@) == build_children_views(
                            deps@,
                            child_names.take(c + 1),
                            pv,
                        ));
                    }
                },
            }
            c = c + 1;
        }
        let _ = visited.pop();
        proof {
            assert(visited@ =~= old(visited)@);
            lemma_name_views_bridge(old(visited)@, deps@);
            let vv = name_views(old(visited)@);
            assert(!vv.contains(dep.name@));
            assert(pv =~= vv.push(dep.name@)) by {
                lemma_name_views_bridge(pushed, deps@);
                assert(pv.len() == pushed.len());
                assert forall|k: int| 0 <= k < pv.len() implies pv[k] == vv.push(dep.name@)[k] by {
                    assert(pv[k] == pushed[k]@);
                    if k < pv.len() - 1 {
                        assert(pushed[k] == old(visited)@[k]);
                        assert(vv[k] == old(visited)@[k]@);
                    } else {
                        assert(pushed[k] == dep.name);
                    }
                }
            }
            assert(child_names.take(nc as int) =~= child_names);
            assert(build_node_view(deps@, *dep, is_direct, vv) == Option::Some(node_view(node)))
                by {
                assert(node_view(node) =~= NodeView {
                    name: dep.name@,
                    version: shown_version(*dep),
                    classification: shown_classification(*dep),
                    is_direct,
                    children: build_children_views(deps@, name_views(dep.dependencies@), vv.push(dep.name@)),
                });
            }
        }
        Some(node)
    }
}

impl Default for TreeBuilder {
    /// A default tree builder is an ordinary tree builder.
    fn default() -> (r: Self) {
        Self::new()
    }
}

} // verus!
