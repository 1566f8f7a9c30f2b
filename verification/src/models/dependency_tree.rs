//! Dependency tree structures: nodes with nested children, and the tree that
//! groups an application's roots.

use vstd::prelude::*;
use crate::models::application::Application;
use crate::models::classification::Classification;
use crate::text::str_eq_str;

verus! {

/// A node of a dependency tree.
#[derive(Debug)]
pub struct DependencyNode {
    /// Package name
    pub name: String,
    /// Package version, from the primary classification
    pub version: String,
    /// Classification the version was taken from
    pub classification: Classification,
    /// Child nodes: the package's own dependencies
    pub dependencies: Vec<DependencyNode>,
    /// Whether this is a direct dependency of the application
    pub is_direct: bool,
}

/// Number of nodes strictly below `n`: its children and all their
/// descendants.
pub open spec fn count_spec(n: DependencyNode) -> nat
    decreases n,
{
    count_seq(n.dependencies@)
}

/// Number of nodes in the forest `s`, all levels included.
pub open spec fn count_seq(s: Seq<DependencyNode>) -> nat
    decreases s,
{
    if s.len() == 0 {
        0
    } else {
        1 + count_spec(s[0]) + count_seq(s.drop_first())
    }
}

/// Depth of the tree under `n`: zero for a leaf.
pub open spec fn depth_spec(n: DependencyNode) -> nat
    decreases n,
{
    if n.dependencies@.len() == 0 {
        0
    } else {
        1 + depth_seq_max(n.dependencies@)
    }
}

/// Largest depth of any tree in the forest `s`.
pub open spec fn depth_seq_max(s: Seq<DependencyNode>) -> nat
    decreases s,
{
    if s.len() == 0 {
        0
    } else if depth_spec(s[0]) >= depth_seq_max(s.drop_first()) {
        depth_spec(s[0])
    } else {
        depth_seq_max(s.drop_first())
    }
}

/// Depth-first search for a node named `name`, the node itself first, then
/// its children in order.
pub open spec fn find_node_spec(n: DependencyNode, name: Seq<char>) -> Option<DependencyNode>
    decreases n,
{
    if n.name@ == name {
        Some(n)
    } else {
        find_in_seq(n.dependencies@, name)
    }
}

/// Depth-first search across the forest `s`, left to right.
pub open spec fn find_in_seq(s: Seq<DependencyNode>, name: Seq<char>) -> Option<DependencyNode>
    decreases s,
{
    if s.len() == 0 {
        None
    } else {
        match find_node_spec(s[0], name) {
            Some(f) => Some(f),
            None => find_in_seq(s.drop_first(), name),
        }
    }
}

/// Splitting a forest splits its node count.
pub proof fn lemma_count_seq_split(s: Seq<DependencyNode>, k: int)
    requires
        0 <= k <= s.len(),
    ensures
        count_seq(s) == count_seq(s.take(k)) + count_seq(s.skip(k)),
    decreases k,
{
    if k == 0 {
        assert(s.take(0) =~= Seq::<DependencyNode>::empty());
        assert(s.skip(0) =~= s);
    } else {
        let d = s.drop_first();
        lemma_count_seq_split(d, k - 1);
        assert(s.take(k).drop_first() =~= d.take(k - 1));
        assert(s.take(k)[0] == s[0]);
        assert(s.skip(k) =~= d.skip(k - 1));
    }
}

/// Every tree of a forest contributes at least one node.
pub proof fn lemma_count_seq_ge_len(s: Seq<DependencyNode>)
    ensures
        count_seq(s) >= s.len(),
    decreases s.len(),
{
    if s.len() > 0 {
        lemma_count_seq_ge_len(s.drop_first());
    }
}

/// Appending a tree to a forest adds that tree's nodes.
pub proof fn lemma_count_seq_push(s: Seq<DependencyNode>, x: DependencyNode)
    ensures
        count_seq(s.push(x)) == count_seq(s) + 1 + count_spec(x),
    decreases s.len(),
{
    if s.len() == 0 {
        assert(s.push(x)[0] == x);
        assert(s.push(x).drop_first() =~= Seq::<DependencyNode>::empty());
        assert(count_seq(s.push(x).drop_first()) == 0);
        assert(count_seq(s.push(x)) == 1 + count_spec(x) + count_seq(s.push(x).drop_first()));
    } else {
        lemma_count_seq_push(s.drop_first(), x);
        assert(s.push(x).drop_first() =~= s.drop_first().push(x));
        assert(s.push(x)[0] == s[0]);
        assert(s.push(x).len() == s.len() + 1);
        assert(count_seq(s.push(x)) == 1 + count_spec(s[0]) + count_seq(s.push(x).drop_first()));
        assert(count_seq(s.push(x).drop_first()) == count_seq(s.drop_first()) + 1 + count_spec(x));
        assert(count_seq(s) == 1 + count_spec(s[0]) + count_seq(s.drop_first()));
    }
}

/// Appending a tree to a forest takes the maximum of the depths.
pub proof fn lemma_depth_seq_push(s: Seq<DependencyNode>, x: DependencyNode)
    ensures
        depth_seq_max(s.push(x)) == if depth_seq_max(s) >= depth_spec(x) {
            depth_seq_max(s)
        } else {
            depth_spec(x)
        },
    decreases s.len(),
{
    if s.len() == 0 {
        assert(s.push(x)[0] == x);
        assert(s.push(x).drop_first() =~= Seq::<DependencyNode>::empty());
        assert(depth_seq_max(s.push(x).drop_first()) == 0);
        assert(depth_seq_max(s) == 0);
        assert(depth_seq_max(s.push(x)) == depth_spec(x));
    } else {
        lemma_depth_seq_push(s.drop_first(), x);
        assert(s.push(x).drop_first() =~= s.drop_first().push(x));
        assert(s.push(x)[0] == s[0]);
        assert(s.push(x).len() == s.len() + 1);
        assert(depth_seq_max(s.push(x)) == if depth_spec(s[0]) >= depth_seq_max(
            s.push(x).drop_first(),
        ) {
            depth_spec(s[0])
        } else {
            depth_seq_max(s.push(x).drop_first())
        });
        assert(depth_seq_max(s) == if depth_spec(s[0]) >= depth_seq_max(s.drop_first()) {
            depth_spec(s[0])
        } else {
            depth_seq_max(s.drop_first())
        });
    }
}

/// A tree in a forest is no deeper than the forest's maximum.
pub proof fn lemma_depth_in_seq(s: Seq<DependencyNode>, i: int)
    requires
        0 <= i < s.len(),
    ensures
        depth_spec(s[i]) <= depth_seq_max(s),
    decreases s.len(),
{
    if i == 0 {
    } else {
        lemma_depth_in_seq(s.drop_first(), i - 1);
    }
}

/// Searching a forest extended by one tree searches the prefix first.
pub proof fn lemma_find_in_seq_push(s: Seq<DependencyNode>, x: DependencyNode, name: Seq<char>)
    ensures
        find_in_seq(s.push(x), name) == match find_in_seq(s, name) {
            Some(f) => Some(f),
            None => find_node_spec(x, name),
        },
    decreases s.len(),
{
    if s.len() == 0 {
        assert(s.push(x)[0] == x);
        assert(s.push(x).drop_first() =~= Seq::<DependencyNode>::empty());
        assert(find_in_seq(s.push(x).drop_first(), name) is None);
        assert(find_in_seq(s, name) is None);
        assert(find_in_seq(s.push(x), name) == match find_node_spec(x, name) {
            Some(f) => Some(f),
            None => find_in_seq(s.push(x).drop_first(), name),
        });
    } else {
        lemma_find_in_seq_push(s.drop_first(), x, name);
        assert(s.push(x).drop_first() =~= s.drop_first().push(x));
        assert(s.push(x)[0] == s[0]);
        assert(s.push(x).len() == s.len() + 1);
        assert(find_in_seq(s.push(x), name) == match find_node_spec(s[0], name) {
            Some(f) => Some(f),
            None => find_in_seq(s.push(x).drop_first(), name),
        });
        assert(find_in_seq(s, name) == match find_node_spec(s[0], name) {
            Some(f) => Some(f),
            None => find_in_seq(s.drop_first(), name),
        });
    }
}

/// A hit in a prefix of the forest is the hit for the whole forest.
pub proof fn lemma_find_in_seq_prefix_found(
    s: Seq<DependencyNode>,
    k: int,
    name: Seq<char>,
    f: DependencyNode,
)
    requires
        0 <= k <= s.len(),
        find_in_seq(s.take(k), name) == Some(f),
    ensures
        find_in_seq(s, name) == Some(f),
    decreases k,
{
    if k == 0 {
        assert(s.take(0) =~= Seq::<DependencyNode>::empty());
        assert(false);
    } else {
        assert(s.take(k)[0] == s[0]);
        match find_node_spec(s[0], name) {
            Some(g) => {},
            None => {
                assert(s.take(k).drop_first() =~= s.drop_first().take(k - 1));
                lemma_find_in_seq_prefix_found(s.drop_first(), k - 1, name, f);
            },
        }
    }
}

impl DependencyNode {
    /// Create a leaf node.
    pub fn new(name: String, version: String, classification: Classification, is_direct: bool) -> (r:
        Self)
        ensures
            r.name == name,
            r.version == version,
            r.classification == classification,
            r.is_direct == is_direct,
            r.dependencies@ =~= Seq::<DependencyNode>::empty(),
    {
        Self { name, version, classification, dependencies: Vec::new(), is_direct }
    }

    /// Append a child node.
    pub fn add_dependency(&mut self, dependency: DependencyNode)
        ensures
            final(self).dependencies@ == old(self).dependencies@.push(dependency),
            final(self).name == old(self).name,
            final(self).version == old(self).version,
            final(self).classification == old(self).classification,
            final(self).is_direct == old(self).is_direct,
    {
        self.dependencies.push(dependency);
    }

    /// The child nodes.
    pub fn get_dependencies(&self) -> (r: &Vec<DependencyNode>)
        ensures
            r == &self.dependencies,
    {
        &self.dependencies
    }

    /// Count all nodes below this one, at every level.
    pub fn count_total_dependencies(&self) -> (r: usize)
        requires
            count_spec(*self) <= usize::MAX,
        ensures
            r == count_spec(*self),
        decreases count_spec(*self),
    {
        let n = self.dependencies.len();
        let mut count: usize = n;
        proof {
            lemma_count_seq_ge_len(self.dependencies@);
            assert(self.dependencies@.take(0) =~= Seq::<DependencyNode>::empty());
        }
        let mut i: usize = 0;
        while i < n
            invariant
                i <= n,
                n == self.dependencies@.len(),
                count_seq(self.dependencies@) <= usize::MAX,
                count_spec(*self) == count_seq(self.dependencies@),
                count == count_seq(self.dependencies@.take(i as int)) + (n - i),
            decreases n - i,
        {
            let s = Ghost(self.dependencies@);
            proof {
                lemma_count_seq_split(s@, i as int);
                assert(s@.skip(i as int)[0] == s@[i as int]);
                assert(s@.skip(i as int).drop_first() =~= s@.skip(i + 1));
                lemma_count_seq_ge_len(s@.skip(i + 1));
                lemma_count_seq_push(s@.take(i as int), s@[i as int]);
                assert(s@.take(i as int).push(s@[i as int]) =~= s@.take(i + 1));
            }
            let child_count = self.dependencies[i].count_total_dependencies();
            count = count + child_count;
            i = i + 1;
        }
        proof {
            assert(self.dependencies@.take(n as int) =~= self.dependencies@);
        }
        count
    }

    /// Find the first node named `name` in this subtree, depth first.
    pub fn find_dependency(&self, name: &str) -> (r: Option<&DependencyNode>)
        ensures
            match find_node_spec(*self, name@) {
                Some(f) => r is Some && *r->0 == f,
                None => r is None,
            },
        decreases count_spec(*self),
    {
        if str_eq_str(self.name.as_str(), name) {
            return Some(self);
        }
        let n = self.dependencies.len();
        proof {
            assert(self.dependencies@.take(0) =~= Seq::<DependencyNode>::empty());
        }
        let mut i: usize = 0;
        while i < n
            invariant
                i <= n,
                n == self.dependencies@.len(),
                self.name@ != name@,
                find_node_spec(*self, name@) == find_in_seq(self.dependencies@, name@),
                find_in_seq(self.dependencies@.take(i as int), name@) is None,
            decreases n - i,
        {
            let s = Ghost(self.dependencies@);
            proof {
                lemma_count_seq_split(s@, i as int);
                assert(s@.skip(i as int)[0] == s@[i as int]);
                assert(s@.skip(i as int).drop_first() =~= s@.skip(i + 1));
                lemma_count_seq_ge_len(s@.skip(i + 1));
                lemma_find_in_seq_push(s@.take(i as int), s@[i as int], name@);
                assert(s@.take(i as int).push(s@[i as int]) =~= s@.take(i + 1));
            }
            match self.dependencies[i].find_dependency(name) {
                Some(f) => {
                    proof {
                        lemma_find_in_seq_prefix_found(s@, i + 1, name@, *f);
                    }
                    return Some(f);
                },
                None => {},
            }
            i = i + 1;
        }
        proof {
            assert(self.dependencies@.take(n as int) =~= self.dependencies@);
        }
        None
    }

    /// Depth of this subtree: zero for a leaf.
    pub fn max_depth(&self) -> (r: usize)
        requires
            depth_spec(*self) <= usize::MAX,
        ensures
            r == depth_spec(*self),
        decreases count_spec(*self),
    {
        let n = self.dependencies.len();
        if n == 0 {
            return 0;
        }
        proof {
            assert(self.dependencies@.take(0) =~= Seq::<DependencyNode>::empty());
        }
        let mut maxd: usize = 0;
        let mut i: usize = 0;
        while i < n
            invariant
                i <= n,
                n == self.dependencies@.len(),
                n > 0,
                depth_spec(*self) == 1 + depth_seq_max(self.dependencies@),
                depth_seq_max(self.dependencies@) < usize::MAX,
                maxd == depth_seq_max(self.dependencies@.take(i as int)),
            decreases n - i,
        {
            let s = Ghost(self.dependencies@);
            proof {
                lemma_count_seq_split(s@, i as int);
                assert(s@.skip(i as int)[0] == s@[i as int]);
                assert(s@.skip(i as int).drop_first() =~= s@.skip(i + 1));
                lemma_count_seq_ge_len(s@.skip(i + 1));
                lemma_depth_in_seq(s@, i as int);
                lemma_depth_seq_push(s@.take(i as int), s@[i as int]);
                assert(s@.take(i as int).push(s@[i as int]) =~= s@.take(i + 1));
            }
            let d = self.dependencies[i].max_depth();
            if d > maxd {
                maxd = d;
            }
            i = i + 1;
        }
        proof {
            assert(self.dependencies@.take(n as int) =~= self.dependencies@);
        }
        1 + maxd
    }
}

/// A complete dependency tree for one application.
#[derive(Debug)]
pub struct DependencyTree {
    /// The application the tree belongs to
    pub application: Application,
    /// Top-level nodes: the application's installed direct dependencies
    pub roots: Vec<DependencyNode>,
}

impl DependencyTree {
    /// Create an empty tree for an application.
    pub fn new(application: Application) -> (r: Self)
        ensures
            r.application == application,
            r.roots@ =~= Seq::<DependencyNode>::empty(),
    {
        Self { application, roots: Vec::new() }
    }

    /// Append a root node.
    pub fn add_root(&mut self, node: DependencyNode)
        ensures
            final(self).roots@ == old(self).roots@.push(node),
            final(self).application == old(self).application,
    {
        self.roots.push(node);
    }

    /// The root nodes.
    pub fn get_roots(&self) -> (r: &Vec<DependencyNode>)
        ensures
            r == &self.roots,
    {
        &self.roots
    }

    /// Count every node in the tree, at every level.
    pub fn count_total_dependencies(&self) -> (r: usize)
        requires
            count_seq(self.roots@) <= usize::MAX,
        ensures
            r == count_seq(self.roots@),
    {
        let n = self.roots.len();
        let mut count: usize = n;
        proof {
            lemma_count_seq_ge_len(self.roots@);
            assert(self.roots@.take(0) =~= Seq::<DependencyNode>::empty());
        }
        let mut i: usize = 0;
        while i < n
            invariant
                i <= n,
                n == self.roots@.len(),
                count_seq(self.roots@) <= usize::MAX,
                count == count_seq(self.roots@.take(i as int)) + (n - i),
            decreases n - i,
        {
            let s = Ghost(self.roots@);
            proof {
                lemma_count_seq_split(s@, i as int);
                assert(s@.skip(i as int)[0] == s@[i as int]);
                assert(s@.skip(i as int).drop_first() =~= s@.skip(i + 1));
                lemma_count_seq_ge_len(s@.skip(i + 1));
                lemma_count_seq_push(s@.take(i as int), s@[i as int]);
                assert(s@.take(i as int).push(s@[i as int]) =~= s@.take(i + 1));
            }
            let child_count = self.roots[i].count_total_dependencies();
            count = count + child_count;
            i = i + 1;
        }
        proof {
            assert(self.roots@.take(n as int) =~= self.roots@);
        }
        count
    }

    /// Find the first node named `name` anywhere in the tree.
    pub fn find_dependency(&self, name: &str) -> (r: Option<&DependencyNode>)
        ensures
            match find_in_seq(self.roots@, name@) {
                Some(f) => r is Some && *r->0 == f,
                None => r is None,
            },
    {
        let n = self.roots.len();
        proof {
            assert(self.roots@.take(0) =~= Seq::<DependencyNode>::empty());
        }
        let mut i: usize = 0;
        while i < n
            invariant
                i <= n,
                n == self.roots@.len(),
                find_in_seq(self.roots@.take(i as int), name@) is None,
            decreases n - i,
        {
            let s = Ghost(self.roots@);
            proof {
                lemma_find_in_seq_push(s@.take(i as int), s@[i as int], name@);
                assert(s@.take(i as int).push(s@[i as int]) =~= s@.take(i + 1));
            }
            match self.roots[i].find_dependency(name) {
                Some(f) => {
                    proof {
                        lemma_find_in_seq_prefix_found(s@, i + 1, name@, *f);
                    }
                    return Some(f);
                },
                None => {},
            }
            i = i + 1;
        }
        proof {
            assert(self.roots@.take(n as int) =~= self.roots@);
        }
        None
    }

    /// The largest depth of any root's subtree.
    pub fn max_depth(&self) -> (r: usize)
        requires
            depth_seq_max(self.roots@) <= usize::MAX,
        ensures
            r == depth_seq_max(self.roots@),
    {
        let n = self.roots.len();
        proof {
            assert(self.roots@.take(0) =~= Seq::<DependencyNode>::empty());
        }
        let mut maxd: usize = 0;
        let mut i: usize = 0;
        while i < n
            invariant
                i <= n,
                n == self.roots@.len(),
                depth_seq_max(self.roots@) <= usize::MAX,
                maxd == depth_seq_max(self.roots@.take(i as int)),
            decreases n - i,
        {
            let s = Ghost(self.roots@);
            proof {
                lemma_depth_in_seq(s@, i as int);
                lemma_depth_seq_push(s@.take(i as int), s@[i as int]);
                assert(s@.take(i as int).push(s@[i as int]) =~= s@.take(i + 1));
            }
            let d = self.roots[i].max_depth();
            if d > maxd {
                maxd = d;
            }
            i = i + 1;
        }
        proof {
            assert(self.roots@.take(n as int) =~= self.roots@);
        }
        maxd
    }
}

} // verus!
