//! The manifest: the entities of one snapshot in an arena, each node with the
//! handle of the folder that holds it, rooted at exactly one node.

use crate::repository::entity::{EntityView, FileSystemEntity};
use vstd::prelude::*;
use vstd::set_lib::{lemma_int_range, lemma_len_subset, set_int_range};

verus! {

/// One node of the arena: an entity and the handle of its parent.
#[derive(Debug)]
pub struct Node {
    pub entity: FileSystemEntity,
    /// The handle of the folder that holds this entity; `None` for the root.
    pub parent: Option<usize>,
}

/// A node as a mathematical value.
pub struct NodeView {
    pub entity: EntityView,
    pub parent: Option<int>,
}

impl View for Node {
    type V = NodeView;

    open spec fn view(&self) -> NodeView {
        NodeView {
            entity: self.entity@,
            parent: match self.parent {
                Some(p) => Some(p as int),
                None => None,
            },
        }
    }
}

/// A manifest as a mathematical value: the nodes in arena order, and the
/// handle of the root.
pub struct ManifestView {
    pub nodes: Seq<NodeView>,
    pub root: int,
}

/// The nodes of an arena as mathematical values.
pub open spec fn nodes_view(nodes: Seq<Node>) -> Seq<NodeView> {
    Seq::new(nodes.len(), |i: int| nodes[i]@)
}

/// The number of parent links between node `i` and a node without parent, if
/// such a node is met within `fuel` links.
pub open spec fn depth_within(nodes: Seq<NodeView>, i: int, fuel: nat) -> Option<nat>
    decreases fuel,
{
    if !(0 <= i < nodes.len()) {
        None
    } else {
        match nodes[i].parent {
            None => Some(0nat),
            Some(p) => if fuel == 0 {
                None
            } else {
                match depth_within(nodes, p, (fuel - 1) as nat) {
                    Some(d) => Some(d + 1),
                    None => None,
                }
            },
        }
    }
}

/// The depth of node `i` in a valid tree: `0` for the root.
pub open spec fn depth_of(t: ManifestView, i: int) -> nat {
    depth_within(t.nodes, i, t.nodes.len()).unwrap()
}

/// Every parent handle names a node of the arena, and that node is a folder.
pub open spec fn parents_are_folders(nodes: Seq<NodeView>) -> bool {
    forall|i: int|
        0 <= i < nodes.len() ==> match (#[trigger] nodes[i]).parent {
            Some(p) => 0 <= p < nodes.len() && nodes[p].entity.is_folder,
            None => true,
        }
}

/// No two nodes with the same parent have the same name.
pub open spec fn sibling_names_unique(nodes: Seq<NodeView>) -> bool {
    forall|i: int, j: int|
        0 <= i < j < nodes.len() && (#[trigger] nodes[i]).parent == (#[trigger] nodes[j]).parent
            ==> nodes[i].entity.name != nodes[j].entity.name
}

/// What makes a manifest valid: there is exactly one node without parent,
/// the root; every other node hangs below a folder; following the parent
/// links from any node ends at the root; siblings differ in their names.
pub open spec fn valid_tree(t: ManifestView) -> bool {
    &&& 0 <= t.root < t.nodes.len()
    &&& forall|i: int| 0 <= i < t.nodes.len() ==> ((#[trigger] t.nodes[i]).parent is None <==> i == t.root)
    &&& parents_are_folders(t.nodes)
    &&& forall|i: int| 0 <= i < t.nodes.len() ==> (#[trigger] depth_within(t.nodes, i, t.nodes.len())) is Some
    &&& sibling_names_unique(t.nodes)
}

/// The `k`-th node on the way from node `i` up to the root: `i` itself for
/// `k == 0`, its parent for `k == 1`.
pub open spec fn ancestor(nodes: Seq<NodeView>, i: int, k: nat) -> Option<int>
    decreases k,
{
    if !(0 <= i < nodes.len()) {
        None
    } else if k == 0 {
        Some(i)
    } else {
        match nodes[i].parent {
            Some(p) => ancestor(nodes, p, (k - 1) as nat),
            None => None,
        }
    }
}

/// A depth found within some fuel is at most that fuel.
pub proof fn lemma_depth_bound(nodes: Seq<NodeView>, i: int, fuel: nat)
    requires
        depth_within(nodes, i, fuel) is Some,
    ensures
        depth_within(nodes, i, fuel).unwrap() <= fuel,
    decreases fuel,
{
    if let Some(p) = nodes[i].parent {
        lemma_depth_bound(nodes, p, (fuel - 1) as nat);
    }
}

/// A depth found within some fuel is found within any fuel that is at least
/// the depth.
pub proof fn lemma_depth_fuel(nodes: Seq<NodeView>, i: int, fuel: nat, other: nat)
    requires
        depth_within(nodes, i, fuel) is Some,
        depth_within(nodes, i, fuel).unwrap() <= other,
    ensures
        depth_within(nodes, i, other) == depth_within(nodes, i, fuel),
    decreases fuel,
{
    if let Some(p) = nodes[i].parent {
        lemma_depth_fuel(nodes, p, (fuel - 1) as nat, (other - 1) as nat);
    }
}

/// A rank that grows along every parent link: each parent handle names a node
/// of the arena, and that node ranks below its child.
pub open spec fn ranked(nodes: Seq<NodeView>, rank: spec_fn(int) -> nat) -> bool {
    forall|j: int|
        0 <= j < nodes.len() ==> match (#[trigger] nodes[j]).parent {
            Some(p) => 0 <= p < nodes.len() && rank(p) < rank(j),
            None => true,
        }
}

/// The nodes met on the way up from node `i` within `fuel` links.
pub open spec fn chain(nodes: Seq<NodeView>, i: int, fuel: nat) -> Set<int>
    decreases fuel,
{
    if !(0 <= i < nodes.len()) {
        Set::empty()
    } else {
        match nodes[i].parent {
            None => set![i],
            Some(p) => if fuel == 0 {
                set![i]
            } else {
                chain(nodes, p, (fuel - 1) as nat).insert(i)
            },
        }
    }
}

proof fn lemma_depth_by_rank(nodes: Seq<NodeView>, rank: spec_fn(int) -> nat, i: int)
    requires
        ranked(nodes, rank),
        0 <= i < nodes.len(),
    ensures
        depth_within(nodes, i, rank(i)) is Some,
    decreases rank(i),
{
    if let Some(p) = nodes[i].parent {
        lemma_depth_by_rank(nodes, rank, p);
        lemma_depth_bound(nodes, p, rank(p));
        lemma_depth_fuel(nodes, p, rank(p), (rank(i) - 1) as nat);
    }
}

proof fn lemma_chain(nodes: Seq<NodeView>, rank: spec_fn(int) -> nat, i: int, fuel: nat)
    requires
        ranked(nodes, rank),
        depth_within(nodes, i, fuel) is Some,
    ensures
        chain(nodes, i, fuel).finite(),
        chain(nodes, i, fuel).len() == depth_within(nodes, i, fuel).unwrap() + 1,
        forall|x: int| #[trigger]
            chain(nodes, i, fuel).contains(x) ==> 0 <= x < nodes.len() && rank(x) <= rank(i),
    decreases fuel,
{
    if let Some(p) = nodes[i].parent {
        lemma_chain(nodes, rank, p, (fuel - 1) as nat);
        let above = chain(nodes, p, (fuel - 1) as nat);
        assert(!above.contains(i));
    }
}

/// Where a rank grows along every parent link, every node has a depth, and
/// that depth is found within as many links as the arena has nodes.
pub proof fn lemma_ranked_depth(nodes: Seq<NodeView>, rank: spec_fn(int) -> nat, i: int)
    requires
        ranked(nodes, rank),
        0 <= i < nodes.len(),
    ensures
        depth_within(nodes, i, nodes.len()) is Some,
{
    lemma_depth_by_rank(nodes, rank, i);
    lemma_chain(nodes, rank, i, rank(i));
    let on_the_way = chain(nodes, i, rank(i));
    let all = set_int_range(0, nodes.len() as int);
    lemma_int_range(0, nodes.len() as int);
    assert(on_the_way.subset_of(all));
    lemma_len_subset(on_the_way, all);
    lemma_depth_fuel(nodes, i, rank(i), nodes.len());
}

/// In a valid tree the root has depth `0`, and every other node is one
/// deeper than its parent.
pub proof fn lemma_depth_step(t: ManifestView, i: int)
    requires
        valid_tree(t),
        0 <= i < t.nodes.len(),
    ensures
        depth_of(t, i) <= t.nodes.len(),
        match t.nodes[i].parent {
            Some(p) => depth_of(t, i) == depth_of(t, p) + 1,
            None => depth_of(t, i) == 0,
        },
{
    let n = t.nodes.len();
    lemma_depth_bound(t.nodes, i, n);
    if let Some(p) = t.nodes[i].parent {
        lemma_depth_bound(t.nodes, p, (n - 1) as nat);
        lemma_depth_fuel(t.nodes, p, (n - 1) as nat, n);
    }
}

/// Every node of a valid manifest has a parent chain that ends at the root:
/// the ancestor that stands as many links up as the node is deep is the root.
pub proof fn lemma_parent_chain_ends_at_root(t: ManifestView, i: int)
    requires
        valid_tree(t),
        0 <= i < t.nodes.len(),
    ensures
        ancestor(t.nodes, i, depth_of(t, i)) == Some(t.root),
    decreases depth_of(t, i),
{
    lemma_depth_step(t, i);
    if let Some(p) = t.nodes[i].parent {
        lemma_parent_chain_ends_at_root(t, p);
    }
}

/// Node `a` stands before node `b` in the top-down order: it is less deep,
/// or as deep and earlier in the arena.
pub open spec fn precedes(t: ManifestView, a: int, b: int) -> bool {
    depth_of(t, a) < depth_of(t, b) || (depth_of(t, a) == depth_of(t, b) && a < b)
}

/// `order` holds the handle `i`.
pub open spec fn listed(order: Seq<usize>, i: int) -> bool {
    exists|k: int| 0 <= k < order.len() && #[trigger] order[k] == i
}

/// `order` lists every node of `t` once, top-down: by depth first, and by
/// handle among nodes of one depth.
pub open spec fn is_top_down(t: ManifestView, order: Seq<usize>) -> bool {
    &&& order.len() == t.nodes.len()
    &&& forall|k: int| 0 <= k < order.len() ==> (#[trigger] order[k]) < t.nodes.len()
    &&& forall|a: int, b: int|
        0 <= a < b < order.len() ==> precedes(t, #[trigger] order[a] as int, #[trigger] order[b] as int)
    &&& forall|i: int| 0 <= i < t.nodes.len() ==> #[trigger] listed(order, i)
}

/// In a top-down order, the root comes first and every other node comes
/// after its parent.
pub proof fn lemma_parent_comes_first(t: ManifestView, order: Seq<usize>, b: int)
    requires
        valid_tree(t),
        is_top_down(t, order),
        0 <= b < order.len(),
    ensures
        match t.nodes[order[b] as int].parent {
            Some(p) => exists|a: int| 0 <= a < b && #[trigger] order[a] == p,
            None => b == 0 && order[b] == t.root,
        },
{
    let child = order[b] as int;
    lemma_depth_step(t, child);
    match t.nodes[child].parent {
        Some(p) => {
            assert(listed(order, p));
            let a = choose|a: int| 0 <= a < order.len() && #[trigger] order[a] == p;
            if a > b {
                assert(precedes(t, order[b] as int, order[a] as int));
            }
        },
        None => {
            if b > 0 {
                let first = order[0] as int;
                assert(precedes(t, first, child));
                lemma_depth_step(t, first);
            }
        },
    }
}

/// A validated manifest.
#[derive(Debug)]
pub struct Manifest {
    nodes: Vec<Node>,
    root: usize,
}

impl View for Manifest {
    type V = ManifestView;

    closed spec fn view(&self) -> ManifestView {
        ManifestView { nodes: nodes_view(self.nodes@), root: self.root as int }
    }
}

impl Manifest {
    #[verifier::type_invariant]
    spec fn well_formed(&self) -> bool {
        valid_tree(self@)
    }

    /// The manifest over `nodes`, which form a valid tree rooted at `root`.
    pub(crate) fn from_parts(nodes: Vec<Node>, root: usize) -> (m: Manifest)
        requires
            valid_tree(ManifestView { nodes: nodes_view(nodes@), root: root as int }),
        ensures
            m@ == (ManifestView { nodes: nodes_view(nodes@), root: root as int }),
            valid_tree(m@),
    {
        Manifest { nodes, root }
    }

    /// The number of nodes.
    pub fn len(&self) -> (n: usize)
        ensures
            n == self@.nodes.len(),
            n > 0,
            valid_tree(self@),
    {
        proof {
            use_type_invariant(self);
        }
        self.nodes.len()
    }

    /// The handle of the root.
    pub fn root(&self) -> (r: usize)
        ensures
            r == self@.root,
            valid_tree(self@),
    {
        proof {
            use_type_invariant(self);
        }
        self.root
    }

    /// The node with handle `i`, if there is one.
    pub fn get(&self, i: usize) -> (node: Option<&Node>)
        ensures
            valid_tree(self@),
            match node {
                Some(nd) => i < self@.nodes.len() && nd@ == self@.nodes[i as int],
                None => i >= self@.nodes.len(),
            },
    {
        proof {
            use_type_invariant(self);
        }
        if i < self.nodes.len() {
            Some(&self.nodes[i])
        } else {
            None
        }
    }

    /// The entity of the node with handle `i`.
    pub fn entity(&self, i: usize) -> (e: &FileSystemEntity)
        requires
            i < self@.nodes.len(),
        ensures
            e@ == self@.nodes[i as int].entity,
    {
        &self.nodes[i].entity
    }

    /// The handle of the parent of the node with handle `i`.
    pub fn parent(&self, i: usize) -> (p: Option<usize>)
        requires
            i < self@.nodes.len(),
        ensures
            valid_tree(self@),
            match p {
                Some(h) => self@.nodes[i as int].parent == Some(h as int) && h < self@.nodes.len(),
                None => self@.nodes[i as int].parent is None,
            },
    {
        proof {
            use_type_invariant(self);
        }
        self.nodes[i].parent
    }

    /// The handles of the nodes that the node with handle `i` holds, in arena
    /// order.
    pub fn children(&self, i: usize) -> (held: Vec<usize>)
        ensures
            forall|k: int| 0 <= k < held@.len() ==> (#[trigger] held@[k]) < self@.nodes.len()
                && self@.nodes[held@[k] as int].parent == Some(i as int),
            forall|a: int, b: int| 0 <= a < b < held@.len() ==> held@[a] < held@[b],
            forall|j: int|
                0 <= j < self@.nodes.len() && (#[trigger] self@.nodes[j]).parent == Some(i as int)
                    ==> held@.contains(j as usize),
    {
        let n: usize = self.nodes.len();
        let mut held: Vec<usize> = Vec::new();
        let mut j: usize = 0;
        while j < n
            invariant
                j <= n,
                n == self@.nodes.len(),
                forall|k: int| 0 <= k < held@.len() ==> (#[trigger] held@[k]) < j
                    && self@.nodes[held@[k] as int].parent == Some(i as int),
                forall|a: int, b: int| 0 <= a < b < held@.len() ==> held@[a] < held@[b],
                forall|x: int|
                    0 <= x < j && (#[trigger] self@.nodes[x]).parent == Some(i as int)
                        ==> held@.contains(x as usize),
            decreases n - j,
        {
            assert(self@.nodes[j as int] == self.nodes@[j as int]@);
            let ghost before = held@;
            let hangs_here = match self.nodes[j].parent {
                Some(p) => p == i,
                None => false,
            };
            if hangs_here {
                held.push(j);
                assert(held@[before.len() as int] == j);
                assert forall|x: int|
                    0 <= x < j && (#[trigger] self@.nodes[x]).parent == Some(
                        i as int,
                    ) implies held@.contains(x as usize) by {
                    let k = choose|k: int| 0 <= k < before.len() && before[k] == x as usize;
                    assert(held@[k] == x as usize);
                }
            }
            j += 1;
        }
        held
    }

    /// The number of parent links between the node with handle `i` and the
    /// root.
    pub fn depth(&self, i: usize) -> (d: usize)
        requires
            i < self@.nodes.len(),
        ensures
            d == depth_of(self@, i as int),
    {
        proof {
            use_type_invariant(self);
            lemma_depth_step(self@, i as int);
        }
        let n: usize = self.nodes.len();
        let mut cur: usize = i;
        let mut d: usize = 0;
        loop
            invariant
                valid_tree(self@),
                cur < self@.nodes.len(),
                depth_of(self@, i as int) == depth_of(self@, cur as int) + d,
                depth_of(self@, i as int) <= n,
            ensures
                d == depth_of(self@, i as int),
            decreases depth_of(self@, cur as int),
        {
            proof {
                lemma_depth_step(self@, cur as int);
            }
            match self.nodes[cur].parent {
                Some(p) => {
                    cur = p;
                    d += 1;
                },
                None => {
                    break ;
                },
            }
        }
        d
    }

    /// The handles of all nodes, top-down: the root first, every node after
    /// its parent.
    pub fn top_down(&self) -> (order: Vec<usize>)
        ensures
            valid_tree(self@),
            is_top_down(self@, order@),
    {
        proof {
            use_type_invariant(self);
        }
        let n: usize = self.nodes.len();
        let mut depths: Vec<usize> = Vec::new();
        let mut deepest: usize = 0;
        let mut i: usize = 0;
        while i < n
            invariant
                i <= n,
                n == self@.nodes.len(),
                depths.len() == i,
                forall|j: int| 0 <= j < i ==> #[trigger] depths[j] == depth_of(self@, j),
                forall|j: int| 0 <= j < i ==> #[trigger] depths[j] <= deepest,
            decreases n - i,
        {
            let d = self.depth(i);
            if d > deepest {
                deepest = d;
            }
            depths.push(d);
            i += 1;
        }
        let ghost t = self@;
        let mut order: Vec<usize> = Vec::new();
        let mut layer: usize = 0;
        loop
            invariant_except_break
                forall|k: int| 0 <= k < order.len() ==> depth_of(t, #[trigger] order[k] as int) < layer,
                forall|j: int|
                    0 <= j < n && depth_of(t, j) < layer ==> #[trigger] listed(order@, j),
            invariant
                layer <= deepest,
                t == self@,
                n == t.nodes.len(),
                depths.len() == n,
                forall|j: int| 0 <= j < n ==> #[trigger] depths[j] == depth_of(t, j),
                forall|j: int| 0 <= j < n ==> #[trigger] depths[j] <= deepest,
                forall|k: int| 0 <= k < order.len() ==> (#[trigger] order[k]) < n,
                forall|a: int, b: int|
                    0 <= a < b < order.len() ==> precedes(
                        t,
                        #[trigger] order[a] as int,
                        #[trigger] order[b] as int,
                    ),
            ensures
                forall|k: int| 0 <= k < order.len() ==> (#[trigger] order[k]) < n,
                forall|a: int, b: int|
                    0 <= a < b < order.len() ==> precedes(
                        t,
                        #[trigger] order[a] as int,
                        #[trigger] order[b] as int,
                    ),
                forall|j: int| 0 <= j < n ==> #[trigger] listed(order@, j),
            decreases deepest - layer,
        {
            let mut j: usize = 0;
            while j < n
                invariant
                    j <= n,
                    layer <= deepest,
                    n == t.nodes.len(),
                    depths.len() == n,
                    forall|x: int| 0 <= x < n ==> #[trigger] depths[x] == depth_of(t, x),
                    forall|k: int| 0 <= k < order.len() ==> (#[trigger] order[k]) < n,
                    forall|k: int|
                        0 <= k < order.len() ==> depth_of(t, #[trigger] order[k] as int) < layer || (
                        depth_of(t, order[k] as int) == layer && order[k] < j),
                    forall|a: int, b: int|
                        0 <= a < b < order.len() ==> precedes(
                            t,
                            #[trigger] order[a] as int,
                            #[trigger] order[b] as int,
                        ),
                    forall|x: int|
                        0 <= x < n && (depth_of(t, x) < layer || (depth_of(t, x) == layer && x < j))
                            ==> #[trigger] listed(order@, x),
                decreases n - j,
            {
                if depths[j] == layer {
                    let ghost before = order@;
                    order.push(j);
                    proof {
                        assert forall|x: int|
                            0 <= x < n && (depth_of(t, x) < layer || (depth_of(t, x) == layer && x
                                < j + 1)) implies #[trigger] listed(order@, x) by {
                            if x == j {
                                assert(order[before.len() as int] == x);
                            } else {
                                assert(listed(before, x));
                                let k = choose|k: int| 0 <= k < before.len() && #[trigger] before[k] == x;
                                assert(order[k] == x);
                            }
                        }
                    }
                }
                j += 1;
            }
            if layer == deepest {
                proof {
                    assert forall|x: int| 0 <= x < n implies #[trigger] listed(order@, x) by {
                        assert(depths[x] <= deepest);
                    }
                }
                break ;
            }
            layer += 1;
        }
        proof {
            let seen = order@.to_set();
            let all = Set::new(|x: usize| x < n);
            assert(order@.no_duplicates()) by {
                assert forall|a: int, b: int|
                    0 <= a < order.len() && 0 <= b < order.len() && a != b implies order[a]
                    != order[b] by {
                    if a < b {
                        assert(precedes(t, order[a] as int, order[b] as int));
                    } else {
                        assert(precedes(t, order[b] as int, order[a] as int));
                    }
                }
            }
            order@.unique_seq_to_set();
            assert(seen =~= all) by {
                assert forall|x: usize| all.contains(x) implies seen.contains(x) by {
                    assert(listed(order@, x as int));
                    let k = choose|k: int| 0 <= k < order.len() && #[trigger] order[k] == x as int;
                    assert(order@[k] == x);
                }
            }
            lemma_below_count(n);
        }
        order
    }
}

/// There are `n` machine integers below `n`.
proof fn lemma_below_count(n: usize)
    ensures
        Set::new(|x: usize| x < n).finite(),
        Set::new(|x: usize| x < n).len() == n,
    decreases n,
{
    let below = Set::new(|x: usize| x < n);
    if n == 0 {
        assert(below =~= Set::<usize>::empty());
    } else {
        let m = (n - 1) as usize;
        lemma_below_count(m);
        assert(below =~= Set::new(|x: usize| x < m).insert(m));
    }
}

} // verus!
