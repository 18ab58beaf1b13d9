//! The manifest on the wire: its nodes as flat records, each with the handle
//! of its parent. Encoding lists the records in arena order; decoding accepts
//! exactly the record lists that form one valid tree.

use crate::repository::manifest::{
    depth_within, nodes_view, parents_are_folders, sibling_names_unique, valid_tree, Manifest,
    ManifestView, Node, NodeView,
};
use vstd::prelude::*;

verus! {

/// Why a list of records is no manifest.
#[derive(Clone, Copy, Debug, PartialEq, Eq, Structural)]
pub enum FormatError {
    /// No record is without parent.
    NoRoot,
    /// More than one record is without parent.
    SeveralRoots,
    /// A parent handle names no record, or names a file.
    BrokenParent,
    /// Following the parent handles from some record never ends.
    ParentCycle,
    /// Two records with the same parent have the same name.
    DuplicateSibling,
    /// A slot of the arena read holds no entity, or its node was removed.
    MissingNode,
}

/// Every record has a parent.
pub open spec fn no_root(nodes: Seq<NodeView>) -> bool {
    forall|i: int| 0 <= i < nodes.len() ==> (#[trigger] nodes[i]).parent is Some
}

/// Two records are without parent.
pub open spec fn several_roots(nodes: Seq<NodeView>) -> bool {
    exists|i: int, j: int|
        0 <= i < j < nodes.len() && (#[trigger] nodes[i]).parent is None && (
        #[trigger] nodes[j]).parent is None
}

/// Following the parent handles from some record does not end.
pub open spec fn has_cycle(nodes: Seq<NodeView>) -> bool {
    exists|i: int| 0 <= i < nodes.len() && (#[trigger] depth_within(nodes, i, nodes.len())) is None
}

/// The handle of a record without parent.
pub open spec fn root_of(nodes: Seq<NodeView>) -> int {
    choose|r: int| 0 <= r < nodes.len() && (#[trigger] nodes[r]).parent is None
}

/// What is wrong with a list of records, if anything: the first that applies
/// of no root, several roots, a broken parent handle, a cycle, and two
/// siblings of one name.
pub open spec fn format_error(nodes: Seq<NodeView>) -> Option<FormatError> {
    if no_root(nodes) {
        Some(FormatError::NoRoot)
    } else if several_roots(nodes) {
        Some(FormatError::SeveralRoots)
    } else if !parents_are_folders(nodes) {
        Some(FormatError::BrokenParent)
    } else if has_cycle(nodes) {
        Some(FormatError::ParentCycle)
    } else if !sibling_names_unique(nodes) {
        Some(FormatError::DuplicateSibling)
    } else {
        None
    }
}

/// The manifest that a list of records stands for, or what is wrong with it.
pub open spec fn decoded(nodes: Seq<NodeView>) -> Result<ManifestView, FormatError> {
    match format_error(nodes) {
        Some(e) => Err(e),
        None => Ok(ManifestView { nodes, root: root_of(nodes) }),
    }
}

/// The records of a manifest: its nodes in arena order.
pub open spec fn encoded(t: ManifestView) -> Seq<NodeView> {
    t.nodes
}

/// Decoding what encoding gave returns the manifest that was encoded.
pub proof fn lemma_round_trip(t: ManifestView)
    requires
        valid_tree(t),
    ensures
        decoded(encoded(t)) == Ok::<ManifestView, FormatError>(t),
{
    let nodes = t.nodes;
    assert(nodes[t.root].parent is None);
    assert(!no_root(nodes));
    assert(!several_roots(nodes));
    assert(!has_cycle(nodes));
    assert(root_of(nodes) == t.root);
}

/// What decoding accepts is a valid tree.
pub proof fn lemma_decoded_is_valid(nodes: Seq<NodeView>)
    requires
        decoded(nodes) is Ok,
    ensures
        valid_tree(decoded(nodes).unwrap()),
{
    let t = decoded(nodes).unwrap();
    assert(exists|r: int| 0 <= r < nodes.len() && (#[trigger] nodes[r]).parent is None) by {
        if forall|r: int| 0 <= r < nodes.len() ==> (#[trigger] nodes[r]).parent is Some {
            assert(no_root(nodes));
        }
    }
    let r = t.root;
    assert forall|i: int| 0 <= i < nodes.len() implies ((#[trigger] nodes[i]).parent is None <==> i
        == r) by {
        if nodes[i].parent is None && i != r {
            if i < r {
                assert(nodes[i].parent is None && nodes[r].parent is None);
            } else {
                assert(nodes[r].parent is None && nodes[i].parent is None);
            }
            assert(several_roots(nodes));
        }
    }
    assert forall|i: int| 0 <= i < nodes.len() implies (#[trigger] depth_within(
        nodes,
        i,
        nodes.len(),
    )) is Some by {
        if depth_within(nodes, i, nodes.len()) is None {
            assert(has_cycle(nodes));
        }
    }
}

/// The records of a manifest, in arena order.
pub fn encode(manifest: &Manifest) -> (records: Vec<Node>)
    ensures
        nodes_view(records@) == encoded(manifest@),
{
    let n: usize = manifest.len();
    let mut records: Vec<Node> = Vec::new();
    let mut i: usize = 0;
    while i < n
        invariant
            i <= n,
            n == manifest@.nodes.len(),
            records.len() == i,
            forall|j: int| 0 <= j < i ==> (#[trigger] records[j])@ == manifest@.nodes[j],
        decreases n - i,
    {
        let entity = manifest.entity(i).duplicate();
        let parent = manifest.parent(i);
        records.push(Node { entity, parent });
        i += 1;
    }
    assert(nodes_view(records@) =~= manifest@.nodes);
    records
}

/// Whether following the parent handles from record `i` ends within as many
/// links as there are records.
fn chain_ends(records: &Vec<Node>, i: usize) -> (r: bool)
    requires
        i < records.len(),
        parents_are_folders(nodes_view(records@)),
    ensures
        r == depth_within(nodes_view(records@), i as int, records.len() as nat) is Some,
{
    let ghost nodes = nodes_view(records@);
    let n: usize = records.len();
    let mut cur: usize = i;
    let mut fuel: usize = n;
    loop
        invariant
            nodes == nodes_view(records@),
            parents_are_folders(nodes),
            n == records.len(),
            cur < n,
            fuel <= n,
            depth_within(nodes, i as int, n as nat) is Some <==> depth_within(
                nodes,
                cur as int,
                fuel as nat,
            ) is Some,
        decreases fuel,
    {
        assert(nodes[cur as int] == records[cur as int]@);
        match records[cur].parent {
            None => {
                return true;
            },
            Some(p) => {
                if fuel == 0 {
                    return false;
                }
                cur = p;
                fuel -= 1;
            },
        }
    }
}

/// The manifest that `records` stand for.
///
/// Succeeds exactly when the records form one valid tree, and then returns
/// it with the records in their order; else tells what is wrong.
pub fn decode(records: Vec<Node>) -> (r: Result<Manifest, FormatError>)
    ensures
        match r {
            Ok(m) => decoded(nodes_view(records@)) == Ok::<ManifestView, FormatError>(m@)
                && valid_tree(m@),
            Err(e) => decoded(nodes_view(records@)) == Err::<ManifestView, FormatError>(e),
        },
{
    let ghost nodes = nodes_view(records@);
    let n: usize = records.len();
    let mut root: Option<usize> = None;
    let mut i: usize = 0;
    while i < n
        invariant
            i <= n,
            n == records.len(),
            nodes == nodes_view(records@),
            match root {
                Some(r) => r < i && nodes[r as int].parent is None && forall|j: int|
                    0 <= j < i && j != r ==> (#[trigger] nodes[j]).parent is Some,
                None => forall|j: int| 0 <= j < i ==> (#[trigger] nodes[j]).parent is Some,
            },
        decreases n - i,
    {
        assert(nodes[i as int] == records[i as int]@);
        if records[i].parent.is_none() {
            match root {
                Some(r) => {
                    assert(nodes[r as int].parent is None && nodes[i as int].parent is None);
                    assert(!no_root(nodes));
                    return Err(FormatError::SeveralRoots);
                },
                None => {
                    root = Some(i);
                },
            }
        }
        i += 1;
    }
    let root: usize = match root {
        Some(r) => r,
        None => {
            return Err(FormatError::NoRoot);
        },
    };
    assert(!no_root(nodes));
    assert(!several_roots(nodes));
    assert(root_of(nodes) == root);
    let mut i: usize = 0;
    while i < n
        invariant
            i <= n,
            n == records.len(),
            nodes == nodes_view(records@),
            !no_root(nodes),
            !several_roots(nodes),
            forall|j: int|
                0 <= j < i ==> match (#[trigger] nodes[j]).parent {
                    Some(p) => 0 <= p < nodes.len() && nodes[p].entity.is_folder,
                    None => true,
                },
        decreases n - i,
    {
        assert(nodes[i as int] == records[i as int]@);
        match records[i].parent {
            Some(p) => {
                if p >= n {
                    assert(!parents_are_folders(nodes));
                    return Err(FormatError::BrokenParent);
                }
                assert(nodes[p as int] == records[p as int]@);
                if !records[p].entity.is_folder {
                    assert(!parents_are_folders(nodes));
                    return Err(FormatError::BrokenParent);
                }
            },
            None => {},
        }
        i += 1;
    }
    assert(parents_are_folders(nodes));
    let mut i: usize = 0;
    while i < n
        invariant
            i <= n,
            n == records.len(),
            nodes == nodes_view(records@),
            !no_root(nodes),
            !several_roots(nodes),
            parents_are_folders(nodes),
            forall|j: int| 0 <= j < i ==> (#[trigger] depth_within(nodes, j, n as nat)) is Some,
        decreases n - i,
    {
        if !chain_ends(&records, i) {
            assert(has_cycle(nodes));
            return Err(FormatError::ParentCycle);
        }
        i += 1;
    }
    assert(!has_cycle(nodes));
    let mut i: usize = 0;
    while i < n
        invariant
            i <= n,
            n == records.len(),
            nodes == nodes_view(records@),
            !no_root(nodes),
            !several_roots(nodes),
            parents_are_folders(nodes),
            !has_cycle(nodes),
            forall|a: int, b: int|
                0 <= a < b < i && (#[trigger] nodes[a]).parent == (#[trigger] nodes[b]).parent
                    ==> nodes[a].entity.name != nodes[b].entity.name,
        decreases n - i,
    {
        let mut k: usize = 0;
        while k < i
            invariant
                k <= i < n,
                n == records.len(),
                nodes == nodes_view(records@),
                !no_root(nodes),
                !several_roots(nodes),
                parents_are_folders(nodes),
                !has_cycle(nodes),
                forall|a: int|
                    0 <= a < k && (#[trigger] nodes[a]).parent == nodes[i as int].parent
                        ==> nodes[a].entity.name != nodes[i as int].entity.name,
            decreases i - k,
        {
            assert(nodes[i as int] == records[i as int]@);
            assert(nodes[k as int] == records[k as int]@);
            if same_parent(records[k].parent, records[i].parent) && records[k].entity.name
                == records[i].entity.name {
                assert(!sibling_names_unique(nodes));
                return Err(FormatError::DuplicateSibling);
            }
            k += 1;
        }
        i += 1;
    }
    assert(sibling_names_unique(nodes));
    proof {
        lemma_decoded_is_valid(nodes);
    }
    Ok(Manifest::from_parts(records, root))
}

/// Whether two parent handles are the same.
fn same_parent(a: Option<usize>, b: Option<usize>) -> (r: bool)
    ensures
        r == (a == b),
{
    match (a, b) {
        (Some(x), Some(y)) => x == y,
        (None, None) => true,
        _ => false,
    }
}

} // verus!
