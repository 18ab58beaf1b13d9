//! Building the manifest of a snapshot: every entity becomes a node, then each
//! node but the root is hung below the folder that its name says holds it.

use crate::crypto::xx_hasher::CryptoError;
use crate::repository::codec::{decoded, encoded, lemma_round_trip};
use crate::repository::entity::{
    lemma_parent_name_shorter, parent_name, parent_name_of, EntityView, FileSystemEntity,
};
use crate::repository::manifest::{
    depth_within, lemma_ranked_depth, nodes_view, parents_are_folders, ranked,
    sibling_names_unique, valid_tree, Manifest, ManifestView, Node,
};
use vstd::multiset::Multiset;
use vstd::prelude::*;
use vstd::seq_lib::{
    to_multiset_build, to_multiset_contains, to_multiset_len, to_multiset_remove,
};

verus! {

/// Why a repository could not be built.
#[derive(Debug)]
pub enum BuildRepoError {
    /// The folder of the repository does not exist.
    FolderNotFound,
    /// The entities do not form one tree: a name occurs twice, no entity is
    /// the root, or an entity has no folder to hang below.
    NodeAppendError,
    /// A file could not be fingerprinted.
    CryptoError { source: CryptoError },
}

/// The entities of a list as mathematical values.
pub open spec fn entity_views(es: Seq<FileSystemEntity>) -> Seq<EntityView> {
    Seq::new(es.len(), |i: int| es[i]@)
}

/// No name occurs twice.
pub open spec fn names_distinct(es: Seq<EntityView>) -> bool {
    forall|i: int, j: int|
        0 <= i < j < es.len() ==> (#[trigger] es[i]).name != (#[trigger] es[j]).name
}

/// Some entity has the name `name`.
pub open spec fn has_name(es: Seq<EntityView>, name: Seq<char>) -> bool {
    exists|p: int| 0 <= p < es.len() && (#[trigger] es[p]).name == name
}

/// Some folder has the name `name`.
pub open spec fn has_folder(es: Seq<EntityView>, name: Seq<char>) -> bool {
    exists|p: int| 0 <= p < es.len() && (#[trigger] es[p]).name == name && es[p].is_folder
}

/// The entities form one tree: no name occurs twice, one entity is the root
/// (its name is empty), and every other entity lies in a folder of the list.
pub open spec fn linkable(es: Seq<EntityView>) -> bool {
    &&& names_distinct(es)
    &&& has_name(es, Seq::empty())
    &&& forall|i: int|
        0 <= i < es.len() && (#[trigger] es[i]).name.len() > 0 ==> has_folder(
            es,
            parent_name(es[i].name),
        )
}

/// `t` holds the entities `es`, in their order, each below the entity that
/// its name says holds it, and the root is the entity with the empty name.
pub open spec fn links_by_name(es: Seq<EntityView>, t: ManifestView) -> bool {
    &&& t.nodes.len() == es.len()
    &&& 0 <= t.root < es.len()
    &&& es[t.root].name.len() == 0
    &&& forall|i: int| 0 <= i < es.len() ==> (#[trigger] t.nodes[i]).entity == es[i]
    &&& forall|i: int|
        0 <= i < es.len() ==> match (#[trigger] t.nodes[i]).parent {
            Some(p) => es[i].name.len() > 0 && 0 <= p < es.len() && es[p].name == parent_name(
                es[i].name,
            ),
            None => es[i].name.len() == 0,
        }
}

/// The handle of the first entity with the name `name`, if there is one.
pub fn find_name(entities: &Vec<FileSystemEntity>, name: &String) -> (r: Option<usize>)
    ensures
        match r {
            Some(i) => i < entities.len() && entities[i as int]@.name == name@ && forall|j: int|
                0 <= j < i ==> (#[trigger] entities[j])@.name != name@,
            None => forall|j: int|
                0 <= j < entities.len() ==> (#[trigger] entities[j])@.name != name@,
        },
{
    let mut i: usize = 0;
    while i < entities.len()
        invariant
            i <= entities.len(),
            forall|j: int| 0 <= j < i ==> (#[trigger] entities[j])@.name != name@,
        decreases entities.len() - i,
    {
        if entities[i].name == *name {
            return Some(i);
        }
        i += 1;
    }
    None
}

/// Where the names of a tree that is linked by name are distinct, the tree is
/// valid once every parent is a folder.
proof fn lemma_linked_is_valid(es: Seq<EntityView>, t: ManifestView)
    requires
        names_distinct(es),
        links_by_name(es, t),
        forall|i: int|
            0 <= i < es.len() ==> match (#[trigger] t.nodes[i]).parent {
                Some(p) => 0 <= p < es.len() && es[p].is_folder,
                None => true,
            },
    ensures
        valid_tree(t),
{
    let rank = |i: int| es[i].name.len();
    assert forall|j: int| 0 <= j < t.nodes.len() implies match (#[trigger] t.nodes[j]).parent {
        Some(p) => 0 <= p < t.nodes.len() && rank(p) < rank(j),
        None => true,
    } by {
        if t.nodes[j].parent is Some {
            lemma_parent_name_shorter(es[j].name);
        }
    }
    assert(ranked(t.nodes, rank));
    assert forall|i: int| 0 <= i < t.nodes.len() implies (#[trigger] depth_within(
        t.nodes,
        i,
        t.nodes.len(),
    )) is Some by {
        lemma_ranked_depth(t.nodes, rank, i);
    }
    assert(parents_are_folders(t.nodes)) by {
        assert forall|i: int| 0 <= i < t.nodes.len() implies match (#[trigger] t.nodes[i]).parent {
            Some(p) => 0 <= p < t.nodes.len() && t.nodes[p].entity.is_folder,
            None => true,
        } by {
            if let Some(p) = t.nodes[i].parent {
                assert(t.nodes[p].entity == es[p]);
            }
        }
    }
    assert forall|i: int| 0 <= i < t.nodes.len() implies ((#[trigger] t.nodes[i]).parent is None
        <==> i == t.root) by {
        if t.nodes[i].parent is None && i != t.root {
            assert(es[i].name =~= es[t.root].name);
            if i < t.root {
                assert(es[i].name != es[t.root].name);
            } else {
                assert(es[t.root].name != es[i].name);
            }
        }
    }
    assert forall|i: int, j: int|
        0 <= i < j < t.nodes.len() && (#[trigger] t.nodes[i]).parent == (
        #[trigger] t.nodes[j]).parent implies t.nodes[i].entity.name != t.nodes[j].entity.name by {
        assert(es[i].name != es[j].name);
    }
    assert(sibling_names_unique(t.nodes));
}

/// Builds the manifest of the entities of one snapshot.
///
/// Succeeds exactly when the entities form one tree; the manifest then holds
/// them in their order, each below the folder that its name says holds it.
/// An entity that has no such folder fails the build: it is not left out.
pub fn build_tree(entities: Vec<FileSystemEntity>) -> (r: Result<Manifest, BuildRepoError>)
    ensures
        r is Ok <==> linkable(entity_views(entities@)),
        match r {
            Ok(m) => valid_tree(m@) && links_by_name(entity_views(entities@), m@),
            Err(e) => e == BuildRepoError::NodeAppendError,
        },
{
    let n: usize = entities.len();
    let ghost es = entity_views(entities@);
    let mut parents: Vec<Option<usize>> = Vec::new();
    let mut root: Option<usize> = None;
    let mut i: usize = 0;
    while i < n
        invariant
            i <= n,
            n == entities.len(),
            es == entity_views(entities@),
            parents.len() == i,
            forall|a: int, b: int| 0 <= a < b < i ==> (#[trigger] es[a]).name != (#[trigger] es[b]).name,
            match root {
                Some(r) => r < i && es[r as int].name.len() == 0,
                None => forall|a: int| 0 <= a < i ==> (#[trigger] es[a]).name.len() > 0,
            },
            forall|a: int|
                0 <= a < i ==> match #[trigger] parents[a] {
                    Some(p) => es[a].name.len() > 0 && p < n && es[p as int].name == parent_name(
                        es[a].name,
                    ) && es[p as int].is_folder,
                    None => es[a].name.len() == 0,
                },
        decreases n - i,
    {
        let entity = &entities[i];
        assert(entity@ == es[i as int]);
        match find_name(&entities, &entity.name) {
            Some(first) => {
                assert(entities[first as int]@ == es[first as int]);
                if first != i {
                    assert(es[first as int].name == es[i as int].name);
                    assert(!names_distinct(es));
                    return Err(BuildRepoError::NodeAppendError);
                }
                assert forall|a: int| 0 <= a < i implies (#[trigger] es[a]).name != es[i as int].name by {
                    assert(entities[a]@ == es[a]);
                }
            },
            None => {
                assert(false);
            },
        }
        if entity.is_root() {
            root = Some(i);
            parents.push(None);
        } else {
            let folder = parent_name_of(entity.name.as_str());
            match find_name(&entities, &folder) {
                Some(p) => {
                    assert(entities[p as int]@ == es[p as int]);
                    if !entities[p].is_folder {
                        proof {
                            if has_folder(es, folder@) {
                                let q = choose|q: int|
                                    0 <= q < es.len() && (#[trigger] es[q]).name == folder@
                                        && es[q].is_folder;
                                assert(q != p);
                                if q < p {
                                    assert(es[q].name == es[p as int].name);
                                } else {
                                    assert(es[p as int].name == es[q].name);
                                }
                                assert(!names_distinct(es));
                            }
                        }
                        return Err(BuildRepoError::NodeAppendError);
                    }
                    parents.push(Some(p));
                },
                None => {
                    proof {
                        if has_folder(es, folder@) {
                            let q = choose|q: int|
                                0 <= q < es.len() && (#[trigger] es[q]).name == folder@
                                    && es[q].is_folder;
                            assert(entities[q]@ == es[q]);
                        }
                    }
                    return Err(BuildRepoError::NodeAppendError);
                },
            }
        }
        i += 1;
    }
    let root: usize = match root {
        Some(r) => r,
        None => {
            proof {
                if has_name(es, Seq::empty()) {
                    let q = choose|q: int|
                        0 <= q < es.len() && (#[trigger] es[q]).name == Seq::<char>::empty();
                    assert(es[q].name.len() == 0);
                }
            }
            return Err(BuildRepoError::NodeAppendError);
        },
    };
    let mut nodes: Vec<Node> = Vec::new();
    for entity in it: entities
        invariant
            it.seq() == entities@,
            n == entities@.len(),
            parents.len() == n,
            nodes.len() == it.index(),
            forall|a: int|
                0 <= a < it.index() ==> (#[trigger] nodes[a]).entity == entities@[a]
                    && nodes[a].parent == parents[a],
    {
        let k: usize = nodes.len();
        nodes.push(Node { entity, parent: parents[k] });
    }
    let ghost t = ManifestView { nodes: nodes_view(nodes@), root: root as int };
    proof {
        assert(links_by_name(es, t));
        assert(has_name(es, Seq::empty())) by {
            assert(es[root as int].name =~= Seq::<char>::empty());
        }
        assert forall|a: int| 0 <= a < es.len() && (#[trigger] es[a]).name.len() > 0 implies has_folder(
            es,
            parent_name(es[a].name),
        ) by {
            let p = parents[a].unwrap() as int;
            assert(es[p].name == parent_name(es[a].name) && es[p].is_folder);
        }
        assert forall|a: int| 0 <= a < es.len() implies match (#[trigger] t.nodes[a]).parent {
            Some(p) => 0 <= p < es.len() && es[p].is_folder,
            None => true,
        } by {
            assert(t.nodes[a].parent == nodes[a]@.parent);
            assert(nodes[a].parent == parents[a]);
        }
        lemma_linked_is_valid(es, t);
    }
    Ok(Manifest::from_parts(nodes, root))
}

/// What a node is apart from its place in the arena: name, kind, hash, and
/// the name of its parent.
pub type NodeTuple = (Seq<char>, bool, u64, Option<Seq<char>>);

/// The tuple of node `i` of `t`.
pub open spec fn node_tuple(t: ManifestView, i: int) -> NodeTuple {
    let node = t.nodes[i];
    (
        node.entity.name,
        node.entity.is_folder,
        node.entity.hash,
        match node.parent {
            Some(p) => Some(t.nodes[p].entity.name),
            None => None,
        },
    )
}

/// The tuples of the nodes of `t`, without their order.
pub open spec fn tuples(t: ManifestView) -> Multiset<NodeTuple> {
    Seq::new(t.nodes.len(), |i: int| node_tuple(t, i)).to_multiset()
}

/// Two manifests are structurally equal where they hold the same tuples.
pub open spec fn structurally_equal(a: ManifestView, b: ManifestView) -> bool {
    tuples(a) == tuples(b)
}

/// The tuple that the entity `e` gets in a tree that is linked by name.
pub open spec fn entity_tuple(e: EntityView) -> NodeTuple {
    (
        e.name,
        e.is_folder,
        e.hash,
        if e.name.len() == 0 {
            None
        } else {
            Some(parent_name(e.name))
        },
    )
}

/// Two lists that hold the same values as often hold, once `f` is applied to
/// each value, the same values as often again.
pub proof fn lemma_map_keeps_multiset<A, B>(a: Seq<A>, b: Seq<A>, f: spec_fn(A) -> B)
    requires
        a.to_multiset() == b.to_multiset(),
    ensures
        a.map_values(f).to_multiset() == b.map_values(f).to_multiset(),
    decreases a.len(),
{
    broadcast use vstd::multiset::group_multiset_axioms;

    to_multiset_len(a);
    to_multiset_len(b);
    if a.len() == 0 {
        assert(a.map_values(f) =~= b.map_values(f));
    } else {
        let x = a.last();
        let front = a.drop_last();
        assert(a =~= front.push(x));
        to_multiset_build(front, x);
        to_multiset_contains(b, x);
        assert(b.contains(x));
        let k = choose|k: int| 0 <= k < b.len() && b[k] == x;
        let rest = b.remove(k);
        to_multiset_remove(b, k);
        assert(front.to_multiset() =~= a.to_multiset().remove(x));
        lemma_map_keeps_multiset(front, rest, f);
        let fa = a.map_values(f);
        let fb = b.map_values(f);
        assert(fa =~= front.map_values(f).push(f(x)));
        to_multiset_build(front.map_values(f), f(x));
        assert(fb.remove(k) =~= rest.map_values(f));
        to_multiset_remove(fb, k);
        to_multiset_contains(fb, f(x));
        assert(fb[k] == f(x));
        assert(fb.contains(f(x)));
        assert(fb.to_multiset() =~= rest.map_values(f).to_multiset().insert(f(x)));
    }
}

/// The order in which the entities of one snapshot are handed to the builder
/// does not show in what is built: two trees that are linked by name over
/// lists of the same entities are structurally equal.
pub proof fn lemma_build_order_independent(
    es1: Seq<EntityView>,
    t1: ManifestView,
    es2: Seq<EntityView>,
    t2: ManifestView,
)
    requires
        es1.to_multiset() == es2.to_multiset(),
        links_by_name(es1, t1),
        links_by_name(es2, t2),
    ensures
        structurally_equal(t1, t2),
{
    let f = |e: EntityView| entity_tuple(e);
    assert(Seq::new(t1.nodes.len(), |i: int| node_tuple(t1, i)) =~= es1.map_values(f));
    assert(Seq::new(t2.nodes.len(), |i: int| node_tuple(t2, i)) =~= es2.map_values(f));
    lemma_map_keeps_multiset(es1, es2, f);
}

/// What two builds over the same entities publish decodes to manifests that
/// are structurally equal, in whatever order each build was handed the
/// entities.
pub proof fn lemma_published_manifests_agree(
    es1: Seq<EntityView>,
    t1: ManifestView,
    es2: Seq<EntityView>,
    t2: ManifestView,
)
    requires
        es1.to_multiset() == es2.to_multiset(),
        valid_tree(t1),
        links_by_name(es1, t1),
        valid_tree(t2),
        links_by_name(es2, t2),
    ensures
        decoded(encoded(t1)) is Ok,
        decoded(encoded(t2)) is Ok,
        structurally_equal(decoded(encoded(t1)).unwrap(), decoded(encoded(t2)).unwrap()),
{
    lemma_round_trip(t1);
    lemma_round_trip(t2);
    lemma_build_order_independent(es1, t1, es2, t2);
}

/// An entity with no folder to hang below fails the build: a list that holds
/// an entity other than the root whose holding folder is not in the list is
/// not linkable.
pub proof fn lemma_orphan_fails_the_build(es: Seq<EntityView>, i: int)
    requires
        0 <= i < es.len(),
        es[i].name.len() > 0,
        !has_folder(es, parent_name(es[i].name)),
    ensures
        !linkable(es),
{
}

/// A tree under construction: entities are put in one by one, and only
/// `finish` links them, once all are there.
#[derive(Debug)]
pub struct TreeBuilder {
    entities: Vec<FileSystemEntity>,
}

impl View for TreeBuilder {
    type V = Seq<EntityView>;

    closed spec fn view(&self) -> Seq<EntityView> {
        entity_views(self.entities@)
    }
}

impl TreeBuilder {
    /// A builder that holds no entity.
    pub fn new() -> (builder: TreeBuilder)
        ensures
            builder@ == Seq::<EntityView>::empty(),
    {
        let builder = TreeBuilder { entities: Vec::new() };
        assert(builder@ =~= Seq::<EntityView>::empty());
        builder
    }

    /// Puts `entity` in, and returns the handle that its node will have.
    pub fn insert(&mut self, entity: FileSystemEntity) -> (handle: usize)
        ensures
            final(self)@ == old(self)@.push(entity@),
            handle == old(self)@.len(),
    {
        let handle: usize = self.entities.len();
        self.entities.push(entity);
        assert(self@ =~= old(self)@.push(entity@));
        handle
    }

    /// Links what was put in: `build_tree` of the entities in the order in
    /// which they came.
    pub fn finish(self) -> (r: Result<Manifest, BuildRepoError>)
        ensures
            r is Ok <==> linkable(self@),
            match r {
                Ok(m) => valid_tree(m@) && links_by_name(self@, m@),
                Err(e) => e == BuildRepoError::NodeAppendError,
            },
    {
        build_tree(self.entities)
    }
}

} // verus!
