//! The manifest in an `indextree` arena, the shape in which it is written to
//! the wire and read from it. Each slot of the arena holds one entity; a
//! node's handle in the arena is its handle in the manifest plus one.

use crate::repository::codec::FormatError;
use crate::repository::entity::{EntityView, FileSystemEntity};
use crate::repository::manifest::{
    is_top_down, lemma_depth_step, listed, nodes_view, precedes, valid_tree, Manifest, Node,
    NodeView,
};
use indextree::Arena;
use std::num::NonZeroUsize;
use vstd::prelude::*;

verus! {

/// The arena of the `indextree` crate, carried through unread.
#[verifier::external_type_specification]
#[verifier::external_body]
#[verifier::reject_recursive_types(T)]
pub struct ExArena<T>(indextree::Arena<T>);

/// What an arena of entities holds, slot by slot in storage order: whether
/// the node of the slot was removed; the name, folder tag and hash of the
/// entity, where the slot holds one; the handle of the node's parent, where
/// it has one. Handles count from one.
pub uninterp spec fn arena_slots(arena: Arena<FileSystemEntity>) -> Seq<
    (bool, Option<(Seq<char>, bool, u64)>, Option<int>),
>;

/// One slot of an arena, as plain values.
pub type Slot = (bool, Option<(Seq<char>, bool, u64)>, Option<int>);

/// An entity as a slot holds it.
pub open spec fn entity_data(e: EntityView) -> (Seq<char>, bool, u64) {
    (e.name, e.is_folder, e.hash)
}

/// No node was removed and every slot holds an entity.
pub open spec fn kept(slots: Seq<Slot>) -> bool {
    forall|i: int| 0 <= i < slots.len() ==> !(#[trigger] slots[i]).0 && slots[i].1 is Some
}

/// No node has the node with handle `handle` as its parent.
pub open spec fn childless(slots: Seq<Slot>, handle: int) -> bool {
    forall|i: int| 0 <= i < slots.len() ==> (#[trigger] slots[i]).2 != Some(handle)
}

/// The slot that holds the node `node` of a manifest.
pub open spec fn slot_of(node: NodeView) -> Slot {
    (
        false,
        Some(entity_data(node.entity)),
        match node.parent {
            Some(p) => Some(p + 1),
            None => None,
        },
    )
}

/// The slots of the arena that holds the nodes `nodes`.
pub open spec fn slots_of(nodes: Seq<NodeView>) -> Seq<Slot> {
    Seq::new(nodes.len(), |i: int| slot_of(nodes[i]))
}

/// The record that a slot with an entity stands for.
pub open spec fn record_of(slot: Slot) -> NodeView {
    NodeView {
        entity: EntityView { name: slot.1.unwrap().0, is_folder: slot.1.unwrap().1, hash: slot.1.unwrap().2 },
        parent: match slot.2 {
            Some(h) => Some(h - 1),
            None => None,
        },
    }
}

/// The records that the slots of an arena stand for.
pub open spec fn records_of(slots: Seq<Slot>) -> Seq<NodeView> {
    Seq::new(slots.len(), |i: int| record_of(slots[i]))
}

/// Reading the arena of a manifest gives the records of that manifest.
pub proof fn lemma_arena_round_trip(nodes: Seq<NodeView>)
    ensures
        kept(slots_of(nodes)),
        records_of(slots_of(nodes)) == nodes,
{
    assert(records_of(slots_of(nodes)) =~= nodes);
}

/// `indextree::Arena::new`. Trusted: the new arena has no slot.
#[verifier::external_body]
fn arena_new() -> (arena: Arena<FileSystemEntity>)
    ensures
        arena_slots(arena) == Seq::<Slot>::empty(),
{
    Arena::new()
}

/// `indextree::Arena::new_node`, in an arena from which no node was removed.
/// Trusted: the entity goes into a new slot behind the others, as a node
/// without parent, and the handle returned is the number of that slot.
#[verifier::external_body]
fn arena_new_node(arena: &mut Arena<FileSystemEntity>, entity: FileSystemEntity) -> (handle: usize)
    requires
        kept(arena_slots(*old(arena))),
    ensures
        arena_slots(*final(arena)) == arena_slots(*old(arena)).push(
            (false, Some(entity_data(entity@)), None),
        ),
        handle == arena_slots(*old(arena)).len() + 1,
{
    usize::from(arena.new_node(entity))
}

/// `indextree::NodeId::checked_append` of the node with handle `child` to
/// the node with handle `parent`, in an arena from which no node was
/// removed. Trusted: where it succeeds, `parent` is the parent of `child`
/// afterwards and nothing else of what the slots tell has changed; where it
/// fails, nothing has changed; and it succeeds where the two nodes differ
/// and `child` has no children.
#[verifier::external_body]
fn arena_append(arena: &mut Arena<FileSystemEntity>, parent: usize, child: usize) -> (done: bool)
    requires
        kept(arena_slots(*old(arena))),
        1 <= parent <= arena_slots(*old(arena)).len(),
        1 <= child <= arena_slots(*old(arena)).len(),
    ensures
        done ==> arena_slots(*final(arena)) == arena_slots(*old(arena)).update(
            child - 1,
            (false, arena_slots(*old(arena))[child - 1].1, Some(parent as int)),
        ),
        !done ==> arena_slots(*final(arena)) == arena_slots(*old(arena)),
        parent != child && childless(arena_slots(*old(arena)), child as int) ==> done,
{
    let above = NonZeroUsize::new(parent).and_then(|h| arena.get_node_id_at(h));
    let below = NonZeroUsize::new(child).and_then(|h| arena.get_node_id_at(h));
    match (above, below) {
        (Some(p), Some(c)) => p.checked_append(c, arena).is_ok(),
        _ => false,
    }
}

/// `indextree::Arena::iter`, each node read with `Node::is_removed`,
/// `Node::try_get` and `Node::parent`. Trusted: the items are what the slots
/// hold, in storage order, and every handle of a parent is at least one.
#[verifier::external_body]
fn arena_items(arena: &Arena<FileSystemEntity>) -> (items: Vec<
    (bool, Option<FileSystemEntity>, Option<usize>),
>)
    ensures
        items@.len() == arena_slots(*arena).len(),
        forall|i: int|
            0 <= i < items@.len() ==> item_is_slot(#[trigger] items@[i], arena_slots(*arena)[i]),
{
    arena.iter().map(
        |node|
            (
                node.is_removed(),
                node.try_get().map(FileSystemEntity::duplicate),
                node.parent().map(usize::from),
            ),
    ).collect()
}

/// The item `item` tells what the slot `slot` holds.
pub open spec fn item_is_slot(item: (bool, Option<FileSystemEntity>, Option<usize>), slot: Slot) -> bool {
    &&& item.0 == slot.0
    &&& match item.1 {
        Some(e) => slot.1 == Some(entity_data(e@)),
        None => slot.1 is None,
    }
    &&& match item.2 {
        Some(h) => h >= 1 && slot.2 == Some(h as int),
        None => slot.2 is None,
    }
}

/// The arena that holds `manifest`: every node in a slot of its own, in
/// arena order, each appended to its parent.
pub fn to_arena(manifest: &Manifest) -> (arena: Arena<FileSystemEntity>)
    ensures
        arena_slots(arena) == slots_of(manifest@.nodes),
{
    let n: usize = manifest.len();
    let ghost t = manifest@;
    let mut arena = arena_new();
    let mut i: usize = 0;
    while i < n
        invariant
            i <= n,
            t == manifest@,
            n == t.nodes.len(),
            arena_slots(arena).len() == i,
            forall|j: int|
                0 <= j < i ==> #[trigger] arena_slots(arena)[j] == (
                    false,
                    Some(entity_data(t.nodes[j].entity)),
                    None::<int>,
                ),
        decreases n - i,
    {
        let _handle = arena_new_node(&mut arena, manifest.entity(i).duplicate());
        i += 1;
    }
    let order = manifest.top_down();
    let mut k: usize = 0;
    while k < n
        invariant
            k <= n,
            t == manifest@,
            valid_tree(t),
            is_top_down(t, order@),
            n == t.nodes.len(),
            arena_slots(arena).len() == n,
            forall|j: int|
                0 <= j < n ==> #[trigger] arena_slots(arena)[j] == (
                    false,
                    Some(entity_data(t.nodes[j].entity)),
                    if listed(order@.take(k as int), j) {
                        slot_of(t.nodes[j]).2
                    } else {
                        None
                    },
                ),
        decreases n - k,
    {
        let c: usize = order[k];
        let ghost before = arena_slots(arena);
        let ghost seen = order@.take(k as int);
        let ghost next = order@.take(k + 1);
        proof {
            assert(next[k as int] == c);
            assert(listed(next, c as int));
            assert(!listed(seen, c as int)) by {
                if listed(seen, c as int) {
                    let a = choose|a: int| 0 <= a < seen.len() && #[trigger] seen[a] == c as int;
                    assert(precedes(t, order@[a] as int, order@[k as int] as int));
                }
            }
            assert forall|j: int| 0 <= j < n && j != c implies listed(next, j) == listed(seen, j) by {
                if listed(next, j) {
                    let a = choose|a: int| 0 <= a < next.len() && #[trigger] next[a] == j;
                    assert(seen[a] == j);
                }
                if listed(seen, j) {
                    let a = choose|a: int| 0 <= a < seen.len() && #[trigger] seen[a] == j;
                    assert(next[a] == j);
                }
            }
        }
        match manifest.parent(c) {
            Some(p) => {
                proof {
                    lemma_depth_step(t, c as int);
                    assert forall|j: int| 0 <= j < before.len() implies (#[trigger] before[j]).2
                        != Some(c + 1) by {
                        if before[j].2 == Some(c + 1) {
                            assert(listed(seen, j));
                            let a = choose|a: int| 0 <= a < seen.len() && #[trigger] seen[a] == j;
                            assert(precedes(t, order@[a] as int, order@[k as int] as int));
                            lemma_depth_step(t, j);
                        }
                    }
                    assert(childless(before, c + 1));
                }
                let done = arena_append(&mut arena, p + 1, c + 1);
                assert(done);
            },
            None => {},
        }
        k += 1;
    }
    proof {
        assert(order@.take(n as int) == order@);
        assert(arena_slots(arena) =~= slots_of(t.nodes));
    }
    arena
}

/// The records that `arena` stands for.
///
/// Fails exactly when a node of the arena was removed or a slot holds no
/// entity; else every slot gives one record, with the handle of its parent
/// counted from zero.
pub fn arena_records(arena: &Arena<FileSystemEntity>) -> (r: Result<Vec<Node>, FormatError>)
    ensures
        r is Ok <==> kept(arena_slots(*arena)),
        match r {
            Ok(records) => nodes_view(records@) == records_of(arena_slots(*arena)),
            Err(e) => e == FormatError::MissingNode,
        },
{
    let ghost slots = arena_slots(*arena);
    let items = arena_items(arena);
    let mut records: Vec<Node> = Vec::new();
    for item in it: items
        invariant
            it.seq() == items@,
            slots == arena_slots(*arena),
            items@.len() == slots.len(),
            forall|i: int| 0 <= i < items@.len() ==> item_is_slot(#[trigger] items@[i], slots[i]),
            records.len() == it.index(),
            forall|j: int| 0 <= j < it.index() ==> !(#[trigger] slots[j]).0 && slots[j].1 is Some,
            forall|j: int| 0 <= j < it.index() ==> (#[trigger] records[j])@ == record_of(slots[j]),
    {
        let ghost k = records.len() as int;
        assert(item_is_slot(items@[k], slots[k]));
        let (removed, held, above) = item;
        if removed {
            assert(slots[k].0);
            return Err(FormatError::MissingNode);
        }
        let entity = match held {
            Some(e) => e,
            None => {
                assert(slots[k].1 is None);
                return Err(FormatError::MissingNode);
            },
        };
        let parent: Option<usize> = match above {
            Some(h) => Some(h - 1),
            None => None,
        };
        records.push(Node { entity, parent });
    }
    assert(nodes_view(records@) =~= records_of(slots));
    assert(kept(slots));
    Ok(records)
}

} // verus!
