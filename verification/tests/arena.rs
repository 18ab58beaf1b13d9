use a3mo::repository::arena::{arena_records, to_arena};
use a3mo::repository::codec::{decode, encode, FormatError};
use a3mo::repository::entity::FileSystemEntity;
use a3mo::repository::manifest::Node;
use indextree::Arena;

fn entity(name: &str, is_folder: bool, hash: u64) -> FileSystemEntity {
    FileSystemEntity { name: name.to_string(), is_folder, hash }
}

fn node(name: &str, is_folder: bool, hash: u64, parent: Option<usize>) -> Node {
    Node { entity: entity(name, is_folder, hash), parent }
}

fn plain(records: &[Node]) -> Vec<(String, bool, u64, Option<usize>)> {
    records
        .iter()
        .map(|n| (n.entity.name.clone(), n.entity.is_folder, n.entity.hash, n.parent))
        .collect()
}

#[test]
fn the_arena_of_a_manifest_holds_its_nodes_and_links() {
    let m = decode(vec![
        node("@mod/addon.pbo", false, 123456789, Some(2)),
        node("", true, 0, None),
        node("@mod", true, 0, Some(1)),
        node("top.txt", false, 5, Some(1)),
    ])
    .unwrap();
    let arena = to_arena(&m);
    assert_eq!(arena.count(), 4);
    let nodes: Vec<_> = arena.iter().collect();
    assert_eq!(nodes[0].get().name, "@mod/addon.pbo");
    assert_eq!(nodes[0].get().hash, 123456789);
    assert_eq!(nodes[0].parent().map(usize::from), Some(3));
    assert_eq!(nodes[1].parent(), None);
    assert_eq!(nodes[2].parent().map(usize::from), Some(2));
    assert_eq!(nodes[3].parent().map(usize::from), Some(2));
    assert!(nodes.iter().all(|n| !n.is_removed()));
    let root = arena.iter_node_ids().nth(1).unwrap();
    let below: Vec<usize> = root.children(&arena).map(usize::from).collect();
    assert_eq!(below, vec![3, 4]);
    let all: Vec<usize> = root.descendants(&arena).map(usize::from).collect();
    assert_eq!(all, vec![2, 3, 1, 4]);
}

#[test]
fn reading_the_arena_of_a_manifest_gives_its_records() {
    let m = decode(vec![
        node("", true, 0, None),
        node("@mod", true, 0, Some(0)),
        node("@mod/addon.pbo", false, 123456789, Some(1)),
    ])
    .unwrap();
    let records = arena_records(&to_arena(&m)).unwrap();
    assert_eq!(plain(&records), plain(&encode(&m)));
    assert_eq!(decode(records).unwrap().root(), 0);
}

#[test]
fn an_arena_filled_by_hand_is_read_the_same_way() {
    let mut arena = Arena::new();
    let file = arena.new_node(entity("@mod/a.pbo", false, 7));
    let root = arena.new_node(entity("", true, 0));
    let folder = arena.new_node(entity("@mod", true, 0));
    root.append(folder, &mut arena);
    folder.append(file, &mut arena);
    let records = arena_records(&arena).unwrap();
    assert_eq!(
        plain(&records),
        vec![
            ("@mod/a.pbo".to_string(), false, 7, Some(2)),
            ("".to_string(), true, 0, None),
            ("@mod".to_string(), true, 0, Some(1)),
        ]
    );
}

#[test]
fn an_empty_arena_has_no_records() {
    let arena: Arena<FileSystemEntity> = Arena::new();
    assert!(arena_records(&arena).unwrap().is_empty());
}

#[test]
fn an_arena_with_a_removed_node_is_refused() {
    let mut arena = Arena::new();
    let root = arena.new_node(entity("", true, 0));
    let gone = arena.new_node(entity("gone", false, 1));
    root.append(gone, &mut arena);
    gone.remove(&mut arena);
    assert_eq!(arena_records(&arena).unwrap_err(), FormatError::MissingNode);
}
