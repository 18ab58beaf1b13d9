use a3mo::repository::codec::{decode, encode, FormatError};
use a3mo::repository::entity::FileSystemEntity;
use a3mo::repository::manifest::Node;
use a3mo::repository::tree::build_tree;

fn node(name: &str, is_folder: bool, hash: u64, parent: Option<usize>) -> Node {
    Node { entity: FileSystemEntity { name: name.to_string(), is_folder, hash }, parent }
}

fn plain(records: &[Node]) -> Vec<(String, bool, u64, Option<usize>)> {
    records
        .iter()
        .map(|n| (n.entity.name.clone(), n.entity.is_folder, n.entity.hash, n.parent))
        .collect()
}

#[test]
fn encoding_lists_the_nodes_in_arena_order() {
    let m = build_tree(vec![
        FileSystemEntity { name: "@mod/a.pbo".to_string(), is_folder: false, hash: 77 },
        FileSystemEntity { name: "".to_string(), is_folder: true, hash: 0 },
        FileSystemEntity { name: "@mod".to_string(), is_folder: true, hash: 0 },
    ])
    .unwrap();
    assert_eq!(
        plain(&encode(&m)),
        vec![
            ("@mod/a.pbo".to_string(), false, 77, Some(2)),
            ("".to_string(), true, 0, None),
            ("@mod".to_string(), true, 0, Some(1)),
        ]
    );
}

#[test]
fn decoding_what_was_encoded_gives_the_manifest_back() {
    let m = build_tree(vec![
        FileSystemEntity { name: "".to_string(), is_folder: true, hash: 0 },
        FileSystemEntity { name: "@mod".to_string(), is_folder: true, hash: 0 },
        FileSystemEntity { name: "@mod/a.pbo".to_string(), is_folder: false, hash: 77 },
    ])
    .unwrap();
    let records = encode(&m);
    let before = plain(&records);
    let back = decode(records).unwrap();
    assert_eq!(back.root(), m.root());
    assert_eq!(plain(&encode(&back)), before);
}

#[test]
fn decoding_accepts_any_arena_order() {
    let m = decode(vec![
        node("x", false, 1, Some(2)),
        node("other", true, 0, Some(2)),
        node("top", true, 0, None),
    ])
    .unwrap();
    assert_eq!(m.root(), 2);
    assert_eq!(m.top_down(), vec![2, 0, 1]);
}

#[test]
fn decoding_rejects_records_without_root() {
    assert_eq!(decode(Vec::new()).unwrap_err(), FormatError::NoRoot);
    let r = decode(vec![node("a", true, 0, Some(1)), node("b", true, 0, Some(0))]);
    assert_eq!(r.unwrap_err(), FormatError::NoRoot);
}

#[test]
fn decoding_rejects_several_roots() {
    let r = decode(vec![node("", true, 0, None), node("stray", false, 3, None)]);
    assert_eq!(r.unwrap_err(), FormatError::SeveralRoots);
}

#[test]
fn decoding_rejects_a_parent_that_is_not_there() {
    let r = decode(vec![node("", true, 0, None), node("a", false, 3, Some(7))]);
    assert_eq!(r.unwrap_err(), FormatError::BrokenParent);
}

#[test]
fn decoding_rejects_a_file_as_parent() {
    let r = decode(vec![
        node("", true, 0, None),
        node("a", false, 3, Some(0)),
        node("a/b", false, 4, Some(1)),
    ]);
    assert_eq!(r.unwrap_err(), FormatError::BrokenParent);
}

#[test]
fn decoding_rejects_a_cycle() {
    let r = decode(vec![
        node("", true, 0, None),
        node("a", true, 0, Some(2)),
        node("b", true, 0, Some(1)),
    ]);
    assert_eq!(r.unwrap_err(), FormatError::ParentCycle);
    let own = decode(vec![node("", true, 0, None), node("a", true, 0, Some(1))]);
    assert_eq!(own.unwrap_err(), FormatError::ParentCycle);
}

#[test]
fn decoding_rejects_siblings_of_one_name() {
    let r = decode(vec![
        node("", true, 0, None),
        node("a", false, 1, Some(0)),
        node("a", false, 2, Some(0)),
    ]);
    assert_eq!(r.unwrap_err(), FormatError::DuplicateSibling);
}

#[test]
fn decoding_accepts_one_name_in_two_folders() {
    let m = decode(vec![
        node("", true, 0, None),
        node("x", true, 0, Some(0)),
        node("y", true, 0, Some(0)),
        node("same", false, 1, Some(1)),
        node("same", false, 2, Some(2)),
    ])
    .unwrap();
    assert_eq!(m.len(), 5);
}
