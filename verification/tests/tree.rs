use a3mo::repository::entity::{parent_name_of, relative_name_of, FileSystemEntity};
use a3mo::repository::manifest::Manifest;
use a3mo::repository::tree::{build_tree, BuildRepoError, TreeBuilder};

fn folder(name: &str) -> FileSystemEntity {
    FileSystemEntity { name: name.to_string(), is_folder: true, hash: 0 }
}

fn file(name: &str, hash: u64) -> FileSystemEntity {
    FileSystemEntity { name: name.to_string(), is_folder: false, hash }
}

fn tuples(m: &Manifest) -> Vec<(String, bool, u64, Option<String>)> {
    let mut out = Vec::new();
    for i in 0..m.len() {
        let e = m.entity(i);
        let parent = m.parent(i).map(|p| m.entity(p).name.clone());
        out.push((e.name.clone(), e.is_folder, e.hash, parent));
    }
    out.sort();
    out
}

#[test]
fn parent_name_strips_the_last_segment() {
    assert_eq!(parent_name_of("@mod/addons/a.pbo"), "@mod/addons");
    assert_eq!(parent_name_of("@mod\\addons"), "@mod");
    assert_eq!(parent_name_of("@mod"), "");
    assert_eq!(parent_name_of(""), "");
}

#[test]
fn relative_name_drops_the_root_and_normalises() {
    assert_eq!(relative_name_of("C:\\mods\\@mod\\a.pbo", "C:\\mods"), "@mod/a.pbo");
    assert_eq!(relative_name_of("/srv/mods/@mod/a.pbo", "/srv/mods"), "@mod/a.pbo");
    assert_eq!(relative_name_of("/srv/mods", "/srv/mods"), "");
    assert_eq!(relative_name_of("elsewhere/x", "/srv/mods"), "elsewhere/x");
}

#[test]
fn entity_of_a_file_carries_the_fingerprint_of_its_bytes() {
    let e = FileSystemEntity::new("/r/@mod/a.pbo", "/r", false, Ok(b"abc".to_vec())).unwrap();
    assert_eq!(e.name, "@mod/a.pbo");
    assert!(!e.is_folder);
    assert_eq!(e.hash, 0x44BC_2CF5_AD77_0999);
}

#[test]
fn entity_of_a_folder_has_hash_zero() {
    let unread = std::io::Error::new(std::io::ErrorKind::Other, "a folder is not read");
    let e = FileSystemEntity::new("/r/@mod", "/r", true, Err(unread)).unwrap();
    assert_eq!(e.name, "@mod");
    assert!(e.is_folder);
    assert_eq!(e.hash, 0);
}

#[test]
fn entity_of_an_unreadable_file_fails() {
    let failure = std::io::Error::new(std::io::ErrorKind::PermissionDenied, "no");
    let r = FileSystemEntity::new("/r/a", "/r", false, Err(failure));
    assert!(matches!(r, Err(BuildRepoError::CryptoError { .. })));
}

#[test]
fn builds_the_tree_of_a_snapshot() {
    let m = build_tree(vec![
        folder(""),
        folder("@mod"),
        file("@mod/addon.pbo", 123456789),
        folder("@mod/keys"),
        file("@mod/keys/a.bikey", 5),
    ])
    .unwrap();
    assert_eq!(m.len(), 5);
    assert_eq!(m.root(), 0);
    assert_eq!(m.parent(0), None);
    assert_eq!(m.parent(1), Some(0));
    assert_eq!(m.parent(2), Some(1));
    assert_eq!(m.parent(3), Some(1));
    assert_eq!(m.parent(4), Some(3));
    assert_eq!(m.entity(2).hash, 123456789);
    assert_eq!(m.depth(0), 0);
    assert_eq!(m.depth(4), 3);
    assert!(m.get(5).is_none());
    assert_eq!(m.get(4).unwrap().entity.name, "@mod/keys/a.bikey");
}

#[test]
fn the_order_of_the_entities_does_not_show_in_the_tree() {
    let forward = build_tree(vec![
        folder(""),
        folder("@mod"),
        file("@mod/addon.pbo", 9),
        file("readme.txt", 4),
    ])
    .unwrap();
    let shuffled = build_tree(vec![
        file("@mod/addon.pbo", 9),
        file("readme.txt", 4),
        folder("@mod"),
        folder(""),
    ])
    .unwrap();
    assert_eq!(shuffled.root(), 3);
    assert_eq!(shuffled.parent(0), Some(2));
    assert_eq!(tuples(&forward), tuples(&shuffled));
}

#[test]
fn an_orphaned_entry_fails_the_build() {
    let r = build_tree(vec![folder(""), file("@mod/addon.pbo", 1)]);
    assert!(matches!(r, Err(BuildRepoError::NodeAppendError)));
}

#[test]
fn a_snapshot_without_root_fails_the_build() {
    let r = build_tree(vec![folder("@mod")]);
    assert!(matches!(r, Err(BuildRepoError::NodeAppendError)));
    assert!(matches!(build_tree(Vec::new()), Err(BuildRepoError::NodeAppendError)));
}

#[test]
fn a_name_that_occurs_twice_fails_the_build() {
    let r = build_tree(vec![folder(""), folder("@mod"), folder("@mod")]);
    assert!(matches!(r, Err(BuildRepoError::NodeAppendError)));
}

#[test]
fn a_file_cannot_hold_entries() {
    let r = build_tree(vec![folder(""), file("a", 1), file("a/b", 2)]);
    assert!(matches!(r, Err(BuildRepoError::NodeAppendError)));
}

#[test]
fn a_single_root_is_a_tree() {
    let m = build_tree(vec![folder("")]).unwrap();
    assert_eq!(m.len(), 1);
    assert_eq!(m.top_down(), vec![0]);
}

#[test]
fn top_down_lists_parents_before_children() {
    let m = build_tree(vec![
        file("@mod/keys/a.bikey", 5),
        folder("@mod/keys"),
        file("top.txt", 1),
        folder("@mod"),
        folder(""),
    ])
    .unwrap();
    let order = m.top_down();
    assert_eq!(order, vec![4, 2, 3, 1, 0]);
    for (k, &i) in order.iter().enumerate() {
        if let Some(p) = m.parent(i) {
            assert!(order[..k].contains(&p));
        }
    }
}

#[test]
fn the_parent_chain_of_every_node_ends_at_the_root() {
    let m = build_tree(vec![
        file("a/b/c/d", 5),
        folder("a/b/c"),
        folder("a/b"),
        folder("a"),
        folder(""),
    ])
    .unwrap();
    for i in 0..m.len() {
        let mut cur = i;
        let mut steps = 0;
        while let Some(p) = m.parent(cur) {
            cur = p;
            steps += 1;
        }
        assert_eq!(cur, m.root());
        assert_eq!(steps, m.depth(i));
    }
}

#[test]
fn the_builder_links_only_when_it_finishes() {
    let mut b = TreeBuilder::new();
    assert_eq!(b.insert(file("@mod/a.pbo", 3)), 0);
    assert_eq!(b.insert(folder("@mod")), 1);
    assert_eq!(b.insert(folder("")), 2);
    let m = b.finish().unwrap();
    assert_eq!(m.root(), 2);
    assert_eq!(m.parent(0), Some(1));
    assert_eq!(m.parent(1), Some(2));
}

#[test]
fn the_builder_fails_on_an_orphan() {
    let mut b = TreeBuilder::new();
    b.insert(folder(""));
    b.insert(file("gone/a", 1));
    assert!(matches!(b.finish(), Err(BuildRepoError::NodeAppendError)));
}
