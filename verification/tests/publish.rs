use a3mo::repository::arena::arena_records;
use a3mo::repository::codec::decode;
use a3mo::repository::entity::FileSystemEntity;
use a3mo::repository::publish::{
    build, manifest_file, needs_signature, remove_old_delta, signature, signature_name,
    start_build, sync_folder,
};
use a3mo::repository::tree::BuildRepoError;
use a3mo::sql::sqlite::Repository;

fn repository(delta_patch: bool) -> Repository {
    Repository {
        id: 1,
        name: "repo".to_string(),
        path: "C:\\mods".to_string(),
        url: "http://h".to_string(),
        delta_patch,
    }
}

fn entity(name: &str, is_folder: bool, hash: u64) -> FileSystemEntity {
    FileSystemEntity { name: name.to_string(), is_folder, hash }
}

#[test]
fn the_manifest_goes_below_the_repository() {
    assert_eq!(sync_folder("C:\\mods"), "C:\\mods\\.a3mo");
    assert_eq!(manifest_file("C:\\mods"), "C:\\mods\\.a3mo\\sync.json");
}

#[test]
fn a_signature_lies_beside_its_file() {
    assert_eq!(signature_name("C:/mods/@mod/a.pbo"), "C:/mods/@mod/a.pbo.a3mo_delta");
    assert!(signature("C:/mods/@mod/a.pbo.a3mo_delta"));
    assert!(!signature("C:/mods/@mod/a.pbo"));
    assert!(!signature(""));
    assert!(!signature(".a3mo_delt"));
}

#[test]
fn signatures_are_written_for_files_when_delta_patching_is_on() {
    assert!(needs_signature(&entity("a", false, 1), true));
    assert!(!needs_signature(&entity("a", false, 1), false));
    assert!(!needs_signature(&entity("a", true, 0), true));
}

#[test]
fn the_sweep_takes_every_stale_signature_and_nothing_else() {
    let found = vec![
        "r".to_string(),
        "r/a.pbo".to_string(),
        "r/a.pbo.a3mo_delta".to_string(),
        "r/@mod".to_string(),
        "r/@mod/b.pbo.a3mo_delta".to_string(),
        "r/@mod/b.pbo".to_string(),
    ];
    let stale = remove_old_delta(&found);
    assert_eq!(stale, vec!["r/a.pbo.a3mo_delta", "r/@mod/b.pbo.a3mo_delta"]);
    let left: Vec<String> = found.iter().filter(|p| !stale.contains(p)).cloned().collect();
    assert!(remove_old_delta(&left).is_empty());
}

#[test]
fn a_build_needs_the_folder_of_the_repository() {
    assert!(matches!(start_build(&repository(true), false), Err(BuildRepoError::FolderNotFound)));
    let start = start_build(&repository(true), true).unwrap();
    assert_eq!(start.sync_folder, "C:\\mods\\.a3mo");
    assert!(start.sweep_signatures);
    assert!(!start_build(&repository(false), true).unwrap().sweep_signatures);
}

#[test]
fn a_build_writes_records_that_decode_to_its_tree() {
    let out = build(
        "C:/mods",
        true,
        vec![entity("", true, 0), entity("@mod", true, 0), entity("@mod/a.pbo", false, 77)],
    )
    .unwrap();
    assert!(out.pretty);
    assert_eq!(out.sync_folder, "C:/mods\\.a3mo");
    assert_eq!(out.manifest_file, "C:/mods\\.a3mo\\sync.json");
    assert_eq!(out.arena.count(), 3);
    let m = decode(arena_records(&out.arena).unwrap()).unwrap();
    assert_eq!(m.len(), 3);
    assert_eq!(m.parent(2), Some(1));
    assert_eq!(m.entity(2).hash, 77);
}

#[test]
fn a_build_with_an_orphan_writes_nothing() {
    let r = build("C:/mods", false, vec![entity("", true, 0), entity("gone/a.pbo", false, 1)]);
    assert!(matches!(r, Err(BuildRepoError::NodeAppendError)));
}
