use a3mo::repository::entity::FileSystemEntity;
use a3mo::repository::new::{new, NewRepoError};
use a3mo::sql::sqlite::{
    create, flag_set, get_conn, get_file_parent_id, get_folder_parent_id, get_repo_files,
    get_repo_folders, get_repository, insert_file, insert_folder, insert_repository, last_row,
    registered, ConfigError, RFile, RFolder, Repository, SqlError, SqlValue, Statement,
};

fn params(s: &Statement) -> Vec<String> {
    s.params
        .iter()
        .map(|p| match p {
            SqlValue::Text(t) => format!("'{}'", t),
            SqlValue::Integer(n) => format!("{}", n),
            SqlValue::Null => "NULL".to_string(),
        })
        .collect()
}

#[test]
fn the_index_lives_in_one_file() {
    let (file, pragma) = get_conn();
    assert_eq!(file, "a3mm.sqlite3");
    assert_eq!(pragma.sql, "PRAGMA synchronous = OFF");
    assert!(pragma.params.is_empty());
}

#[test]
fn three_tables_are_made() {
    let made = create();
    assert_eq!(made.len(), 3);
    assert!(made[0].sql.starts_with("create table if not exists repositories ("));
    assert!(made[1].sql.starts_with("CREATE TABLE if not exists folder ("));
    assert!(made[2].sql.starts_with("CREATE TABLE if not exists file ("));
    assert!(made[2].sql.contains("xxHash64\tTEXT"));
    assert!(made[0].sql.contains("delta_patch text not null"));
    assert!(made[1].sql.contains("name\tTEXT"));
    assert!(made[2].sql.contains("name\tTEXT"));
    assert!(made.iter().all(|s| s.params.is_empty()));
}

#[test]
fn a_file_row_carries_its_fingerprint_as_text() {
    let s = insert_file("@mod/addon.pbo", 123456789, 4, 17);
    assert_eq!(
        s.sql,
        "INSERT INTO file (id, name, xxHash64, repository_id, parent_id) VALUES (NULL, ?1, ?2, ?3, ?4)"
    );
    assert_eq!(params(&s), vec!["'@mod/addon.pbo'", "'123456789'", "'4'", "'17'"]);
    let big = insert_file("x", u64::MAX, -1, i64::MIN);
    assert_eq!(
        params(&big),
        vec!["'x'", "'18446744073709551615'", "'-1'", "'-9223372036854775808'"]
    );
}

#[test]
fn a_folder_row_tells_whether_it_is_the_root() {
    let root = insert_folder("", 4, None);
    assert_eq!(
        root.sql,
        "INSERT INTO folder (id, name, is_root, repository_id, parent_id) VALUES (NULL, ?1, ?2, ?3, ?4)"
    );
    assert_eq!(params(&root), vec!["''", "'true'", "'4'", "NULL"]);
    let inner = insert_folder("@mod", 4, Some(9));
    assert_eq!(params(&inner), vec!["'@mod'", "'false'", "'4'", "'9'"]);
}

#[test]
fn a_repository_row_has_name_path_and_url() {
    let s = insert_repository("repo", "C:/mods", "http://h/mods/.a3mo", true);
    assert_eq!(
        s.sql,
        "INSERT INTO repositories (id, name, path, url, delta_patch) VALUES (NULL, ?1, ?2, ?3, ?4)"
    );
    assert_eq!(params(&s), vec!["'repo'", "'C:/mods'", "'http://h/mods/.a3mo'", "'true'"]);
    let off = insert_repository("repo", "C:/mods", "http://h/mods/.a3mo", false);
    assert_eq!(params(&off)[3], "'false'");
}

#[test]
fn the_parent_of_a_node_is_looked_up_by_name() {
    let parent = FileSystemEntity { name: "@mod".to_string(), is_folder: true, hash: 0 };
    let for_file = get_file_parent_id(&parent, 12);
    let for_folder = get_folder_parent_id(&parent, 12);
    assert_eq!(
        for_file.sql,
        "SELECT id FROM folder WHERE name = ?1 AND repository_id = ?2 LIMIT 1"
    );
    assert_eq!(for_folder.sql, for_file.sql);
    assert_eq!(params(&for_file), vec!["'@mod'", "'12'"]);
    assert_eq!(params(&for_folder), vec!["'@mod'", "'12'"]);
}

#[test]
fn queries_of_a_repository() {
    let r = get_repository("repo");
    assert_eq!(
        r.sql,
        "SELECT id, name, path, url, delta_patch FROM repositories WHERE name = ?1 LIMIT 1"
    );
    assert_eq!(params(&r), vec!["'repo'"]);
    let folders = get_repo_folders(7);
    assert_eq!(folders.sql, "SELECT id, name, is_root, parent_id FROM folder WHERE repository_id = ?1");
    assert_eq!(params(&folders), vec!["7"]);
    let files = get_repo_files(-7);
    assert_eq!(files.sql, "SELECT id, name, xxHash64, parent_id FROM file WHERE repository_id = ?1");
    assert_eq!(params(&files), vec!["-7"]);
}

#[test]
fn the_last_row_answers_a_query() {
    assert_eq!(last_row(vec![3i64, 5, 8]), Ok(8));
    assert_eq!(last_row(vec![3i64]), Ok(3));
    assert_eq!(last_row(Vec::<i64>::new()), Err(SqlError::InvalidQuery));
}

fn repository(id: i64, name: &str) -> Repository {
    Repository::from_row(id, name.to_string(), "p".to_string(), "u".to_string(), "false")
}

#[test]
fn a_registered_repository_is_found_by_its_name() {
    let found = registered("repo", vec![repository(1, "repo")]).unwrap();
    assert_eq!((found.id, found.name.as_str()), (1, "repo"));
    let last = registered("repo", vec![repository(1, "repo"), repository(2, "repo")]).unwrap();
    assert_eq!(last.id, 2);
    let among =
        registered("repo", vec![repository(1, "other"), repository(2, "repo"), repository(3, "x")])
            .unwrap();
    assert_eq!(among.id, 2);
}

#[test]
fn an_unregistered_repository_is_told_as_such() {
    assert_eq!(registered("repo", Vec::new()).unwrap_err(), ConfigError::UnregisteredRepository);
    assert_eq!(
        registered("repo", vec![repository(1, "Repo"), repository(2, "repo2")]).unwrap_err(),
        ConfigError::UnregisteredRepository
    );
}

#[test]
fn a_repository_row_is_read_back_with_its_flag() {
    let on = Repository::from_row(7, "r".to_string(), "p".to_string(), "u".to_string(), "true");
    assert_eq!((on.id, on.name.as_str(), on.path.as_str(), on.url.as_str()), (7, "r", "p", "u"));
    assert!(on.delta_patch);
    assert!(!repository(1, "r").delta_patch);
    assert!(flag_set("true"));
    assert!(!flag_set("false"));
    assert!(!flag_set(""));
}

#[test]
fn a_folder_row_is_read_back() {
    let root = RFolder::from_row(1, "".to_string(), "true", None);
    assert!(root.is_root);
    assert_eq!((root.id, root.name.as_str(), root.parent_id), (1, "", None));
    let inner = RFolder::from_row(2, "@mod".to_string(), "false", Some(1));
    assert!(!inner.is_root);
    assert_eq!(inner.parent_id, Some(1));
    assert!(!RFolder::from_row(2, "@mod".to_string(), "0", Some(1)).is_root);
    assert!(!RFolder::from_row(2, "@mod".to_string(), "", Some(1)).is_root);
    assert!(RFolder::from_row(2, "@mod".to_string(), "untrue", Some(1)).is_root);
}

#[test]
fn a_file_row_holds_plain_values() {
    let f = RFile { id: 3, name: "a".to_string(), xx_hash64: "77".to_string(), parent_id: 1 };
    assert_eq!(format!("{:?}", f), "RFile { id: 3, name: \"a\", xx_hash64: \"77\", parent_id: 1 }");
}

#[test]
fn registering_needs_the_folder() {
    assert_eq!(
        new("repo", "C:/mods", "http://h", true, false).unwrap_err(),
        NewRepoError::FolderNotFound
    );
    let s = new("repo", "C:/mods", "http://h", true, true).unwrap();
    assert_eq!(
        s.sql,
        "INSERT INTO repositories (id, name, path, url, delta_patch) VALUES (NULL, ?1, ?2, ?3, ?4)"
    );
    assert_eq!(params(&s), vec!["'repo'", "'C:/mods'", "'http://h'", "'true'"]);
    let off = new("repo", "C:/mods", "http://h", false, true).unwrap();
    assert_eq!(params(&off), vec!["'repo'", "'C:/mods'", "'http://h'", "'false'"]);
}
