use a3mo::repository::run::{mod_name, run};
use a3mo::sql::sqlite::{RFile, RFolder, Repository};

fn repository() -> Repository {
    Repository {
        id: 1,
        name: "repo".to_string(),
        path: "C:/store".to_string(),
        url: "http://h".to_string(),
        delta_patch: false,
    }
}

fn folder(id: i64, name: &str, is_root: bool, parent_id: i64) -> RFolder {
    let parent_id = if is_root { None } else { Some(parent_id) };
    RFolder { id, name: name.to_string(), is_root, parent_id }
}

#[test]
fn a_mod_name_begins_with_at_and_has_one_segment() {
    assert!(mod_name("@mod"));
    assert!(!mod_name("mod"));
    assert!(!mod_name(""));
    assert!(!mod_name("@mod/addons"));
    assert!(!mod_name("@mod\\addons"));
}

#[test]
fn a_run_is_staged_from_the_index() {
    let folders = vec![
        folder(1, "", true, 0),
        folder(2, "@mod", false, 1),
        folder(3, "@mod/addons", false, 2),
        folder(4, "plain", false, 1),
        folder(5, "@other", false, 1),
    ];
    let files = vec![RFile {
        id: 1,
        name: "@mod/addons/a.pbo".to_string(),
        xx_hash64: "123456789".to_string(),
        parent_id: 3,
    }];
    let plan = run(
        "repo",
        "C:/arma3.exe",
        "C:/tmp",
        Some(vec!["-nosplash".to_string()]),
        &repository(),
        &folders,
        &files,
    );
    assert!(plan.same_drive);
    assert_eq!(plan.staging, "C:/tmp");
    assert_eq!(plan.program, "C:/arma3.exe");
    assert_eq!(
        plan.folders,
        vec![
            "C:/tmp\\",
            "C:/tmp\\@mod",
            "C:/tmp\\@mod/addons",
            "C:/tmp\\plain",
            "C:/tmp\\@other"
        ]
    );
    assert_eq!(plan.links.len(), 1);
    assert_eq!(plan.links[0].target, "C:/tmp\\@mod/addons/a.pbo");
    assert_eq!(plan.links[0].source, "C:/store/123456789");
    assert_eq!(plan.args, vec!["-nosplash", "-mod=C:/tmp\\@mod;", "-mod=C:/tmp\\@other;"]);
}

#[test]
fn only_the_mods_at_the_top_are_loaded() {
    let folders = vec![
        folder(1, "", true, 0),
        folder(2, "@mod", false, 1),
        folder(3, "@mod\\addons", false, 2),
        folder(4, "userconfig", false, 1),
    ];
    let plan = run(
        "repo",
        "arma",
        "T",
        Some(vec!["-nosplash".to_string()]),
        &repository(),
        &folders,
        &Vec::new(),
    );
    assert_eq!(plan.args, vec!["-nosplash", "-mod=T\\@mod;"]);
}

#[test]
fn a_run_without_arguments_of_its_own() {
    let plan = run("repo", "arma", "D:/tmp", None, &repository(), &Vec::new(), &Vec::new());
    assert!(!plan.same_drive);
    assert!(plan.folders.is_empty());
    assert!(plan.links.is_empty());
    assert!(plan.args.is_empty());
}

#[test]
fn a_root_named_like_a_mod_is_not_loaded() {
    let folders = vec![folder(1, "@root", true, 0)];
    let plan = run("repo", "arma", "", None, &repository(), &folders, &Vec::new());
    assert!(plan.args.is_empty());
    assert!(!plan.same_drive);
}
