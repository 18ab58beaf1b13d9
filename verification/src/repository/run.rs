//! Staging a repository for a run: the folders to make, the blobs to link
//! into them under the names of their files, and the arguments of the
//! program.

use crate::sql::sqlite::{RFile, RFolder, Repository};
use crate::text::{chars_of, is_separator, join3, separator};
use vstd::prelude::*;

verus! {

/// One hard link to make: the blob at `source` appears as `target`.
#[derive(Debug)]
pub struct Link {
    pub target: String,
    pub source: String,
}

/// What a run does, in this order: make the folders, make the links, start
/// the program.
#[derive(Debug)]
pub struct RunPlan {
    /// Whether the staging folder and the repository begin with the same
    /// character, as two paths on one drive do. Links across drives fail.
    pub same_drive: bool,
    /// The staging folder, to remove with all it holds before anything else.
    pub staging: String,
    /// The folders to make, with those that lead to them.
    pub folders: Vec<String>,
    /// The links to make.
    pub links: Vec<Link>,
    /// The program to start.
    pub program: String,
    /// Its arguments.
    pub args: Vec<String>,
}

/// The path of the entry `name` in the staging folder `folder`.
pub open spec fn path_in(folder: Seq<char>, name: Seq<char>) -> Seq<char> {
    folder + seq!['\\'] + name
}

/// The path of the blob with the fingerprint numeral `hash` in the store at
/// `store`: where a clone has put it.
pub open spec fn stored_at(store: Seq<char>, hash: Seq<char>) -> Seq<char> {
    store + seq!['/'] + hash
}

/// `name` is the name of a mod folder at the top of a repository: it begins
/// with `@` and has a single segment.
pub open spec fn is_mod_name(name: Seq<char>) -> bool {
    name.len() > 0 && name[0] == '@' && forall|j: int| 0 <= j < name.len() ==> !is_separator(name[j])
}

/// The argument that loads the mod `name` from the staging folder.
pub open spec fn mod_argument(staging: Seq<char>, name: Seq<char>) -> Seq<char> {
    seq!['-', 'm', 'o', 'd', '='] + staging + seq!['\\'] + name + seq![';']
}

/// Whether the two paths begin with the same character, or are both empty.
pub open spec fn same_first(a: Seq<char>, b: Seq<char>) -> bool {
    if a.len() == 0 || b.len() == 0 {
        a.len() == b.len()
    } else {
        a[0] == b[0]
    }
}

/// The arguments that load the mods among the first `k` folders, in their
/// order: one for every folder that is no root and has the name of a mod.
pub open spec fn mod_arguments(staging: Seq<char>, folders: Seq<RFolder>, k: nat) -> Seq<Seq<char>>
    decreases k,
{
    if k == 0 {
        Seq::empty()
    } else {
        let before = mod_arguments(staging, folders, (k - 1) as nat);
        let folder = folders[k - 1];
        if !folder.is_root && is_mod_name(folder.name@) {
            before.push(mod_argument(staging, folder.name@))
        } else {
            before
        }
    }
}

/// The texts of a list of strings.
pub open spec fn texts(strings: Seq<String>) -> Seq<Seq<char>> {
    Seq::new(strings.len(), |i: int| strings[i]@)
}

/// Whether `name` is the name of a mod folder at the top of a repository.
pub fn mod_name(name: &str) -> (r: bool)
    ensures
        r == is_mod_name(name@),
{
    let chars = chars_of(name);
    if chars.len() == 0 || chars[0] != '@' {
        return false;
    }
    let mut i: usize = 0;
    while i < chars.len()
        invariant
            i <= chars.len(),
            chars@ == name@,
            forall|j: int| 0 <= j < i ==> !is_separator(chars@[j]),
        decreases chars.len() - i,
    {
        if separator(chars[i]) {
            return false;
        }
        i += 1;
    }
    true
}

fn first_char(s: &str) -> (c: Option<char>)
    ensures
        match c {
            Some(x) => s@.len() > 0 && x == s@[0],
            None => s@.len() == 0,
        },
{
    let chars = chars_of(s);
    if chars.len() == 0 {
        None
    } else {
        Some(chars[0])
    }
}

/// Plans the run of `arma_path` on the repository `repository`, staged in
/// `tmp_folder`, from the folder and file rows of the index.
///
/// One folder is made for every folder row and one link for every file row,
/// in the order of the rows; the link of a file leads from its name in the
/// staging folder to the blob that the repository holds under its
/// fingerprint. The arguments are `opt_args`, then one that loads each mod.
/// Paths in the staging folder are written with `\`.
pub fn run(
    name: &str,
    arma_path: &str,
    tmp_folder: &str,
    opt_args: Option<Vec<String>>,
    repository: &Repository,
    repo_folders: &Vec<RFolder>,
    repo_files: &Vec<RFile>,
) -> (plan: RunPlan)
    ensures
        plan.same_drive == same_first(tmp_folder@, repository.path@),
        plan.staging@ == tmp_folder@,
        plan.program@ == arma_path@,
        plan.folders@.len() == repo_folders@.len(),
        forall|i: int|
            0 <= i < repo_folders@.len() ==> (#[trigger] plan.folders@[i])@ == path_in(
                tmp_folder@,
                repo_folders@[i].name@,
            ),
        plan.links@.len() == repo_files@.len(),
        forall|i: int|
            0 <= i < repo_files@.len() ==> (#[trigger] plan.links@[i]).target@ == path_in(
                tmp_folder@,
                repo_files@[i].name@,
            ) && plan.links@[i].source@ == stored_at(repository.path@, repo_files@[i].xx_hash64@),
        texts(plan.args@) == match opt_args {
            Some(given) => texts(given@),
            None => Seq::empty(),
        } + mod_arguments(tmp_folder@, repo_folders@, repo_folders@.len()),
{
    proof {
        reveal_strlit("/");
        reveal_strlit("\\");
        reveal_strlit("-mod=");
        reveal_strlit(";");
    }
    let same_drive: bool = match (first_char(tmp_folder), first_char(repository.path.as_str())) {
        (Some(a), Some(b)) => a == b,
        (None, None) => true,
        _ => false,
    };
    let mut folders: Vec<String> = Vec::new();
    let mut i: usize = 0;
    while i < repo_folders.len()
        invariant
            i <= repo_folders.len(),
            "\\"@ == seq!['\\'],
            folders@.len() == i,
            forall|j: int|
                0 <= j < i ==> (#[trigger] folders@[j])@ == path_in(
                    tmp_folder@,
                    repo_folders@[j].name@,
                ),
        decreases repo_folders.len() - i,
    {
        let made = join3(tmp_folder, "\\", repo_folders[i].name.as_str());
        assert(made@ =~= path_in(tmp_folder@, repo_folders@[i as int].name@));
        folders.push(made);
        i += 1;
    }
    let mut links: Vec<Link> = Vec::new();
    let mut i: usize = 0;
    while i < repo_files.len()
        invariant
            i <= repo_files.len(),
            "/"@ == seq!['/'],
            "\\"@ == seq!['\\'],
            links@.len() == i,
            forall|j: int|
                0 <= j < i ==> (#[trigger] links@[j]).target@ == path_in(
                    tmp_folder@,
                    repo_files@[j].name@,
                ) && links@[j].source@ == stored_at(repository.path@, repo_files@[j].xx_hash64@),
        decreases repo_files.len() - i,
    {
        let target = join3(tmp_folder, "\\", repo_files[i].name.as_str());
        let source = join3(repository.path.as_str(), "/", repo_files[i].xx_hash64.as_str());
        assert(target@ =~= path_in(tmp_folder@, repo_files@[i as int].name@));
        assert(source@ =~= stored_at(repository.path@, repo_files@[i as int].xx_hash64@));
        links.push(Link { target, source });
        i += 1;
    }
    let mut args: Vec<String> = match opt_args {
        Some(given) => given,
        None => Vec::new(),
    };
    let ghost given = texts(args@);
    assert(given =~= match opt_args {
        Some(g) => texts(g@),
        None => Seq::empty(),
    });
    let mut i: usize = 0;
    while i < repo_folders.len()
        invariant
            i <= repo_folders.len(),
            "\\"@ == seq!['\\'],
            "-mod="@ == seq!['-', 'm', 'o', 'd', '='],
            ";"@ == seq![';'],
            texts(args@) == given + mod_arguments(tmp_folder@, repo_folders@, i as nat),
        decreases repo_folders.len() - i,
    {
        let folder = &repo_folders[i];
        let ghost before = texts(args@);
        if !folder.is_root && mod_name(folder.name.as_str()) {
            let mut arg = join3("-mod=", tmp_folder, "\\");
            arg.append(folder.name.as_str());
            arg.append(";");
            assert(arg@ =~= mod_argument(tmp_folder@, folder.name@));
            args.push(arg);
            assert(texts(args@) =~= before.push(arg@));
        }
        assert(texts(args@) =~= given + mod_arguments(tmp_folder@, repo_folders@, (i + 1) as nat));
        i += 1;
    }
    RunPlan {
        same_drive,
        staging: String::from_str(tmp_folder),
        folders,
        links,
        program: String::from_str(arma_path),
        args,
    }
}

} // verus!
