//! Publishing a snapshot: where the manifest goes, which signature files of
//! an earlier build are swept away first, and what is written.

use crate::repository::arena::{
    arena_slots, lemma_arena_round_trip, records_of, slots_of, to_arena,
};
use crate::repository::codec::{decoded, lemma_round_trip};
use crate::repository::entity::FileSystemEntity;
use crate::repository::manifest::valid_tree;
use crate::repository::tree::{build_tree, entity_views, linkable, links_by_name, BuildRepoError};
use crate::sql::sqlite::Repository;
use crate::text::{chars_of, contains, contains_text, join2};
use indextree::Arena;
use vstd::prelude::*;

verus! {

/// What follows the name of a file in the name of its signature.
pub open spec fn signature_suffix() -> Seq<char> {
    seq!['.', 'a', '3', 'm', 'o', '_', 'd', 'e', 'l', 't', 'a']
}

/// What follows the path of a repository in the path of the folder that
/// holds its manifest.
pub open spec fn sync_folder_suffix() -> Seq<char> {
    seq!['\\', '.', 'a', '3', 'm', 'o']
}

/// What follows the path of that folder in the path of the manifest.
pub open spec fn manifest_file_suffix() -> Seq<char> {
    seq!['\\', 's', 'y', 'n', 'c', '.', 'j', 's', 'o', 'n']
}

/// `path` is that of a signature file: the suffix of signatures stands in it.
pub open spec fn is_signature(path: Seq<char>) -> bool {
    contains_text(path, signature_suffix())
}

/// The signature files among the first `k` of `paths`, in their order.
pub open spec fn signatures_among(paths: Seq<String>, k: nat) -> Seq<Seq<char>>
    decreases k,
{
    if k == 0 {
        Seq::empty()
    } else {
        let before = signatures_among(paths, (k - 1) as nat);
        if is_signature(paths[k - 1]@) {
            before.push(paths[k - 1]@)
        } else {
            before
        }
    }
}

/// The texts of a list of strings.
pub open spec fn path_texts(strings: Seq<String>) -> Seq<Seq<char>> {
    Seq::new(strings.len(), |i: int| strings[i]@)
}

/// The folder that holds the manifest of the repository at `repo_path`.
pub fn sync_folder(repo_path: &str) -> (folder: String)
    ensures
        folder@ == repo_path@ + sync_folder_suffix(),
{
    proof {
        reveal_strlit("\\.a3mo");
    }
    let folder = join2(repo_path, "\\.a3mo");
    assert(folder@ =~= repo_path@ + sync_folder_suffix());
    folder
}

/// The file that holds the manifest of the repository at `repo_path`.
pub fn manifest_file(repo_path: &str) -> (file: String)
    ensures
        file@ == repo_path@ + sync_folder_suffix() + manifest_file_suffix(),
{
    proof {
        reveal_strlit("\\sync.json");
    }
    let folder = sync_folder(repo_path);
    let file = join2(folder.as_str(), "\\sync.json");
    assert(file@ =~= repo_path@ + sync_folder_suffix() + manifest_file_suffix());
    file
}

/// The name of the signature file of the file at `path`.
pub fn signature_name(path: &str) -> (name: String)
    ensures
        name@ == path@ + signature_suffix(),
{
    proof {
        reveal_strlit(".a3mo_delta");
    }
    let name = join2(path, ".a3mo_delta");
    assert(name@ =~= path@ + signature_suffix());
    name
}

/// Whether `path` is that of a signature file.
pub fn signature(path: &str) -> (r: bool)
    ensures
        r == is_signature(path@),
{
    proof {
        reveal_strlit(".a3mo_delta");
    }
    let suffix = chars_of(".a3mo_delta");
    assert(suffix@ =~= signature_suffix());
    let chars = chars_of(path);
    contains(&chars, &suffix)
}

/// Whether a signature is written for `entity`: for every file, where the
/// repository has delta patching switched on.
pub fn needs_signature(entity: &FileSystemEntity, delta_patch: bool) -> (r: bool)
    ensures
        r == (delta_patch && !entity@.is_folder),
{
    delta_patch && !entity.is_folder
}

/// The signature files of an earlier build, to delete before a new one:
/// those of `paths`, the paths found under the repository, that are
/// signature files, in their order.
pub fn remove_old_delta(paths: &Vec<String>) -> (stale: Vec<String>)
    ensures
        path_texts(stale@) == signatures_among(paths@, paths@.len()),
{
    let mut stale: Vec<String> = Vec::new();
    let mut i: usize = 0;
    while i < paths.len()
        invariant
            i <= paths.len(),
            path_texts(stale@) == signatures_among(paths@, i as nat),
        decreases paths.len() - i,
    {
        let ghost before = path_texts(stale@);
        if signature(paths[i].as_str()) {
            stale.push(paths[i].clone());
            assert(path_texts(stale@) =~= before.push(paths@[i as int]@));
        }
        i += 1;
    }
    stale
}

/// The sweep leaves no signature behind and takes nothing else: a path is
/// among those to delete exactly when it is one of `paths` and a signature
/// file.
pub proof fn lemma_sweep_is_exact(paths: Seq<String>, k: nat, path: Seq<char>)
    requires
        k <= paths.len(),
    ensures
        signatures_among(paths, k).contains(path) <==> is_signature(path) && exists|i: int|
            0 <= i < k && (#[trigger] paths[i])@ == path,
    decreases k,
{
    if k > 0 {
        lemma_sweep_is_exact(paths, (k - 1) as nat, path);
        let before = signatures_among(paths, (k - 1) as nat);
        let last = paths[k - 1]@;
        if is_signature(last) {
            assert(before.push(last).last() == last);
            assert forall|x: Seq<char>| before.push(last).contains(x) <==> (before.contains(x) || x
                == last) by {
                if before.contains(x) {
                    let j = choose|j: int| 0 <= j < before.len() && before[j] == x;
                    assert(before.push(last)[j] == x);
                }
                if x == last {
                    assert(before.push(last)[before.len() as int] == x);
                }
            }
        }
        if is_signature(path) && exists|i: int| 0 <= i < k && (#[trigger] paths[i])@ == path {
            let i = choose|i: int| 0 <= i < k && (#[trigger] paths[i])@ == path;
            if i < k - 1 {
                assert(paths[i]@ == path);
            }
        }
    }
}

/// After the sweep no signature of an earlier build is left: a path found
/// that is not among those to delete is no signature file.
pub proof fn lemma_nothing_stale_is_left(paths: Seq<String>, i: int)
    requires
        0 <= i < paths.len(),
        !signatures_among(paths, paths.len()).contains(paths[i]@),
    ensures
        !is_signature(paths[i]@),
{
    lemma_sweep_is_exact(paths, paths.len(), paths[i]@);
}

/// How a build begins.
#[derive(Debug)]
pub struct BuildStart {
    /// The folder of the manifest, to remove with all it holds.
    pub sync_folder: String,
    /// Whether the signature files of an earlier build are then swept away.
    pub sweep_signatures: bool,
}

/// Begins the build of the repository `repository`. `path_exists` tells
/// whether its path exists.
///
/// Fails exactly when it does not, before anything under it is read. Else
/// signatures are swept exactly when the repository was registered with
/// delta patching.
pub fn start_build(repository: &Repository, path_exists: bool) -> (r: Result<
    BuildStart,
    BuildRepoError,
>)
    ensures
        r is Ok <==> path_exists,
        match r {
            Ok(start) => start.sync_folder@ == repository.path@ + sync_folder_suffix()
                && start.sweep_signatures == repository.delta_patch,
            Err(e) => e == BuildRepoError::FolderNotFound,
        },
{
    if !path_exists {
        return Err(BuildRepoError::FolderNotFound);
    }
    Ok(
        BuildStart {
            sync_folder: sync_folder(repository.path.as_str()),
            sweep_signatures: repository.delta_patch,
        },
    )
}

/// What a build writes.
#[derive(Debug)]
pub struct BuildOutput {
    /// The manifest, in the arena that is written.
    pub arena: Arena<FileSystemEntity>,
    /// The folder to make for the manifest.
    pub sync_folder: String,
    /// The file to write the manifest to.
    pub manifest_file: String,
    /// Whether the manifest is written for a reader's eye; the records are
    /// the same either way.
    pub pretty: bool,
}

/// Builds the repository at `repo_path` from the entities found under it.
///
/// Succeeds exactly when the entities form one tree. The arena written
/// then holds the manifest that links the entities by name, and decoding
/// the records that it stands for gives that manifest back.
pub fn build(repo_path: &str, fmt_json: bool, entities: Vec<FileSystemEntity>) -> (r: Result<
    BuildOutput,
    BuildRepoError,
>)
    ensures
        r is Ok <==> linkable(entity_views(entities@)),
        match r {
            Ok(out) => {
                &&& decoded(records_of(arena_slots(out.arena))) matches Ok(t)
                &&& arena_slots(out.arena) == slots_of(t.nodes)
                &&& valid_tree(t)
                &&& links_by_name(entity_views(entities@), t)
                &&& out.sync_folder@ == repo_path@ + sync_folder_suffix()
                &&& out.manifest_file@ == repo_path@ + sync_folder_suffix() + manifest_file_suffix()
                &&& out.pretty == fmt_json
            },
            Err(e) => e == BuildRepoError::NodeAppendError,
        },
{
    let manifest = match build_tree(entities) {
        Ok(m) => m,
        Err(e) => {
            return Err(e);
        },
    };
    let arena = to_arena(&manifest);
    proof {
        lemma_round_trip(manifest@);
        lemma_arena_round_trip(manifest@.nodes);
    }
    Ok(
        BuildOutput {
            arena,
            sync_folder: sync_folder(repo_path),
            manifest_file: manifest_file(repo_path),
            pretty: fmt_json,
        },
    )
}

} // verus!
