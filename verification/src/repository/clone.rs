//! What a client does with a remote manifest: where it fetches the manifest,
//! which index rows it writes and in what order, and which blobs it fetches.

use crate::crypto::xx_hasher::fingerprint;
use crate::crypto::xxhash64::xxhash64;
use crate::repository::codec::{decode, decoded, FormatError};
use crate::repository::entity::{EntityView, FileSystemEntity};
use crate::repository::manifest::{
    is_top_down, lemma_parent_comes_first, listed, nodes_view, valid_tree, Manifest,
    ManifestView, Node, NodeView,
};
use crate::sql::sqlite::{
    folder_id_query, folder_id_sql, insert_file, insert_file_sql, insert_folder,
    insert_folder_sql, insert_repository, insert_repository_sql, SqlValueView, Statement,
};
use crate::text::{
    bool_text, decimal, decimal_string, join2, join3, lemma_decimal_injective, signed_decimal,
};
use vstd::prelude::*;

verus! {

/// The error of the `url` crate's parser, carried through unread.
#[verifier::external_type_specification]
#[verifier::external_body]
pub struct ExParseError(url::ParseError);

/// Why a clone was given up.
#[allow(inconsistent_fields)]
#[derive(Debug)]
pub enum CloneError {
    /// A file of the manifest has no parent folder.
    FileParentError,
    /// The remote URL, or the URL of a blob, is not well-formed.
    ParseError { source: url::ParseError },
    /// The records fetched are no manifest.
    FormatError { source: FormatError },
}

/// What `url::Url::parse` makes of `text`: the serialization of the URL that
/// it parsed, or `None` where it refuses `text`.
pub uninterp spec fn parsed_url(text: Seq<char>) -> Option<Seq<char>>;

/// What `url::Url::join` makes of `reference`, resolved against the URL that
/// `url::Url::parse` makes of `base`: the serialization of the resolved URL,
/// or `None` where either refuses.
pub uninterp spec fn joined_url(base: Seq<char>, reference: Seq<char>) -> Option<Seq<char>>;

/// `url::Url::parse` on `text`. Trusted: the result is the serialization of
/// the parsed URL, a function of `text` alone, or the parser's error.
#[verifier::external_body]
fn parse_url(text: &str) -> (r: Result<String, url::ParseError>)
    ensures
        match r {
            Ok(s) => parsed_url(text@) == Some(s@),
            Err(_) => parsed_url(text@) is None,
        },
{
    match url::Url::parse(text) {
        Ok(parsed) => Ok(String::from(parsed)),
        Err(e) => Err(e),
    }
}

/// `url::Url::join` of `reference` on the URL that `url::Url::parse` makes of
/// `base`. Trusted: the result is the serialization of the resolved URL, a
/// function of the two texts alone, or the parser's error.
#[verifier::external_body]
fn join_url(base: &str, reference: &str) -> (r: Result<String, url::ParseError>)
    ensures
        match r {
            Ok(s) => joined_url(base@, reference@) == Some(s@),
            Err(_) => joined_url(base@, reference@) is None,
        },
{
    match url::Url::parse(base) {
        Ok(parsed) => match parsed.join(reference) {
            Ok(resolved) => Ok(String::from(resolved)),
            Err(e) => Err(e),
        },
        Err(e) => Err(e),
    }
}

/// The text that follows the remote URL in the URL of its manifest.
pub open spec fn manifest_suffix() -> Seq<char> {
    seq!['/', 's', 'y', 'n', 'c', '.', 'j', 's', 'o', 'n']
}

/// The text that leads from the manifest's place to that of the blobs.
pub open spec fn up_one() -> Seq<char> {
    seq!['.', '.', '/']
}

/// The reference that resolves, against the URL of the manifest, to the blob
/// of the file named `name`: the file lies beside the folder of the
/// manifest.
pub open spec fn blob_reference(name: Seq<char>) -> Seq<char> {
    up_one() + name
}

/// The local path of the blob with the fingerprint `hash`: its decimal
/// numeral, in the folder `local_path`.
pub open spec fn blob_path(local_path: Seq<char>, hash: u64) -> Seq<char> {
    local_path + seq!['/'] + decimal(hash as nat)
}

/// The store is addressed by content: blobs with different fingerprints lie
/// at different paths of one store.
pub proof fn lemma_blob_paths_differ(local_path: Seq<char>, a: u64, b: u64)
    requires
        a != b,
    ensures
        blob_path(local_path, a) != blob_path(local_path, b),
{
    let head = local_path + seq!['/'];
    if blob_path(local_path, a) == blob_path(local_path, b) {
        assert((head + decimal(a as nat)).skip(head.len() as int) =~= decimal(a as nat));
        assert((head + decimal(b as nat)).skip(head.len() as int) =~= decimal(b as nat));
        lemma_decimal_injective(a as nat, b as nat);
    }
}

/// The URL of the manifest of the repository at `url`, given what parsing
/// `url` gave: `url` followed by `/sync.json`, or the parser's error.
pub fn sync_url(url: &str, parsed: Result<String, url::ParseError>) -> (r: Result<String, CloneError>)
    ensures
        match parsed {
            Ok(_) => r matches Ok(s) && s@ == url@ + manifest_suffix(),
            Err(e) => r matches Err(err) && err == (CloneError::ParseError { source: e }),
        },
{
    match parsed {
        Ok(_) => {
            proof {
                reveal_strlit("/sync.json");
            }
            let s = join2(url, "/sync.json");
            assert(s@ =~= url@ + manifest_suffix());
            Ok(s)
        },
        Err(e) => Err(CloneError::ParseError { source: e }),
    }
}

/// The URL of the manifest of the repository at `url`.
///
/// Fails with a parse error exactly when `url` is not well-formed.
pub fn manifest_url(url: &str) -> (r: Result<String, CloneError>)
    ensures
        match r {
            Ok(s) => parsed_url(url@) is Some && s@ == url@ + manifest_suffix(),
            Err(e) => parsed_url(url@) is None && e is ParseError,
        },
{
    sync_url(url, parse_url(url))
}

/// The local path of the blob with the fingerprint `hash`.
pub fn blob_path_of(local_path: &str, hash: u64) -> (path: String)
    ensures
        path@ == blob_path(local_path@, hash),
{
    let numeral = decimal_string(hash);
    proof {
        reveal_strlit("/");
    }
    let path = join3(local_path, "/", numeral.as_str());
    assert(path@ =~= blob_path(local_path@, hash));
    path
}

/// One row to write to the index.
#[allow(inconsistent_fields)]
#[derive(Debug)]
pub enum IndexOp {
    /// A folder row. `parent` is the name of the folder whose row gives the
    /// parent id; `None` for the root folder.
    Folder { name: String, parent: Option<String> },
    /// A file row. `parent` is the name of the folder whose row gives the
    /// parent id.
    File { name: String, content_hash: u64, parent: String },
}

/// A row to write, as a mathematical value.
#[allow(inconsistent_fields)]
pub enum IndexOpView {
    Folder { name: Seq<char>, parent: Option<Seq<char>> },
    File { name: Seq<char>, content_hash: u64, parent: Seq<char> },
}

impl View for IndexOp {
    type V = IndexOpView;

    open spec fn view(&self) -> IndexOpView {
        match self {
            IndexOp::Folder { name, parent } => IndexOpView::Folder {
                name: name@,
                parent: match parent {
                    Some(p) => Some(p@),
                    None => None,
                },
            },
            IndexOp::File { name, content_hash, parent } => IndexOpView::File {
                name: name@,
                content_hash: *content_hash,
                parent: parent@,
            },
        }
    }
}

/// Node `i` is a file without parent.
pub open spec fn is_orphan_file(t: ManifestView, i: int) -> bool {
    !t.nodes[i].entity.is_folder && t.nodes[i].parent is None
}

/// Some file of `t` has no parent.
pub open spec fn has_orphan_file(t: ManifestView) -> bool {
    exists|i: int| 0 <= i < t.nodes.len() && #[trigger] is_orphan_file(t, i)
}

/// The row for node `i`: a folder row with the name of the parent folder, if
/// there is one, or a file row with the fingerprint and the name of the
/// parent folder.
pub open spec fn op_of(t: ManifestView, i: int) -> IndexOpView {
    let node = t.nodes[i];
    if node.entity.is_folder {
        IndexOpView::Folder {
            name: node.entity.name,
            parent: match node.parent {
                Some(p) => Some(t.nodes[p].entity.name),
                None => None,
            },
        }
    } else {
        IndexOpView::File {
            name: node.entity.name,
            content_hash: node.entity.hash,
            parent: t.nodes[node.parent.unwrap()].entity.name,
        }
    }
}

/// `ops` are the rows of the nodes of `t`, in the order `order`.
pub open spec fn rows_in_order(t: ManifestView, order: Seq<usize>, ops: Seq<IndexOp>) -> bool {
    &&& ops.len() == order.len()
    &&& forall|k: int| 0 <= k < ops.len() ==> (#[trigger] ops[k])@ == op_of(t, order[k] as int)
}

/// `ops` are the rows of all nodes of `t`, top-down.
pub open spec fn plans_index(t: ManifestView, ops: Seq<IndexOp>) -> bool {
    exists|order: Seq<usize>| is_top_down(t, order) && #[trigger] rows_in_order(t, order, ops)
}

/// The name of the folder that a row hangs below, if it has one.
pub open spec fn op_parent(op: IndexOpView) -> Option<Seq<char>> {
    match op {
        IndexOpView::Folder { parent, .. } => parent,
        IndexOpView::File { parent, .. } => Some(parent),
    }
}

/// Row `j` is the row of a folder named `name`.
pub open spec fn is_folder_row(ops: Seq<IndexOp>, j: int, name: Seq<char>) -> bool {
    ops[j]@ matches IndexOpView::Folder { name: n, .. } && n == name
}

/// In the rows planned for a manifest, the row of a folder comes before the
/// rows of what it holds: every parent is written before its children.
pub proof fn lemma_parent_rows_come_first(t: ManifestView, ops: Seq<IndexOp>, k: int)
    requires
        valid_tree(t),
        !has_orphan_file(t),
        plans_index(t, ops),
        0 <= k < ops.len(),
    ensures
        op_parent(ops[k]@) is None ==> k == 0,
        op_parent(ops[k]@) is Some ==> exists|j: int|
            0 <= j < k && #[trigger] is_folder_row(ops, j, op_parent(ops[k]@).unwrap()),
{
    let order = choose|order: Seq<usize>|
        is_top_down(t, order) && #[trigger] rows_in_order(t, order, ops);
    let i = order[k] as int;
    lemma_parent_comes_first(t, order, k);
    assert(!is_orphan_file(t, i));
    assert(ops[k]@ == op_of(t, i));
    if let Some(p) = t.nodes[i].parent {
        let j = choose|j: int| 0 <= j < k && #[trigger] order[j] == p;
        assert(ops[j]@ == op_of(t, p));
        assert(is_folder_row(ops, j, op_parent(ops[k]@).unwrap()));
    }
}

/// The rows to write to the index for `manifest`, in the order in which to
/// write them: top-down, so that the row of a folder is there when the rows
/// of what it holds look its id up.
///
/// Fails exactly when a file has no parent folder.
pub fn index_plan(manifest: &Manifest) -> (r: Result<Vec<IndexOp>, CloneError>)
    ensures
        r is Err <==> has_orphan_file(manifest@),
        match r {
            Ok(ops) => plans_index(manifest@, ops@),
            Err(e) => e == CloneError::FileParentError,
        },
{
    let order = manifest.top_down();
    let ghost t = manifest@;
    let mut ops: Vec<IndexOp> = Vec::new();
    let mut k: usize = 0;
    while k < order.len()
        invariant
            k <= order.len(),
            t == manifest@,
            valid_tree(t),
            is_top_down(t, order@),
            ops.len() == k,
            forall|j: int| 0 <= j < k ==> (#[trigger] ops[j])@ == op_of(t, order[j] as int),
            forall|j: int| 0 <= j < k ==> !is_orphan_file(t, #[trigger] order[j] as int),
        decreases order.len() - k,
    {
        let i: usize = order[k];
        let entity = manifest.entity(i);
        let op = match manifest.parent(i) {
            Some(p) => {
                let parent = manifest.entity(p).name.clone();
                if entity.is_folder {
                    IndexOp::Folder { name: entity.name.clone(), parent: Some(parent) }
                } else {
                    IndexOp::File {
                        name: entity.name.clone(),
                        content_hash: entity.hash,
                        parent,
                    }
                }
            },
            None => {
                if entity.is_folder {
                    IndexOp::Folder { name: entity.name.clone(), parent: None }
                } else {
                    assert(is_orphan_file(t, i as int));
                    return Err(CloneError::FileParentError);
                }
            },
        };
        ops.push(op);
        k += 1;
    }
    proof {
        assert(rows_in_order(t, order@, ops@));
        if has_orphan_file(t) {
            let i = choose|i: int| 0 <= i < t.nodes.len() && #[trigger] is_orphan_file(t, i);
            assert(listed(order@, i));
            let j = choose|j: int| 0 <= j < order@.len() && #[trigger] order@[j] == i;
            assert(!is_orphan_file(t, order[j] as int));
        }
    }
    Ok(ops)
}

/// One blob to fetch.
#[derive(Debug)]
pub struct FetchTask {
    /// Where the blob is published.
    pub url: String,
    /// Where the blob goes in the local store.
    pub path: String,
    /// The fingerprint that the bytes fetched must have.
    pub content_hash: u64,
}

/// A blob to fetch, as a mathematical value.
pub struct FetchTaskView {
    pub url: Seq<char>,
    pub path: Seq<char>,
    pub content_hash: u64,
}

impl View for FetchTask {
    type V = FetchTaskView;

    open spec fn view(&self) -> FetchTaskView {
        FetchTaskView { url: self.url@, path: self.path@, content_hash: self.content_hash }
    }
}

/// The tasks of a list as mathematical values.
pub open spec fn task_views(tasks: Seq<FetchTask>) -> Seq<FetchTaskView> {
    Seq::new(tasks.len(), |i: int| tasks[i]@)
}

/// Node `i` is a file whose blob the local store lacks: `stored` lists the
/// fingerprints of the blobs that it holds.
pub open spec fn is_missing(t: ManifestView, stored: Seq<u64>, i: int) -> bool {
    !t.nodes[i].entity.is_folder && !stored.contains(t.nodes[i].entity.hash)
}

/// The task that fetches the blob of the file `entity` of the repository at
/// `url` into `local_path`, where `joined` is the URL of that blob.
pub open spec fn task_for(
    entity: EntityView,
    local_path: Seq<char>,
    joined: Seq<char>,
) -> FetchTaskView {
    FetchTaskView {
        url: joined,
        path: blob_path(local_path, entity.hash),
        content_hash: entity.hash,
    }
}

/// The tasks for the missing blobs among the first `k` nodes of `t`, in arena
/// order, each with the URL that `../` and the name of its file resolve to
/// against the URL of the manifest of the repository at `url`; `None` where
/// one of those names resolves to no URL.
pub open spec fn planned_tasks(
    t: ManifestView,
    url: Seq<char>,
    local_path: Seq<char>,
    stored: Seq<u64>,
    k: nat,
) -> Option<Seq<FetchTaskView>>
    decreases k,
{
    if k == 0 {
        Some(Seq::empty())
    } else {
        let i = k - 1;
        match planned_tasks(t, url, local_path, stored, i as nat) {
            None => None,
            Some(tasks) => if is_missing(t, stored, i) {
                match joined_url(url + manifest_suffix(), blob_reference(t.nodes[i].entity.name)) {
                    Some(joined) => Some(tasks.push(task_for(t.nodes[i].entity, local_path, joined))),
                    None => None,
                }
            } else {
                Some(tasks)
            },
        }
    }
}

/// No blob that the local store holds is fetched again: the fingerprint of
/// every planned task is one that `stored` lacks.
pub proof fn lemma_stored_blobs_are_not_fetched(
    t: ManifestView,
    url: Seq<char>,
    local_path: Seq<char>,
    stored: Seq<u64>,
    k: nat,
    j: int,
)
    requires
        planned_tasks(t, url, local_path, stored, k) is Some,
        0 <= j < planned_tasks(t, url, local_path, stored, k).unwrap().len(),
    ensures
        !stored.contains(planned_tasks(t, url, local_path, stored, k).unwrap()[j].content_hash),
    decreases k,
{
    let before = planned_tasks(t, url, local_path, stored, (k - 1) as nat).unwrap();
    if j < before.len() {
        lemma_stored_blobs_are_not_fetched(t, url, local_path, stored, (k - 1) as nat, j);
    }
}

/// The task that fetches the blob of the file `entity` into `local_path`,
/// given what resolving its name against the remote URL gave.
pub fn fetch_task(
    entity: &FileSystemEntity,
    local_path: &str,
    joined: Result<String, url::ParseError>,
) -> (r: Result<FetchTask, CloneError>)
    ensures
        match joined {
            Ok(u) => r matches Ok(task) && task@ == task_for(entity@, local_path@, u@),
            Err(e) => r matches Err(err) && err == (CloneError::ParseError { source: e }),
        },
{
    match joined {
        Ok(url) => Ok(
            FetchTask { url, path: blob_path_of(local_path, entity.hash), content_hash: entity.hash },
        ),
        Err(e) => Err(CloneError::ParseError { source: e }),
    }
}

/// Whether `stored` holds `hash`.
pub fn holds(stored: &Vec<u64>, hash: u64) -> (r: bool)
    ensures
        r == stored@.contains(hash),
{
    let mut i: usize = 0;
    while i < stored.len()
        invariant
            i <= stored.len(),
            forall|j: int| 0 <= j < i ==> stored[j] != hash,
        decreases stored.len() - i,
    {
        if stored[i] == hash {
            return true;
        }
        i += 1;
    }
    false
}

/// The blobs to fetch for `manifest` from the repository at `url` into
/// `local_path`, where `stored` lists the fingerprints of the blobs that the
/// local store holds: one task for every file whose blob it lacks, in arena
/// order. The URL of a blob is `../` and the name of its file, resolved
/// against the URL of the manifest.
///
/// Fails with a parse error exactly when the name of such a file resolves to
/// no URL.
pub fn fetch_plan(manifest: &Manifest, url: &str, local_path: &str, stored: &Vec<u64>) -> (r: Result<
    Vec<FetchTask>,
    CloneError,
>)
    ensures
        match r {
            Ok(tasks) => planned_tasks(
                manifest@,
                url@,
                local_path@,
                stored@,
                manifest@.nodes.len(),
            ) == Some(task_views(tasks@)),
            Err(e) => planned_tasks(manifest@, url@, local_path@, stored@, manifest@.nodes.len())
                is None && e is ParseError,
        },
{
    let n: usize = manifest.len();
    let ghost t = manifest@;
    proof {
        reveal_strlit("/sync.json");
    }
    let base = join2(url, "/sync.json");
    assert(base@ =~= url@ + manifest_suffix());
    let mut tasks: Vec<FetchTask> = Vec::new();
    let mut i: usize = 0;
    while i < n
        invariant
            i <= n,
            t == manifest@,
            n == t.nodes.len(),
            base@ == url@ + manifest_suffix(),
            planned_tasks(t, url@, local_path@, stored@, i as nat) == Some(task_views(tasks@)),
        decreases n - i,
    {
        let entity = manifest.entity(i);
        if !entity.is_folder && !holds(stored, entity.hash) {
            proof {
                reveal_strlit("../");
            }
            let reference = join2("../", entity.name.as_str());
            assert(reference@ =~= blob_reference(entity@.name));
            let ghost before = task_views(tasks@);
            match fetch_task(entity, local_path, join_url(base.as_str(), reference.as_str())) {
                Ok(task) => {
                    tasks.push(task);
                    assert(task_views(tasks@) =~= before.push(task@));
                },
                Err(e) => {
                    proof {
                        lemma_plan_stays_none(t, url@, local_path@, stored@, (i + 1) as nat, n as nat);
                    }
                    return Err(e);
                },
            }
        }
        i += 1;
    }
    Ok(tasks)
}

/// Once a name has resolved to no URL, no longer plan is there either.
proof fn lemma_plan_stays_none(
    t: ManifestView,
    url: Seq<char>,
    local_path: Seq<char>,
    stored: Seq<u64>,
    k: nat,
    n: nat,
)
    requires
        planned_tasks(t, url, local_path, stored, k) is None,
        k <= n,
    ensures
        planned_tasks(t, url, local_path, stored, n) is None,
    decreases n - k,
{
    if k < n {
        lemma_plan_stays_none(t, url, local_path, stored, k, (n - 1) as nat);
    }
}

/// Whether the bytes fetched for `task` are the blob that it asked for: their
/// fingerprint is the one that the manifest gives.
pub fn verify_download(task: &FetchTask, bytes: &[u8]) -> (ok: bool)
    ensures
        ok == (fingerprint(bytes@) == task@.content_hash),
{
    xxhash64(bytes, 0) == task.content_hash
}

/// What was transferred, in all: the sum of `sizes`, or the largest number
/// that fits where the sum does not.
pub open spec fn total(sizes: Seq<u64>) -> nat
    decreases sizes.len(),
{
    if sizes.len() == 0 {
        0
    } else {
        total(sizes.drop_last()) + sizes.last() as nat
    }
}

/// How a clone went.
#[derive(Clone, Copy, Debug, PartialEq, Eq, Structural)]
pub struct SyncReport {
    /// The bytes transferred; a fetch that failed counts for none.
    pub bytes: u64,
    /// The whole seconds that the clone took.
    pub seconds: u64,
    /// Millions of bytes per second, once a whole second has gone by.
    pub megabytes_per_second: Option<u64>,
}

/// The report of a clone whose fetches transferred `sizes` bytes, one number
/// for each fetch, in `seconds` whole seconds.
pub fn report(sizes: &Vec<u64>, seconds: u64) -> (r: SyncReport)
    ensures
        r.bytes == if total(sizes@) > u64::MAX {
            u64::MAX as nat
        } else {
            total(sizes@)
        },
        r.seconds == seconds,
        r.megabytes_per_second == if seconds == 0 {
            None
        } else {
            Some((r.bytes / seconds / 1_000_000) as u64)
        },
{
    let mut bytes: u64 = 0;
    let mut i: usize = 0;
    while i < sizes.len()
        invariant
            i <= sizes.len(),
            bytes == if total(sizes@.take(i as int)) > u64::MAX {
                u64::MAX as nat
            } else {
                total(sizes@.take(i as int))
            },
        decreases sizes.len() - i,
    {
        assert(sizes@.take(i + 1).drop_last() == sizes@.take(i as int));
        bytes = bytes.saturating_add(sizes[i]);
        i += 1;
    }
    assert(sizes@.take(sizes.len() as int) == sizes@);
    let megabytes_per_second = if seconds == 0 {
        None
    } else {
        Some(bytes / seconds / 1_000_000)
    };
    SyncReport { bytes, seconds, megabytes_per_second }
}

impl IndexOp {
    /// The query that finds, in the repository `repo_id`, the id of the
    /// folder that this row hangs below; `None` for the row of a root.
    pub fn parent_query(&self, repo_id: i64) -> (q: Option<Statement>)
        ensures
            match op_parent(self@) {
                Some(name) => q matches Some(s) && s@.sql == folder_id_sql() && s@.params == seq![
                    SqlValueView::Text(name),
                    SqlValueView::Text(signed_decimal(repo_id as int)),
                ],
                None => q is None,
            },
    {
        match self {
            IndexOp::Folder { name: _, parent: Some(p) } => Some(folder_id_query(p, repo_id)),
            IndexOp::Folder { name: _, parent: None } => None,
            IndexOp::File { name: _, content_hash: _, parent } => Some(folder_id_query(parent, repo_id)),
        }
    }

    /// The statement that writes this row to the repository `repo_id`, where
    /// `parent_id` is the id that the parent query gave; the row of a root
    /// has no parent query, `parent_id` plays no part in it, and it holds no
    /// value for its parent.
    pub fn statement(&self, repo_id: i64, parent_id: i64) -> (s: Statement)
        ensures
            match self@ {
                IndexOpView::Folder { name, parent } => s@.sql == insert_folder_sql() && s@.params
                    == seq![
                    SqlValueView::Text(name),
                    SqlValueView::Text(bool_text(parent is None)),
                    SqlValueView::Text(signed_decimal(repo_id as int)),
                    if parent is None {
                        SqlValueView::Null
                    } else {
                        SqlValueView::Text(signed_decimal(parent_id as int))
                    },
                ],
                IndexOpView::File { name, content_hash, parent } => s@.sql == insert_file_sql()
                    && s@.params == seq![
                    SqlValueView::Text(name),
                    SqlValueView::Text(decimal(content_hash as nat)),
                    SqlValueView::Text(signed_decimal(repo_id as int)),
                    SqlValueView::Text(signed_decimal(parent_id as int)),
                ],
            },
    {
        match self {
            IndexOp::Folder { name, parent: Some(_) } => insert_folder(
                name.as_str(),
                repo_id,
                Some(parent_id),
            ),
            IndexOp::Folder { name, parent: None } => insert_folder(name.as_str(), repo_id, None),
            IndexOp::File { name, content_hash, parent: _ } => insert_file(
                name.as_str(),
                *content_hash,
                repo_id,
                parent_id,
            ),
        }
    }
}

/// What a clone does once the manifest is fetched: the rows to write to the
/// index and the blobs to fetch.
#[derive(Debug)]
pub struct ClonePlan {
    /// The statement that registers the repository, without delta patching,
    /// to run first.
    pub repository: Statement,
    /// The rows to write, in the order in which to write them.
    pub index: Vec<IndexOp>,
    /// The blobs to fetch, in any order.
    pub fetches: Vec<FetchTask>,
}

/// Why a clone fails, as far as its inputs tell.
pub enum CloneFailure {
    /// The remote URL is not well-formed.
    RemoteUrl,
    /// The records are no manifest.
    Format(FormatError),
    /// A file has no parent folder.
    FileParent,
    /// The name of a file whose blob is missing resolves to no URL.
    BlobUrl,
}

/// Why the clone of the repository at `url` into `path` fails, if it does:
/// the first that applies of a remote URL that is not well-formed, records
/// that are no manifest, a file without parent folder, and a missing blob
/// whose file name resolves to no URL.
pub open spec fn clone_failure(
    path: Seq<char>,
    url: Seq<char>,
    nodes: Seq<NodeView>,
    stored: Seq<u64>,
) -> Option<CloneFailure> {
    if parsed_url(url) is None {
        Some(CloneFailure::RemoteUrl)
    } else {
        match decoded(nodes) {
            Err(e) => Some(CloneFailure::Format(e)),
            Ok(t) => if has_orphan_file(t) {
                Some(CloneFailure::FileParent)
            } else if planned_tasks(t, url, path, stored, t.nodes.len()) is None {
                Some(CloneFailure::BlobUrl)
            } else {
                None
            },
        }
    }
}

/// The error that tells of the failure `failure`.
pub open spec fn tells(e: CloneError, failure: CloneFailure) -> bool {
    match failure {
        CloneFailure::RemoteUrl => e is ParseError,
        CloneFailure::Format(source) => e == (CloneError::FormatError { source }),
        CloneFailure::FileParent => e == CloneError::FileParentError,
        CloneFailure::BlobUrl => e is ParseError,
    }
}

/// Plans the clone of the repository `name` at `url` into `path`, from the
/// records of its manifest and the fingerprints `stored` of the blobs that
/// `path` holds.
///
/// Fails, in this order: with a parse error where `url` is not well-formed;
/// with a format error where the records are no manifest; with a file parent
/// error where a file has no parent folder; with a parse error where the
/// name of a file whose blob is missing resolves to no URL. Else the plan
/// holds the statement that registers the repository, the rows of all nodes,
/// top-down, and one task for every file whose blob `stored` lacks.
pub fn clone(path: &str, url: &str, name: &str, records: Vec<Node>, stored: &Vec<u64>) -> (r: Result<
    ClonePlan,
    CloneError,
>)
    ensures
        match r {
            Ok(plan) => {
                &&& clone_failure(path@, url@, nodes_view(records@), stored@) is None
                &&& plan.repository@.sql == insert_repository_sql()
                &&& plan.repository@.params == seq![
                    SqlValueView::Text(name@),
                    SqlValueView::Text(path@),
                    SqlValueView::Text(url@),
                    SqlValueView::Text(bool_text(false)),
                ]
                &&& plans_index(decoded(nodes_view(records@))->Ok_0, plan.index@)
                &&& planned_tasks(
                    decoded(nodes_view(records@))->Ok_0,
                    url@,
                    path@,
                    stored@,
                    records@.len(),
                ) == Some(task_views(plan.fetches@))
            },
            Err(e) => {
                &&& clone_failure(path@, url@, nodes_view(records@), stored@) matches Some(failure)
                &&& tells(e, failure)
            },
        },
{
    match manifest_url(url) {
        Ok(_) => {},
        Err(e) => {
            return Err(e);
        },
    }
    let manifest = match decode(records) {
        Ok(m) => m,
        Err(source) => {
            return Err(CloneError::FormatError { source });
        },
    };
    let index = match index_plan(&manifest) {
        Ok(ops) => ops,
        Err(e) => {
            return Err(e);
        },
    };
    let fetches = match fetch_plan(&manifest, url, path, stored) {
        Ok(tasks) => tasks,
        Err(e) => {
            return Err(e);
        },
    };
    Ok(ClonePlan { repository: insert_repository(name, path, url, false), index, fetches })
}

} // verus!
