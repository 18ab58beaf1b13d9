//! One file-system object of a snapshot, and the names of such objects:
//! paths relative to the repository root, with `/` between their segments.

use crate::crypto::xx_hasher::{fingerprint, hash_path, CryptoError};
use crate::repository::tree::BuildRepoError;
use crate::text::{chars_of, is_separator, separator, starts_with, string_of, string_of_range};
use vstd::prelude::*;

verus! {

/// One file or folder of a repository snapshot.
#[derive(Debug)]
pub struct FileSystemEntity {
    /// The path relative to the repository root; empty for the root itself.
    pub name: String,
    /// The tag that tells a folder from a file.
    pub is_folder: bool,
    /// The fingerprint of a file's bytes; `0` for a folder.
    pub hash: u64,
}

/// What an entity is, as a mathematical value.
pub struct EntityView {
    pub name: Seq<char>,
    pub is_folder: bool,
    pub hash: u64,
}

impl View for FileSystemEntity {
    type V = EntityView;

    open spec fn view(&self) -> EntityView {
        EntityView { name: self.name@, is_folder: self.is_folder, hash: self.hash }
    }
}

/// The offset of the last separator in `name`, if it has one.
pub open spec fn last_separator(name: Seq<char>) -> Option<int>
    decreases name.len(),
{
    if name.len() == 0 {
        None
    } else if is_separator(name.last()) {
        Some(name.len() - 1)
    } else {
        last_separator(name.drop_last())
    }
}

/// The name of the folder that holds `name`: `name` without its last segment
/// and the separator before it; empty where `name` is a single segment.
pub open spec fn parent_name(name: Seq<char>) -> Seq<char> {
    match last_separator(name) {
        Some(k) => name.take(k),
        None => Seq::empty(),
    }
}

/// `s` without the separators it begins with.
pub open spec fn trim_leading_separators(s: Seq<char>) -> Seq<char>
    decreases s.len(),
{
    if s.len() > 0 && is_separator(s[0]) {
        trim_leading_separators(s.drop_first())
    } else {
        s
    }
}

/// The separator that names carry: `\` becomes `/`.
pub open spec fn normal_char(c: char) -> char {
    if c == '\\' {
        '/'
    } else {
        c
    }
}

/// `s` with every separator written as `/`.
pub open spec fn normalized(s: Seq<char>) -> Seq<char> {
    Seq::new(s.len(), |i: int| normal_char(s[i]))
}

/// The name of the entry at `path` in the repository at `root`: what follows
/// `root` in `path` (all of `path` where it does not begin with `root`),
/// without leading separators, with `/` as the separator.
pub open spec fn relative_name(path: Seq<char>, root: Seq<char>) -> Seq<char> {
    let rest = if root.is_prefix_of(path) {
        path.skip(root.len() as int)
    } else {
        path
    };
    normalized(trim_leading_separators(rest))
}

/// What `last_separator` finds is a separator, and none stands behind it.
pub proof fn lemma_last_separator(name: Seq<char>)
    ensures
        match last_separator(name) {
            Some(k) => 0 <= k < name.len() && is_separator(name[k]) && forall|j: int|
                k < j < name.len() ==> !is_separator(name[j]),
            None => forall|j: int| 0 <= j < name.len() ==> !is_separator(name[j]),
        },
    decreases name.len(),
{
    if name.len() > 0 && !is_separator(name.last()) {
        let front = name.drop_last();
        lemma_last_separator(front);
        assert(forall|j: int| 0 <= j < front.len() ==> front[j] == name[j]);
    }
}

/// The name of the holding folder is shorter than a name that is not empty.
pub proof fn lemma_parent_name_shorter(name: Seq<char>)
    requires
        name.len() > 0,
    ensures
        parent_name(name).len() < name.len(),
{
    lemma_last_separator(name);
}

/// The offset of the last separator among `name[..]`.
pub fn find_last_separator(name: &Vec<char>) -> (r: Option<usize>)
    ensures
        match r {
            Some(k) => k < name.len() && last_separator(name@) == Some(k as int),
            None => last_separator(name@) is None,
        },
{
    let mut i: usize = name.len();
    assert(name@.take(i as int) == name@);
    while i > 0
        invariant
            i <= name.len(),
            last_separator(name@) == last_separator(name@.take(i as int)),
        decreases i,
    {
        if separator(name[i - 1]) {
            assert(name@.take(i as int).last() == name@[i - 1]);
            return Some(i - 1);
        }
        assert(name@.take(i as int).drop_last() == name@.take(i - 1));
        i -= 1;
    }
    assert(name@.take(0).len() == 0);
    None
}

/// The name of the folder that holds the entity named `name`.
pub fn parent_name_of(name: &str) -> (parent: String)
    ensures
        parent@ == parent_name(name@),
{
    let chars = chars_of(name);
    match find_last_separator(&chars) {
        Some(k) => string_of_range(&chars, 0, k),
        None => String::new(),
    }
}

/// The name that the entry at `path` has in the repository at `root`.
pub fn relative_name_of(path: &str, root: &str) -> (name: String)
    ensures
        name@ == relative_name(path@, root@),
{
    let chars = chars_of(path);
    let prefix = chars_of(root);
    let mut start: usize = if starts_with(&chars, &prefix) {
        prefix.len()
    } else {
        0
    };
    let ghost rest = chars@.skip(start as int);
    assert(chars@.skip(0) == chars@);
    while start < chars.len() && separator(chars[start])
        invariant
            start <= chars.len(),
            trim_leading_separators(rest) == trim_leading_separators(chars@.skip(start as int)),
        decreases chars.len() - start,
    {
        assert(chars@.skip(start as int).drop_first() == chars@.skip(start + 1));
        start += 1;
    }
    let ghost trimmed = chars@.skip(start as int);
    assert(trim_leading_separators(rest) == trimmed);
    let mut out: Vec<char> = Vec::new();
    let mut i: usize = start;
    while i < chars.len()
        invariant
            start <= i <= chars.len(),
            trimmed == chars@.skip(start as int),
            out@ == normalized(trimmed.take(i - start)),
        decreases chars.len() - i,
    {
        let c = chars[i];
        out.push(if c == '\\' { '/' } else { c });
        assert(out@ =~= normalized(trimmed.take(i + 1 - start)));
        i += 1;
    }
    assert(trimmed.take(chars.len() - start) == trimmed);
    string_of(&out)
}

impl FileSystemEntity {
    /// The entity for the entry at `name` of the repository at `repo_path`:
    /// a folder where `is_directory` says so, else a file with the
    /// fingerprint of the bytes that reading it gave.
    ///
    /// Fails exactly when the entry is a file that could not be read.
    pub fn new(
        name: &str,
        repo_path: &str,
        is_directory: bool,
        read: Result<Vec<u8>, std::io::Error>,
    ) -> (r: Result<FileSystemEntity, BuildRepoError>)
        ensures
            match r {
                Ok(entity) => {
                    &&& !is_directory ==> read is Ok
                    &&& entity@.name == relative_name(name@, repo_path@)
                    &&& entity@.is_folder == is_directory
                    &&& entity@.hash == if is_directory {
                        0
                    } else {
                        fingerprint(read->Ok_0@)
                    }
                },
                Err(e) => !is_directory && read is Err && e == (BuildRepoError::CryptoError {
                    source: CryptoError::IOError { source: read->Err_0 },
                }),
            },
    {
        let hash: u64 = if is_directory {
            0
        } else {
            match hash_path(name, read) {
                Ok(h) => h,
                Err(e) => {
                    return Err(BuildRepoError::CryptoError { source: e });
                },
            }
        };
        Ok(FileSystemEntity { name: relative_name_of(name, repo_path), is_folder: is_directory, hash })
    }

    /// A copy of this entity.
    pub fn duplicate(&self) -> (copy: FileSystemEntity)
        ensures
            copy@ == self@,
    {
        FileSystemEntity { name: self.name.clone(), is_folder: self.is_folder, hash: self.hash }
    }

    /// Whether this entity is the root of its repository: its name is empty.
    pub fn is_root(&self) -> (r: bool)
        ensures
            r == (self@.name.len() == 0),
    {
        self.name.as_str().is_empty()
    }
}

} // verus!
