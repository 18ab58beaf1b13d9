//! The index of repositories, folders and files in SQLite: the text and the
//! parameters of every statement, and the rows as the library reads them.
//! Running a statement is left to the caller.

use crate::repository::entity::FileSystemEntity;
use crate::text::{
    bool_string, bool_text, chars_of, decimal, decimal_string, ends_with, signed_decimal,
    signed_decimal_string,
};
use vstd::prelude::*;

verus! {

/// One parameter of a statement.
#[derive(Debug)]
pub enum SqlValue {
    Text(String),
    Integer(i64),
    /// No value: SQL's `NULL`.
    Null,
}

/// A parameter as a mathematical value.
pub enum SqlValueView {
    Text(Seq<char>),
    Integer(i64),
    Null,
}

impl View for SqlValue {
    type V = SqlValueView;

    open spec fn view(&self) -> SqlValueView {
        match self {
            SqlValue::Text(s) => SqlValueView::Text(s@),
            SqlValue::Integer(n) => SqlValueView::Integer(*n),
            SqlValue::Null => SqlValueView::Null,
        }
    }
}

/// A statement to run: its text, and the values of `?1`, `?2` and so on.
#[derive(Debug)]
pub struct Statement {
    pub sql: String,
    pub params: Vec<SqlValue>,
}

/// A statement as a mathematical value.
pub struct StatementView {
    pub sql: Seq<char>,
    pub params: Seq<SqlValueView>,
}

impl View for Statement {
    type V = StatementView;

    open spec fn view(&self) -> StatementView {
        StatementView { sql: self.sql@, params: Seq::new(self.params@.len(), |i: int| self.params@[i]@) }
    }
}

/// Why a query gave no value.
#[derive(Clone, Copy, Debug, PartialEq, Eq, Structural)]
pub enum SqlError {
    /// The query returned no row.
    InvalidQuery,
}

/// Why a repository cannot be worked on.
#[derive(Clone, Copy, Debug, PartialEq, Eq, Structural)]
pub enum ConfigError {
    /// No repository is registered under the name asked for.
    UnregisteredRepository,
}

/// A registered repository.
#[derive(Debug)]
pub struct Repository {
    pub id: i64,
    pub name: String,
    pub path: String,
    pub url: String,
    /// Whether a build writes a signature beside every file.
    pub delta_patch: bool,
}

/// A folder row of the index.
#[derive(Debug)]
pub struct RFolder {
    pub id: i64,
    pub name: String,
    pub is_root: bool,
    /// The id of the folder that holds this one; `None` for a root.
    pub parent_id: Option<i64>,
}

/// A file row of the index.
#[derive(Debug)]
pub struct RFile {
    pub id: i64,
    pub name: String,
    pub xx_hash64: String,
    pub parent_id: i64,
}

/// The file that holds the index.
pub open spec fn database_file() -> Seq<char> {
    "a3mm.sqlite3"@
}

/// The statement that a fresh connection runs first.
pub open spec fn pragma_sql() -> Seq<char> {
    "PRAGMA synchronous = OFF"@
}

pub open spec fn create_repositories_sql() -> Seq<char> {
    "create table if not exists repositories (id integer primary key,name text not null unique,path text not null,url text not null,delta_patch text not null);"@
}

pub open spec fn create_folder_sql() -> Seq<char> {
    "CREATE TABLE if not exists folder (id	INTEGER PRIMARY KEY AUTOINCREMENT,name	TEXT,is_root	INTEGER DEFAULT 0,repository_id	INTEGER,parent_id	INTEGER,FOREIGN KEY(repository_id) REFERENCES repositories(id))"@
}

pub open spec fn create_file_sql() -> Seq<char> {
    "CREATE TABLE if not exists file (id	INTEGER PRIMARY KEY AUTOINCREMENT,name	TEXT,xxHash64	TEXT,repository_id	INTEGER,parent_id	INTEGER,FOREIGN KEY(parent_id) REFERENCES folder(id),FOREIGN KEY(repository_id) REFERENCES repositories(id))"@
}

pub open spec fn folder_id_sql() -> Seq<char> {
    "SELECT id FROM folder WHERE name = ?1 AND repository_id = ?2 LIMIT 1"@
}

pub open spec fn insert_file_sql() -> Seq<char> {
    "INSERT INTO file (id, name, xxHash64, repository_id, parent_id) VALUES (NULL, ?1, ?2, ?3, ?4)"@
}

pub open spec fn insert_folder_sql() -> Seq<char> {
    "INSERT INTO folder (id, name, is_root, repository_id, parent_id) VALUES (NULL, ?1, ?2, ?3, ?4)"@
}

pub open spec fn insert_repository_sql() -> Seq<char> {
    "INSERT INTO repositories (id, name, path, url, delta_patch) VALUES (NULL, ?1, ?2, ?3, ?4)"@
}

pub open spec fn repository_sql() -> Seq<char> {
    "SELECT id, name, path, url, delta_patch FROM repositories WHERE name = ?1 LIMIT 1"@
}

pub open spec fn repo_folders_sql() -> Seq<char> {
    "SELECT id, name, is_root, parent_id FROM folder WHERE repository_id = ?1"@
}

pub open spec fn repo_files_sql() -> Seq<char> {
    "SELECT id, name, xxHash64, parent_id FROM file WHERE repository_id = ?1"@
}

/// A statement without parameters.
fn plain(sql: &str) -> (s: Statement)
    ensures
        s@ == (StatementView { sql: sql@, params: Seq::empty() }),
{
    let s = Statement { sql: String::from_str(sql), params: Vec::new() };
    assert(s@.params =~= Seq::empty());
    s
}

/// The file that holds the index, and the statement to run on a connection
/// to it before any other.
pub fn get_conn() -> (r: (String, Statement))
    ensures
        r.0@ == database_file(),
        r.1@ == (StatementView { sql: pragma_sql(), params: Seq::empty() }),
{
    (String::from_str("a3mm.sqlite3"), plain("PRAGMA synchronous = OFF"))
}

/// The statements that make the three tables of the index where they are not
/// there yet: repositories, folders, files. They run in one transaction.
pub fn create() -> (r: Vec<Statement>)
    ensures
        r@.len() == 3,
        r@[0]@ == (StatementView { sql: create_repositories_sql(), params: Seq::empty() }),
        r@[1]@ == (StatementView { sql: create_folder_sql(), params: Seq::empty() }),
        r@[2]@ == (StatementView { sql: create_file_sql(), params: Seq::empty() }),
{
    let mut r: Vec<Statement> = Vec::new();
    r.push(
        plain(
            "create table if not exists repositories (id integer primary key,name text not null unique,path text not null,url text not null,delta_patch text not null);",
        ),
    );
    r.push(
        plain(
            "CREATE TABLE if not exists folder (id	INTEGER PRIMARY KEY AUTOINCREMENT,name	TEXT,is_root	INTEGER DEFAULT 0,repository_id	INTEGER,parent_id	INTEGER,FOREIGN KEY(repository_id) REFERENCES repositories(id))",
        ),
    );
    r.push(
        plain(
            "CREATE TABLE if not exists file (id	INTEGER PRIMARY KEY AUTOINCREMENT,name	TEXT,xxHash64	TEXT,repository_id	INTEGER,parent_id	INTEGER,FOREIGN KEY(parent_id) REFERENCES folder(id),FOREIGN KEY(repository_id) REFERENCES repositories(id))",
        ),
    );
    r
}

/// The query for the id of the folder `name` of the repository `repo_id`.
pub fn folder_id_query(name: &String, repo_id: i64) -> (s: Statement)
    ensures
        s@.sql == folder_id_sql(),
        s@.params == seq![
            SqlValueView::Text(name@),
            SqlValueView::Text(signed_decimal(repo_id as int)),
        ],
{
    let mut params: Vec<SqlValue> = Vec::new();
    params.push(SqlValue::Text(name.clone()));
    params.push(SqlValue::Text(signed_decimal_string(repo_id)));
    let s = Statement {
        sql: String::from_str("SELECT id FROM folder WHERE name = ?1 AND repository_id = ?2 LIMIT 1"),
        params,
    };
    assert(s@.params =~= seq![
        SqlValueView::Text(name@),
        SqlValueView::Text(signed_decimal(repo_id as int)),
    ]);
    s
}

/// The query for the id of the folder `parent_node`, which holds a file, in
/// the repository `repo_id`. Its rows are ids; `last_row` picks the answer.
pub fn get_file_parent_id(parent_node: &FileSystemEntity, repo_id: i64) -> (s: Statement)
    ensures
        s@.sql == folder_id_sql(),
        s@.params == seq![
            SqlValueView::Text(parent_node@.name),
            SqlValueView::Text(signed_decimal(repo_id as int)),
        ],
{
    folder_id_query(&parent_node.name, repo_id)
}

/// The query for the id of the folder `parent_node`, which holds a folder,
/// in the repository `repo_id`. Its rows are ids; `last_row` picks the answer.
pub fn get_folder_parent_id(parent_node: &FileSystemEntity, repo_id: i64) -> (s: Statement)
    ensures
        s@.sql == folder_id_sql(),
        s@.params == seq![
            SqlValueView::Text(parent_node@.name),
            SqlValueView::Text(signed_decimal(repo_id as int)),
        ],
{
    folder_id_query(&parent_node.name, repo_id)
}

/// The statement that writes the row of the file `name` with the fingerprint
/// `xx_hash`, which lies in the folder `parent_id` of the repository
/// `repo_id`. The fingerprint goes in as a decimal numeral: a column of
/// numbers would not hold all 64 bits.
pub fn insert_file(name: &str, xx_hash: u64, repo_id: i64, parent_id: i64) -> (s: Statement)
    ensures
        s@.sql == insert_file_sql(),
        s@.params == seq![
            SqlValueView::Text(name@),
            SqlValueView::Text(decimal(xx_hash as nat)),
            SqlValueView::Text(signed_decimal(repo_id as int)),
            SqlValueView::Text(signed_decimal(parent_id as int)),
        ],
{
    let mut params: Vec<SqlValue> = Vec::new();
    params.push(SqlValue::Text(String::from_str(name)));
    params.push(SqlValue::Text(decimal_string(xx_hash)));
    params.push(SqlValue::Text(signed_decimal_string(repo_id)));
    params.push(SqlValue::Text(signed_decimal_string(parent_id)));
    let s = Statement {
        sql: String::from_str(
            "INSERT INTO file (id, name, xxHash64, repository_id, parent_id) VALUES (NULL, ?1, ?2, ?3, ?4)",
        ),
        params,
    };
    assert(s@.params =~= seq![
        SqlValueView::Text(name@),
        SqlValueView::Text(decimal(xx_hash as nat)),
        SqlValueView::Text(signed_decimal(repo_id as int)),
        SqlValueView::Text(signed_decimal(parent_id as int)),
    ]);
    s
}

/// The value that the row of a folder holds for its parent: the numeral of
/// the parent's id, or no value for a root.
pub open spec fn parent_value(parent_id: Option<i64>) -> SqlValueView {
    match parent_id {
        Some(p) => SqlValueView::Text(signed_decimal(p as int)),
        None => SqlValueView::Null,
    }
}

/// The statement that writes the row of the folder `name` of the repository
/// `repo_id`: a root without parent where `parent_id` is `None`, else a
/// folder in the folder `parent_id`.
pub fn insert_folder(name: &str, repo_id: i64, parent_id: Option<i64>) -> (s: Statement)
    ensures
        s@.sql == insert_folder_sql(),
        s@.params == seq![
            SqlValueView::Text(name@),
            SqlValueView::Text(bool_text(parent_id is None)),
            SqlValueView::Text(signed_decimal(repo_id as int)),
            parent_value(parent_id),
        ],
{
    let is_root: bool = parent_id.is_none();
    let parent: SqlValue = match parent_id {
        Some(p) => SqlValue::Text(signed_decimal_string(p)),
        None => SqlValue::Null,
    };
    let mut params: Vec<SqlValue> = Vec::new();
    params.push(SqlValue::Text(String::from_str(name)));
    params.push(SqlValue::Text(bool_string(is_root)));
    params.push(SqlValue::Text(signed_decimal_string(repo_id)));
    params.push(parent);
    let s = Statement {
        sql: String::from_str(
            "INSERT INTO folder (id, name, is_root, repository_id, parent_id) VALUES (NULL, ?1, ?2, ?3, ?4)",
        ),
        params,
    };
    assert(s@.params =~= seq![
        SqlValueView::Text(name@),
        SqlValueView::Text(bool_text(parent_id is None)),
        SqlValueView::Text(signed_decimal(repo_id as int)),
        parent_value(parent_id),
    ]);
    s
}

/// The statement that registers the repository `name`, which lies at `path`
/// and is published at `url`, with its delta-patch flag. The statements of
/// `create` run before it.
pub fn insert_repository(name: &str, path: &str, url: &str, delta_patch: bool) -> (s: Statement)
    ensures
        s@.sql == insert_repository_sql(),
        s@.params == seq![
            SqlValueView::Text(name@),
            SqlValueView::Text(path@),
            SqlValueView::Text(url@),
            SqlValueView::Text(bool_text(delta_patch)),
        ],
{
    let mut params: Vec<SqlValue> = Vec::new();
    params.push(SqlValue::Text(String::from_str(name)));
    params.push(SqlValue::Text(String::from_str(path)));
    params.push(SqlValue::Text(String::from_str(url)));
    params.push(SqlValue::Text(bool_string(delta_patch)));
    let s = Statement {
        sql: String::from_str(
            "INSERT INTO repositories (id, name, path, url, delta_patch) VALUES (NULL, ?1, ?2, ?3, ?4)",
        ),
        params,
    };
    assert(s@.params =~= seq![
        SqlValueView::Text(name@),
        SqlValueView::Text(path@),
        SqlValueView::Text(url@),
        SqlValueView::Text(bool_text(delta_patch)),
    ]);
    s
}

/// The query for the repository `name`. The statements of `create` run
/// before it; `Repository::from_row` reads its rows, and `registered` picks
/// the answer.
pub fn get_repository(name: &str) -> (s: Statement)
    ensures
        s@.sql == repository_sql(),
        s@.params == seq![SqlValueView::Text(name@)],
{
    let mut params: Vec<SqlValue> = Vec::new();
    params.push(SqlValue::Text(String::from_str(name)));
    let s = Statement {
        sql: String::from_str("SELECT id, name, path, url, delta_patch FROM repositories WHERE name = ?1 LIMIT 1"),
        params,
    };
    assert(s@.params =~= seq![SqlValueView::Text(name@)]);
    s
}

/// The query for the folders of the repository `repo_id`. Each row gives an
/// id, a name, the text of the root flag and the id of the parent, which
/// `RFolder::from_row` reads.
pub fn get_repo_folders(repo_id: i64) -> (s: Statement)
    ensures
        s@.sql == repo_folders_sql(),
        s@.params == seq![SqlValueView::Integer(repo_id)],
{
    let mut params: Vec<SqlValue> = Vec::new();
    params.push(SqlValue::Integer(repo_id));
    let s = Statement {
        sql: String::from_str(
            "SELECT id, name, is_root, parent_id FROM folder WHERE repository_id = ?1",
        ),
        params,
    };
    assert(s@.params =~= seq![SqlValueView::Integer(repo_id)]);
    s
}

/// The query for the files of the repository `repo_id`. Each row gives an
/// id, a name, the fingerprint as text and the id of the parent.
pub fn get_repo_files(repo_id: i64) -> (s: Statement)
    ensures
        s@.sql == repo_files_sql(),
        s@.params == seq![SqlValueView::Integer(repo_id)],
{
    let mut params: Vec<SqlValue> = Vec::new();
    params.push(SqlValue::Integer(repo_id));
    let s = Statement {
        sql: String::from_str(
            "SELECT id, name, xxHash64, parent_id FROM file WHERE repository_id = ?1",
        ),
        params,
    };
    assert(s@.params =~= seq![SqlValueView::Integer(repo_id)]);
    s
}

/// The answer of a query that asks for one value: the last row that came
/// back, or `InvalidQuery` where none did.
pub fn last_row<T>(rows: Vec<T>) -> (r: Result<T, SqlError>)
    ensures
        match r {
            Ok(row) => rows@.len() > 0 && row == rows@.last(),
            Err(e) => rows@.len() == 0 && e == SqlError::InvalidQuery,
        },
{
    let mut rows = rows;
    match rows.pop() {
        Some(row) => Ok(row),
        None => Err(SqlError::InvalidQuery),
    }
}

/// The text of a flag says yes: it ends in `true`.
pub open spec fn says_yes(flag: Seq<char>) -> bool {
    bool_text(true).is_suffix_of(flag)
}

/// Whether the text of a flag says yes.
pub fn flag_set(flag: &str) -> (r: bool)
    ensures
        r == says_yes(flag@),
{
    let text = chars_of(flag);
    let mut yes: Vec<char> = Vec::new();
    yes.push('t');
    yes.push('r');
    yes.push('u');
    yes.push('e');
    assert(yes@ =~= bool_text(true));
    ends_with(&text, &yes)
}

impl RFolder {
    /// The folder that a row of `get_repo_folders` stands for: it is a root
    /// exactly when the text of its root flag ends in `true`, and its parent
    /// is what the row holds, which is nothing for a root.
    pub fn from_row(id: i64, name: String, is_root: &str, parent_id: Option<i64>) -> (folder: RFolder)
        ensures
            folder.id == id,
            folder.name == name,
            folder.is_root == says_yes(is_root@),
            folder.parent_id == parent_id,
    {
        RFolder { id, name, is_root: flag_set(is_root), parent_id }
    }
}

impl Repository {
    /// The repository that a row of `get_repository` stands for: delta
    /// patching is on exactly when the text of its flag ends in `true`.
    pub fn from_row(id: i64, name: String, path: String, url: String, delta_patch: &str) -> (repository:
        Repository)
        ensures
            repository.id == id,
            repository.name == name,
            repository.path == path,
            repository.url == url,
            repository.delta_patch == says_yes(delta_patch@),
    {
        Repository { id, name, path, url, delta_patch: flag_set(delta_patch) }
    }
}

/// No row is that of a repository named `name`.
pub open spec fn unregistered(name: Seq<char>, rows: Seq<Repository>) -> bool {
    forall|i: int| 0 <= i < rows.len() ==> (#[trigger] rows[i]).name@ != name
}

/// The repository registered under `name`, among the rows that the query for
/// it gave: the last row with that very name.
///
/// Fails exactly when no row has the name: the repository is unregistered.
pub fn registered(name: &str, rows: Vec<Repository>) -> (r: Result<Repository, ConfigError>)
    ensures
        r is Err <==> unregistered(name@, rows@),
        match r {
            Ok(found) => exists|i: int|
                0 <= i < rows@.len() && #[trigger] rows@[i] == found && found.name@ == name@
                    && forall|j: int| i < j < rows@.len() ==> (#[trigger] rows@[j]).name@ != name@,
            Err(e) => e == ConfigError::UnregisteredRepository,
        },
{
    let wanted = String::from_str(name);
    let mut left = rows;
    loop
        invariant
            wanted@ == name@,
            left@.len() <= rows@.len(),
            left@ == rows@.take(left@.len() as int),
            forall|j: int| left@.len() <= j < rows@.len() ==> (#[trigger] rows@[j]).name@ != name@,
        decreases left@.len(),
    {
        let ghost at = left@.len() - 1;
        match left.pop() {
            Some(row) => {
                assert(row == rows@[at]);
                if row.name == wanted {
                    return Ok(row);
                }
            },
            None => {
                return Err(ConfigError::UnregisteredRepository);
            },
        }
    }
}

} // verus!
