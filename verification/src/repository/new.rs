//! Registering a repository.

use crate::sql::sqlite::{
    insert_repository, insert_repository_sql, SqlValueView, Statement,
};
use crate::text::bool_text;
use vstd::prelude::*;

verus! {

/// Why a repository could not be registered.
#[derive(Clone, Copy, Debug, PartialEq, Eq, Structural)]
pub enum NewRepoError {
    /// The folder of the repository does not exist.
    FolderNotFound,
}

/// Registers the repository `name`, whose files lie at `path` and which is
/// published at `url`, with delta patching on or off: returns the statement
/// that writes its row, to run once the tables of the index are there.
///
/// `path_exists` tells whether `path` exists. Fails exactly when it does not.
pub fn new(name: &str, path: &str, url: &str, delta_patch: bool, path_exists: bool) -> (r: Result<
    Statement,
    NewRepoError,
>)
    ensures
        r is Ok <==> path_exists,
        match r {
            Ok(s) => s@.sql == insert_repository_sql() && s@.params == seq![
                SqlValueView::Text(name@),
                SqlValueView::Text(path@),
                SqlValueView::Text(url@),
                SqlValueView::Text(bool_text(delta_patch)),
            ],
            Err(e) => e == NewRepoError::FolderNotFound,
        },
{
    if !path_exists {
        return Err(NewRepoError::FolderNotFound);
    }
    Ok(insert_repository(name, path, url, delta_patch))
}

} // verus!
