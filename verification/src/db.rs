//! Where the index is kept.

use vstd::prelude::*;

use crate::paths::{join_path, path_in};

verus! {

/// The database file below the application's data folder.
pub fn db_path(app_data_dir: &str) -> (r: String)
    ensures
        r@ == path_in(app_data_dir@, "fxbrowser.sqlite3"@),
{
    join_path(app_data_dir, "fxbrowser.sqlite3")
}

} // verus!
