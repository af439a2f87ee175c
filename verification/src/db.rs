//! What a failure to open the build database is reported as.

use vstd::prelude::*;
use crate::text::{seq_contains, str_contains, append_str};

verus! {

/// An error text that tells of another process holding the database.
pub open spec fn is_lock_error(error: Seq<char>) -> bool {
    seq_contains(error, "already open"@) || seq_contains(error, "lock"@)
}

/// The message for a database at `path` (described as `label`) that could
/// not be opened with `error`: another process holds it, or it is corrupted.
pub open spec fn open_error_spec(path: Seq<char>, label: Seq<char>, error: Seq<char>) -> Seq<char> {
    if is_lock_error(error) {
        "Another rsconstruct process is using "@ + path + ": "@ + error
            + "\nWait for it to finish, or check for stale processes."@
    } else {
        label + " is corrupted: "@ + path
            + "\nRun `rsconstruct cache clear` to delete it and rebuild.\nCause: "@ + error
    }
}

/// The message for a database that could not be opened.
pub fn open_error_message(db_path: &str, label: &str, error: &str) -> (r: String)
    ensures
        r@ == open_error_spec(db_path@, label@, error@),
{
    let mut r = String::new();
    if str_contains(error, "already open") || str_contains(error, "lock") {
        append_str(&mut r, "Another rsconstruct process is using ");
        append_str(&mut r, db_path);
        append_str(&mut r, ": ");
        append_str(&mut r, error);
        append_str(&mut r, "\nWait for it to finish, or check for stale processes.");
    } else {
        append_str(&mut r, label);
        append_str(&mut r, " is corrupted: ");
        append_str(&mut r, db_path);
        append_str(&mut r, "\nRun `rsconstruct cache clear` to delete it and rebuild.\nCause: ");
        append_str(&mut r, error);
    }
    r
}

} // verus!
