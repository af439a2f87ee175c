use rsb::db::open_error_message;

#[test]
fn open_error_when_locked() {
    let msg = open_error_message(".rsb/db.redb", "Cache database", "Database already open. Cannot acquire lock.");
    assert_eq!(
        msg,
        "Another rsconstruct process is using .rsb/db.redb: Database already open. Cannot acquire lock.\nWait for it to finish, or check for stale processes."
    );
}

#[test]
fn open_error_when_lock_word_only() {
    let msg = open_error_message("db", "Cache", "file lock held");
    assert!(msg.starts_with("Another rsconstruct process is using db: file lock held"));
}

#[test]
fn open_error_when_corrupted() {
    let msg = open_error_message(".rsb/db.redb", "Cache database", "invalid header");
    assert_eq!(
        msg,
        "Cache database is corrupted: .rsb/db.redb\nRun `rsconstruct cache clear` to delete it and rebuild.\nCause: invalid header"
    );
}
