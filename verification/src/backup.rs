//! Records for store backups.
//!
//! A [`BackupFile`] names a file of the durable store to be compressed or
//! restored; a [`File`] is the row recorded for one backup. The compression
//! and the database writes themselves are I/O and happen outside the
//! library.

use vstd::prelude::*;

use vstd::string::StringExecFns;

verus! {

/// A store file to back up: the archive lives beside it under `.gz`.
pub struct BackupFile {
    pub path: String,
}

impl BackupFile {
    /// A backup handle for the file at `path`.
    pub fn new(path: &str) -> (r: BackupFile)
        ensures
            r.path@ == path@,
    {
        BackupFile { path: String::from_str(path) }
    }
}

/// One recorded backup: the path it covers and the hash it is filed under.
pub struct File {
    pub id: i32,
    pub path: String,
    pub path_hash: String,
}

impl File {
    /// The record for a database backup: no hash of its own.
    pub fn new_database_backup(path: &str) -> (r: File)
        ensures
            r.id == 0,
            r.path@ == path@,
            r.path_hash@ == Seq::<char>::empty(),
    {
        File { id: 0, path: String::from_str(path), path_hash: String::new() }
    }

    /// A backup record for `path`, filed under `path_hash`.
    pub fn new(path: &str, path_hash: &str) -> (r: File)
        ensures
            r.id == 0,
            r.path@ == path@,
            r.path_hash@ == path_hash@,
    {
        File { id: 0, path: String::from_str(path), path_hash: String::from_str(path_hash) }
    }
}

} // verus!
