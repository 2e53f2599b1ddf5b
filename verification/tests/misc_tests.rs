use auralist::backup::BackupFile;
use auralist::backup::File as BackupRecord;
use auralist::config::ConfigFile;

#[test]
fn config_lives_beside_the_binary() {
    let conf = ConfigFile::new();
    assert_eq!(conf.path(), "./conf.ini");
}

#[test]
fn backup_file_keeps_its_path() {
    let b = BackupFile::new("./auralist.sqlite3");
    assert_eq!(b.path, "./auralist.sqlite3");
}

#[test]
fn database_backup_record_has_no_hash() {
    let f = BackupRecord::new_database_backup("./auralist.sqlite3");
    assert_eq!(f.id, 0);
    assert_eq!(f.path, "./auralist.sqlite3");
    assert_eq!(f.path_hash, "");
}

#[test]
fn backup_record_is_filed_under_its_hash() {
    let f = BackupRecord::new("./files/a.mp3", "abc123");
    assert_eq!(f.id, 0);
    assert_eq!(f.path, "./files/a.mp3");
    assert_eq!(f.path_hash, "abc123");
}
