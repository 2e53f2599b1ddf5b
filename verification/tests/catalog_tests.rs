use auralist::catalog::DURATION_MAX_SECS;
use auralist::catalog::IndexedFiles;
use auralist::catalog::MIX_THRESHOLD_SECS;
use auralist::catalog::synchronous_file_scan;
use auralist::track::File;

fn record(id: u32, duration: u64, parse_fail: bool) -> File {
    File {
        id,
        path: format!("./files/{}.mp3", id),
        file_name: format!("{}.mp3", id),
        file_ext: "mp3".to_string(),
        file_size: 100,
        file_modified: 50,
        title: "t".to_string(),
        artist: "a".to_string(),
        album: "b".to_string(),
        duration,
        indexed_at: 1,
        accessed_at: 0,
        parse_fail,
    }
}

fn in_list(list: &Vec<u32>, id: u32) -> bool {
    list.contains(&id)
}

#[test]
fn short_track_is_a_tune() {
    let mut cat = IndexedFiles::new();
    cat.upsert(record(1, 200, false));
    assert!(in_list(cat.tunes(), 1));
    assert!(!in_list(cat.mixes(), 1));
    assert!(in_list(cat.all(), 1));
}

#[test]
fn long_track_is_a_mix() {
    let mut cat = IndexedFiles::new();
    cat.upsert(record(2, MIX_THRESHOLD_SECS + 1, false));
    assert!(in_list(cat.mixes(), 2));
    assert!(!in_list(cat.tunes(), 2));
    assert!(in_list(cat.all(), 2));
}

#[test]
fn threshold_track_is_still_a_tune() {
    let mut cat = IndexedFiles::new();
    cat.upsert(record(3, MIX_THRESHOLD_SECS, false));
    assert!(in_list(cat.tunes(), 3));
    assert!(!in_list(cat.mixes(), 3));
}

#[test]
fn parse_failed_track_is_in_no_category() {
    let mut cat = IndexedFiles::new();
    cat.upsert(record(4, 200, true));
    assert!(!in_list(cat.tunes(), 4));
    assert!(!in_list(cat.mixes(), 4));
    assert!(!in_list(cat.all(), 4));
    assert!(cat.get(4).is_some());
}

#[test]
fn overlong_track_is_in_no_category() {
    let mut cat = IndexedFiles::new();
    cat.upsert(record(5, DURATION_MAX_SECS + 1, false));
    assert!(!in_list(cat.tunes(), 5));
    assert!(!in_list(cat.mixes(), 5));
    assert!(!in_list(cat.all(), 5));
    assert!(cat.get(5).is_some());
}

#[test]
fn longest_allowed_track_is_a_mix() {
    let mut cat = IndexedFiles::new();
    cat.upsert(record(6, DURATION_MAX_SECS, false));
    assert!(in_list(cat.mixes(), 6));
    assert!(in_list(cat.all(), 6));
}

#[test]
fn upsert_recomputes_membership() {
    let mut cat = IndexedFiles::new();
    cat.upsert(record(7, 200, false));
    assert!(in_list(cat.tunes(), 7));
    cat.upsert(record(7, MIX_THRESHOLD_SECS + 100, false));
    assert!(!in_list(cat.tunes(), 7));
    assert!(in_list(cat.mixes(), 7));
    assert_eq!(cat.len(), 1);
    cat.upsert(record(7, 200, true));
    assert!(!in_list(cat.mixes(), 7));
    assert!(!in_list(cat.all(), 7));
    assert_eq!(cat.len(), 1);
}

#[test]
fn get_returns_the_stored_record() {
    let mut cat = IndexedFiles::new();
    cat.upsert(record(8, 321, false));
    let f = cat.get(8).unwrap();
    assert_eq!(f.id, 8);
    assert_eq!(f.duration, 321);
    assert_eq!(f.file_name, "8.mp3");
    assert!(cat.get(9).is_none());
}

#[test]
fn scan_partitions_every_record() {
    let files = vec![
        record(1, 100, false),
        record(2, 23 * 60 + 1, false),
        record(3, 9999, true),
    ];
    let cat = synchronous_file_scan(files);
    assert_eq!(cat.len(), 3);
    assert!(in_list(cat.tunes(), 1));
    assert!(in_list(cat.mixes(), 2));
    assert!(!in_list(cat.all(), 3));
    assert_eq!(cat.all().len(), 2);
}

#[test]
fn scan_keeps_the_last_record_per_id() {
    let files = vec![record(1, 100, false), record(1, 2000, false)];
    let cat = synchronous_file_scan(files);
    assert_eq!(cat.len(), 1);
    assert!(in_list(cat.mixes(), 1));
    assert_eq!(cat.get(1).unwrap().duration, 2000);
}
