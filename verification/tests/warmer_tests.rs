use auralist::catalog::IndexedFiles;
use auralist::queue::IndexedSet;
use auralist::track::File;
use auralist::track::TagData;
use auralist::warmer::WarmOutcome;
use auralist::warmer::warm_step;

fn bare(id: u32) -> File {
    File {
        id,
        path: format!("./files/{}.mp3", id),
        file_name: format!("{}.mp3", id),
        file_ext: "mp3".to_string(),
        file_size: 100,
        file_modified: 50,
        title: String::new(),
        artist: String::new(),
        album: String::new(),
        duration: 0,
        indexed_at: 0,
        accessed_at: 0,
        parse_fail: false,
    }
}

fn tags(duration: u64) -> TagData {
    TagData {
        duration,
        title: "Title".to_string(),
        artist: "Artist".to_string(),
        album: "Album".to_string(),
    }
}

#[test]
fn a_successful_warm_fills_the_record() {
    let mut cat = IndexedFiles::new();
    let mut indexed = IndexedSet::new();
    cat.upsert(bare(1));
    let outcome = warm_step(&mut cat, &mut indexed, 1, Some(tags(200)), 500);
    match outcome {
        WarmOutcome::Warmed(rec) => {
            assert_eq!(rec.duration, 200);
            assert_eq!(rec.title, "Title");
            assert_eq!(rec.indexed_at, 500);
            assert!(!rec.parse_fail);
        }
        _ => panic!("expected a warmed record"),
    }
    let stored = cat.get(1).unwrap();
    assert_eq!(stored.duration, 200);
    assert_eq!(stored.artist, "Artist");
    assert!(indexed.contains(1));
    assert!(cat.tunes().contains(&1));
    assert!(cat.all().contains(&1));
}

#[test]
fn a_long_extraction_moves_the_record_to_mixes() {
    let mut cat = IndexedFiles::new();
    let mut indexed = IndexedSet::new();
    cat.upsert(bare(1));
    assert!(cat.tunes().contains(&1));
    warm_step(&mut cat, &mut indexed, 1, Some(tags(5000)), 500);
    assert!(!cat.tunes().contains(&1));
    assert!(cat.mixes().contains(&1));
}

#[test]
fn a_failed_warm_leaves_every_category() {
    let mut cat = IndexedFiles::new();
    let mut indexed = IndexedSet::new();
    cat.upsert(bare(1));
    assert!(cat.all().contains(&1));
    let outcome = warm_step(&mut cat, &mut indexed, 1, None, 500);
    assert!(matches!(outcome, WarmOutcome::Failed));
    assert!(!cat.all().contains(&1));
    assert!(!cat.tunes().contains(&1));
    assert!(!cat.mixes().contains(&1));
    assert!(cat.get(1).unwrap().parse_fail);
    assert!(!indexed.contains(1));
}

#[test]
fn an_overlong_extraction_is_kept_but_uncategorised() {
    let mut cat = IndexedFiles::new();
    let mut indexed = IndexedSet::new();
    cat.upsert(bare(1));
    let outcome = warm_step(&mut cat, &mut indexed, 1, Some(tags(20_000)), 500);
    assert!(matches!(outcome, WarmOutcome::Warmed(_)));
    assert!(!cat.all().contains(&1));
    assert_eq!(cat.get(1).unwrap().duration, 20_000);
    assert!(indexed.contains(1));
}

#[test]
fn an_unknown_id_warms_nothing() {
    let mut cat = IndexedFiles::new();
    let mut indexed = IndexedSet::new();
    let outcome = warm_step(&mut cat, &mut indexed, 9, Some(tags(100)), 500);
    assert!(matches!(outcome, WarmOutcome::Missing));
    assert_eq!(cat.len(), 0);
    assert!(!indexed.contains(9));
}
