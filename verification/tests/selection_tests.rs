use auralist::catalog::IndexedFiles;
use auralist::plays::PlayCache;
use auralist::selection::generate_random_response;
use auralist::selection::random_hash;
use auralist::track::File;

fn record(id: u32, duration: u64) -> File {
    File {
        id,
        path: format!("./files/{}.mp3", id),
        file_name: format!("{}.mp3", id),
        file_ext: "mp3".to_string(),
        file_size: 100,
        file_modified: 50,
        title: format!("title-{}", id),
        artist: "artist".to_string(),
        album: "album".to_string(),
        duration,
        indexed_at: 1,
        accessed_at: 0,
        parse_fail: false,
    }
}

#[test]
fn the_only_candidate_is_always_drawn() {
    let mut cat = IndexedFiles::new();
    cat.upsert(record(1, 100));
    assert_eq!(random_hash("tunes", &cat), Some(1));
    assert_eq!(random_hash("all", &cat), Some(1));
}

#[test]
fn empty_category_falls_back_to_the_all_pool() {
    let mut cat = IndexedFiles::new();
    cat.upsert(record(1, 100));
    assert_eq!(random_hash("mixes", &cat), Some(1));
    assert_eq!(random_hash("anything-else", &cat), Some(1));
}

#[test]
fn an_empty_catalog_draws_nothing() {
    let cat = IndexedFiles::new();
    assert_eq!(random_hash("mixes", &cat), None);
    assert_eq!(random_hash("tunes", &cat), None);
    assert_eq!(random_hash("all", &cat), None);
}

#[test]
fn empty_category_scenario_is_a_not_found_response() {
    let cat = IndexedFiles::new();
    let mut plays = PlayCache::new();
    let drawn = random_hash("mixes", &cat);
    let response = generate_random_response(drawn, &cat, &mut plays, 1000);
    assert_eq!(response.status, 404);
    assert_eq!(response.count, 0);
    assert!(response.data.is_empty());
    assert_eq!(plays.len(), 0);
}

#[test]
fn a_hit_issues_a_resolvable_token() {
    let mut cat = IndexedFiles::new();
    cat.upsert(record(1, 100));
    let mut plays = PlayCache::new();
    let drawn = random_hash("tunes", &cat);
    let response = generate_random_response(drawn, &cat, &mut plays, 1000);
    assert_eq!(response.status, 200);
    assert_eq!(response.message, "OK");
    assert_eq!(response.count, 1);
    assert_eq!(response.data.len(), 1);

    let hashed = &response.data[0];
    assert_eq!(hashed.path.len(), 36);
    assert_eq!(hashed.title, "title-1");
    assert_eq!(hashed.ext, "mp3");
    assert_eq!(hashed.file, "1.mp3");

    let snapshot = plays.resolve(&hashed.path).unwrap();
    assert_eq!(snapshot.path, "./files/1.mp3");
    assert_eq!(snapshot.accessed_at, 1000);
}

#[test]
fn an_unknown_draw_is_a_not_found_response() {
    let mut cat = IndexedFiles::new();
    cat.upsert(record(1, 100));
    let mut plays = PlayCache::new();
    let response = generate_random_response(Some(999), &cat, &mut plays, 1000);
    assert_eq!(response.status, 404);
    assert_eq!(response.message, "Not Found");
    assert_eq!(plays.len(), 0);
}

#[test]
fn modes_draw_from_their_own_pools() {
    let mut cat = IndexedFiles::new();
    cat.upsert(record(1, 100));
    cat.upsert(record(2, 5000));
    assert_eq!(random_hash("tunes", &cat), Some(1));
    assert_eq!(random_hash("mixes", &cat), Some(2));
    let all = random_hash("all", &cat).unwrap();
    assert!(all == 1 || all == 2);
}
