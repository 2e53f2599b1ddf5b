use auralist::track::File;
use auralist::track::TagData;

#[test]
fn id_is_deterministic_across_computations() {
    let a = File::new_empty_file_from_path("./files/song.mp3");
    let b = File::new_empty_file_from_path("./files/song.mp3");
    assert_eq!(a.id, b.id);
}

#[test]
fn path_parsing_fills_name_and_extension() {
    let f = File::new_empty_file_from_path("./files/deep/dir/song.tar.mp3");
    assert_eq!(f.path, "./files/deep/dir/song.tar.mp3");
    assert_eq!(f.file_name, "song.tar.mp3");
    assert_eq!(f.file_ext, "mp3");
    assert_eq!(f.duration, 0);
    assert!(!f.parse_fail);
}

#[test]
fn hidden_files_and_bare_names_have_no_extension() {
    assert_eq!(File::new_empty_file_from_path("./dir/.bashrc").file_ext, "");
    assert_eq!(File::new_empty_file_from_path("noext").file_ext, "");
    assert_eq!(File::new_empty_file_from_path("noext").file_name, "noext");
}

#[test]
fn populate_from_path_records_stat_data() {
    let mut f = File::new_empty_file_from_path("./files/a.mp3");
    f.title = "old".to_string();
    f.duration = 5;
    f.populate_from_path(1234, 99);
    assert_eq!(f.file_size, 1234);
    assert_eq!(f.file_modified, 99);
    assert_eq!(f.title, "");
    assert_eq!(f.duration, 0);
}

#[test]
fn extraction_success_fills_tags() {
    let mut f = File::new_empty_file_from_path("./files/a.mp3");
    f.populate_lofty(Some(TagData {
        duration: 432,
        title: "Title".to_string(),
        artist: "Artist".to_string(),
        album: "Album".to_string(),
    }));
    assert_eq!(f.duration, 432);
    assert_eq!(f.title, "Title");
    assert_eq!(f.artist, "Artist");
    assert_eq!(f.album, "Album");
    assert!(!f.parse_fail);
}

#[test]
fn extraction_failure_only_sets_the_flag() {
    let mut f = File::new_empty_file_from_path("./files/a.mp3");
    f.populate_lofty(None);
    assert!(f.parse_fail);
    assert_eq!(f.duration, 0);
    assert_eq!(f.path, "./files/a.mp3");
}

#[test]
fn fill_tags_copies_all_three() {
    let mut f = File::new_empty_file_from_path("./files/a.mp3");
    f.fill_tags("t".to_string(), "a".to_string(), "b".to_string());
    assert_eq!(f.title, "t");
    assert_eq!(f.artist, "a");
    assert_eq!(f.album, "b");
}

#[test]
fn unique_id_replaces_the_path_with_a_token() {
    let mut f = File::new_empty_file_from_path("./files/a.mp3");
    let token = f.get_unique_id(777);
    assert_eq!(token.len(), 36);
    assert_eq!(f.path, token);
    assert_eq!(f.accessed_at, 777);
}

#[test]
fn to_response_issues_a_token_and_copies_display_fields() {
    let mut f = File::new_empty_file_from_path("./files/a.mp3");
    f.fill_tags("T".to_string(), "A".to_string(), "B".to_string());
    let hashed = f.to_response(5);
    assert_eq!(hashed.path.len(), 36);
    assert_ne!(hashed.path, "./files/a.mp3");
    assert_eq!(hashed.ext, "mp3");
    assert_eq!(hashed.title, "T");
    assert_eq!(hashed.artist, "A");
    assert_eq!(hashed.album, "B");
    assert_eq!(hashed.file, "a.mp3");
}

#[test]
fn two_tokens_differ() {
    let mut f = File::new_empty_file_from_path("./files/a.mp3");
    let t1 = f.get_unique_id(1);
    let t2 = f.get_unique_id(2);
    assert_ne!(t1, t2);
}
