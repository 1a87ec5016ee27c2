//! Cursor-based pagination scenarios: both directions, both bounds, short
//! pages, and starting ids that match no row.

use video_history::database::{Database, FetchOrd};
use video_history::video::{ManagedVideo, VideoInfo};

fn make_video(n: u32) -> VideoInfo {
    VideoInfo {
        video_id: format!("vid{}", n),
        title: format!("Title {}", n),
        author: format!("Author {}", n),
        duration_seconds: format!("{}", n),
        thumbnail: None,
        video_formats: Vec::new(),
        audio_available: n % 2 == 0,
    }
}

fn open_db_with_five_rows() -> Database {
    let mut db = Database::new();
    db.apply_migrations();
    for n in 1..=5 {
        db.insert_video_info(&make_video(n));
    }
    db
}

fn ids_of(chunk: &[ManagedVideo]) -> Vec<i32> {
    chunk.iter().map(ManagedVideo::get_id).collect()
}

#[test]
fn chunk_forward_from_first_id_returns_all_ascending() {
    let db = open_db_with_five_rows();
    let chunk = db.fetch_chunk_of(1, 5, FetchOrd::GEQandASC);
    assert_eq!(ids_of(&chunk), vec![1, 2, 3, 4, 5]);
}

#[test]
fn chunk_backward_from_first_id_returns_only_it() {
    let db = open_db_with_five_rows();
    let chunk = db.fetch_chunk_of(1, 5, FetchOrd::LEQandDESC);
    assert_eq!(ids_of(&chunk), vec![1]);
}

#[test]
fn chunk_forward_from_last_id_returns_only_it() {
    let db = open_db_with_five_rows();
    let chunk = db.fetch_chunk_of(5, 5, FetchOrd::GEQandASC);
    assert_eq!(ids_of(&chunk), vec![5]);
}

#[test]
fn chunk_backward_from_last_id_returns_all_descending() {
    let db = open_db_with_five_rows();
    let chunk = db.fetch_chunk_of(5, 5, FetchOrd::LEQandDESC);
    assert_eq!(ids_of(&chunk), vec![5, 4, 3, 2, 1]);
}

#[test]
fn chunk_forward_from_middle_id() {
    let db = open_db_with_five_rows();
    let chunk = db.fetch_chunk_of(3, 5, FetchOrd::GEQandASC);
    assert_eq!(ids_of(&chunk), vec![3, 4, 5]);
}

#[test]
fn chunk_backward_from_middle_id() {
    let db = open_db_with_five_rows();
    let chunk = db.fetch_chunk_of(3, 5, FetchOrd::LEQandDESC);
    assert_eq!(ids_of(&chunk), vec![3, 2, 1]);
}

#[test]
fn page_size_larger_than_qualifying_rows_gives_short_page() {
    let db = open_db_with_five_rows();

    let forward = db.fetch_chunk_of(4, 100, FetchOrd::GEQandASC);
    assert_eq!(ids_of(&forward), vec![4, 5]);

    let backward = db.fetch_chunk_of(2, 100, FetchOrd::LEQandDESC);
    assert_eq!(ids_of(&backward), vec![2, 1]);
}

#[test]
fn page_size_caps_the_chunk() {
    let db = open_db_with_five_rows();

    let forward = db.fetch_chunk_of(1, 2, FetchOrd::GEQandASC);
    assert_eq!(ids_of(&forward), vec![1, 2]);

    let backward = db.fetch_chunk_of(5, 2, FetchOrd::LEQandDESC);
    assert_eq!(ids_of(&backward), vec![5, 4]);
}

#[test]
fn starting_id_without_a_row_still_bounds_the_chunk() {
    let mut db = open_db_with_five_rows();
    assert_eq!(db.delete_video_info(3), 1);

    let forward = db.fetch_chunk_of(3, 5, FetchOrd::GEQandASC);
    assert_eq!(ids_of(&forward), vec![4, 5]);

    let backward = db.fetch_chunk_of(3, 5, FetchOrd::LEQandDESC);
    assert_eq!(ids_of(&backward), vec![2, 1]);
}

#[test]
fn zero_page_size_returns_nothing() {
    let db = open_db_with_five_rows();
    let chunk = db.fetch_chunk_of(1, 0, FetchOrd::GEQandASC);
    assert!(chunk.is_empty());
}

#[test]
fn default_page_size_is_twenty() {
    let mut db = Database::new();
    db.apply_migrations();
    for n in 1..=25 {
        db.insert_video_info(&make_video(n));
    }

    let from_top = db.fetch_first_chunk_from_top();
    let top_ids: Vec<i32> = (1..=20).collect();
    assert_eq!(ids_of(&from_top), top_ids);

    let from_bottom = db.fetch_first_chunk_from_bottom();
    let bottom_ids: Vec<i32> = (6..=25).rev().collect();
    assert_eq!(ids_of(&from_bottom), bottom_ids);
}

#[test]
fn from_bottom_on_small_history_is_whole_table_reversed() {
    let db = open_db_with_five_rows();
    let chunk = db.fetch_first_chunk_from_bottom();
    assert_eq!(ids_of(&chunk), vec![5, 4, 3, 2, 1]);
}
