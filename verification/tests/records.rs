//! Record round trips, not-found outcomes, id assignment, and the record
//! model's equality.

use video_history::database::{Database, DatabaseError, FetchOrd};
use video_history::video::{VideoFormat, VideoInfo};

fn open_db() -> Database {
    let mut db = Database::new();
    db.apply_migrations();
    db
}

fn sample_video() -> VideoInfo {
    VideoInfo {
        video_id: "abc123".to_string(),
        title: "A title".to_string(),
        author: "An author".to_string(),
        duration_seconds: "300".to_string(),
        thumbnail: Some("https://example.invalid/thumb.png".to_string()),
        video_formats: vec![
            VideoFormat {
                container: "webm".to_string(),
                width: "1920".to_string(),
                height: "1080".to_string(),
                fps: "24".to_string(),
            },
            VideoFormat {
                container: "mp4".to_string(),
                width: "640".to_string(),
                height: "N/A".to_string(),
                fps: "unknown".to_string(),
            },
        ],
        audio_available: true,
    }
}

#[test]
fn round_trip_preserves_thumbnail_and_variant_order() {
    let mut db = open_db();
    let video = sample_video();

    let id = db.insert_video_info(&video);
    let fetched = db.fetch_one(id).unwrap();

    assert_eq!(fetched.get_id(), id);
    assert_eq!(fetched.get_info(), &video);
    assert_eq!(fetched.get_info().video_formats.len(), 2);
    assert_eq!(fetched.get_info().video_formats[0].container, "webm");
    assert_eq!(fetched.get_info().video_formats[1].height, "N/A");
}

#[test]
fn round_trip_of_entry_without_variants() {
    let mut db = open_db();
    let video = VideoInfo {
        video_id: "bare".to_string(),
        title: "No variants".to_string(),
        author: "Nobody".to_string(),
        duration_seconds: "0".to_string(),
        thumbnail: None,
        video_formats: Vec::new(),
        audio_available: false,
    };

    let id = db.insert_video_info(&video);
    let fetched = db.fetch_one(id).unwrap();

    assert_eq!(fetched.get_info(), &video);
    assert!(fetched.get_info().video_formats.is_empty());
}

#[test]
fn fetch_one_of_missing_id_reports_not_found() {
    let db = open_db();
    let outcome = db.fetch_one(42);
    assert_eq!(outcome.unwrap_err(), DatabaseError::NotFound);
}

#[test]
fn deleted_entry_becomes_unfetchable() {
    let mut db = open_db();
    let id = db.insert_video_info(&sample_video());

    assert!(db.fetch_one(id).is_ok());
    assert_eq!(db.delete_video_info(id), 1);
    assert_eq!(db.fetch_one(id).unwrap_err(), DatabaseError::NotFound);
}

#[test]
fn second_delete_of_same_id_is_a_no_op() {
    let mut db = open_db();
    let id = db.insert_video_info(&sample_video());

    assert_eq!(db.delete_video_info(id), 1);
    assert_eq!(db.delete_video_info(id), 0);
}

#[test]
fn ids_are_never_reused_after_a_delete() {
    let mut db = open_db();
    let first = db.insert_video_info(&sample_video());
    assert_eq!(db.delete_video_info(first), 1);

    let second = db.insert_video_info(&sample_video());
    assert_ne!(first, second);
    assert_eq!(second, 2);
}

#[test]
fn bulk_insert_of_empty_batch_returns_no_ids() {
    let mut db = open_db();
    let ids = db.insert_bulk_video_info(&Vec::new());
    assert!(ids.is_empty());

    assert!(db.fetch_first_chunk_from_top().is_empty());
}

#[test]
fn delete_all_counts_only_rows_present_at_the_call() {
    let mut db = open_db();
    db.insert_video_info(&sample_video());
    db.insert_video_info(&sample_video());
    assert_eq!(db.delete_video_info(1), 1);

    assert_eq!(db.delete_all(), 1);
    assert_eq!(db.delete_all(), 0);
}

#[test]
fn delete_all_keeps_later_inserts_working() {
    let mut db = open_db();
    db.insert_video_info(&sample_video());
    db.insert_video_info(&sample_video());
    assert_eq!(db.delete_all(), 2);

    let id = db.insert_video_info(&sample_video());
    assert_eq!(id, 3);
    assert!(db.fetch_one(id).is_ok());
    let chunk = db.fetch_chunk(1, FetchOrd::GEQandASC);
    assert_eq!(chunk.len(), 1);
}

#[test]
fn copies_equal_their_originals() {
    let video = sample_video();
    let copy = video_history::video::copy_info(&video);
    assert_eq!(copy, video);

    let format_copy = video_history::video::copy_format(&video.video_formats[0]);
    assert_eq!(format_copy, video.video_formats[0]);

    let thumb_copy = video_history::video::copy_thumbnail(&video.thumbnail);
    assert_eq!(thumb_copy, video.thumbnail);
}

#[test]
fn video_info_equality_is_field_for_field() {
    let a = sample_video();
    let mut b = sample_video();
    assert_eq!(a, b);

    b.title = "Another title".to_string();
    assert_ne!(a, b);

    let mut c = sample_video();
    c.video_formats[1].fps = "60".to_string();
    assert_ne!(a, c);

    let mut d = sample_video();
    d.thumbnail = None;
    assert_ne!(a, d);

    let mut e = sample_video();
    e.video_formats.pop();
    assert_ne!(a, e);
}
