//! The storage engine's behaviour, exercised end to end: insertion single
//! and bulk, fetches by id and in chunks, and both delete operations.

use video_history::database::{Database, FetchOrd};
use video_history::video::{VideoFormat, VideoInfo};

fn open_db() -> Database {
    let mut db = Database::new();
    db.apply_migrations();
    db
}

fn get_test_videos() -> Vec<VideoInfo> {
    vec![
        VideoInfo {
            video_id: "id1".to_string(),
            title: "Video 1".to_string(),
            author: "Author 1".to_string(),
            duration_seconds: "1".to_string(),
            thumbnail: None,
            video_formats: vec![
                VideoFormat {
                    container: "webm".to_string(),
                    width: "640".to_string(),
                    height: "480".to_string(),
                    fps: "30".to_string(),
                },
                VideoFormat {
                    container: "mp4".to_string(),
                    width: "1280".to_string(),
                    height: "720".to_string(),
                    fps: "60".to_string(),
                },
            ],
            audio_available: true,
        },
        VideoInfo {
            video_id: "id2".to_string(),
            title: "Video 2".to_string(),
            author: "Author 2".to_string(),
            duration_seconds: "2".to_string(),
            thumbnail: None,
            video_formats: vec![
                VideoFormat {
                    container: "webm".to_string(),
                    width: "640".to_string(),
                    height: "480".to_string(),
                    fps: "30".to_string(),
                },
                VideoFormat {
                    container: "mp4".to_string(),
                    width: "1280".to_string(),
                    height: "720".to_string(),
                    fps: "60".to_string(),
                },
            ],
            audio_available: false,
        },
        VideoInfo {
            video_id: "id3".to_string(),
            title: "Video 3".to_string(),
            author: "Author 3".to_string(),
            duration_seconds: "3".to_string(),
            thumbnail: None,
            video_formats: vec![
                VideoFormat {
                    container: "webm".to_string(),
                    width: "640".to_string(),
                    height: "480".to_string(),
                    fps: "30".to_string(),
                },
                VideoFormat {
                    container: "mp4".to_string(),
                    width: "1280".to_string(),
                    height: "720".to_string(),
                    fps: "60".to_string(),
                },
            ],
            audio_available: true,
        },
    ]
}

#[test]
fn init_database() {
    let db = open_db();

    let chunk = db.fetch_first_chunk_from_top();

    assert!(chunk.is_empty());
}

#[test]
fn run_migrations() {
    let mut db = Database::new();

    db.apply_migrations();
    db.apply_migrations();

    let test_video = &get_test_videos()[0];
    let id = db.insert_video_info(test_video);
    let db_video = db.fetch_one(id).unwrap();
    assert_eq!(db_video.get_info(), test_video);
}

#[test]
fn fetch_one() {
    let mut db = open_db();

    let test_video = &get_test_videos()[0];

    let id = db.insert_video_info(test_video);

    let db_video = db.fetch_one(id).unwrap();

    assert_eq!(db_video.get_info(), test_video);
}

#[test]
fn fetch_chunk_of() {
    let mut db = open_db();

    let test_videos = get_test_videos();

    db.insert_bulk_video_info(&test_videos);

    let db_videos = db.fetch_chunk_of(1, test_videos.len() as u32, FetchOrd::GEQandASC);

    assert_eq!(db_videos.len(), test_videos.len());
    for (i, db_video) in db_videos.iter().enumerate() {
        assert_eq!(db_video.get_info(), &test_videos[i]);
    }
}

#[test]
fn fetch_chunk() {
    let mut db = open_db();

    let test_videos = get_test_videos();

    db.insert_bulk_video_info(&test_videos);

    let db_videos = db.fetch_chunk(1, FetchOrd::GEQandASC);

    assert_eq!(db_videos.len(), test_videos.len());
    for (i, db_video) in db_videos.iter().enumerate() {
        assert_eq!(db_video.get_info(), &test_videos[i]);
    }
}

#[test]
fn fetch_first_chunk_from_top() {
    let mut db = open_db();

    let test_videos = get_test_videos();

    db.insert_bulk_video_info(&test_videos);

    let db_videos = db.fetch_first_chunk_from_top();

    assert_eq!(db_videos.len(), test_videos.len());
    for (i, db_video) in db_videos.iter().enumerate() {
        assert_eq!(db_video.get_info(), &test_videos[i]);
    }
}

#[test]
fn fetch_first_chunk_from_bottom() {
    let mut db = open_db();

    let mut test_videos = get_test_videos();

    db.insert_bulk_video_info(&test_videos);

    let db_videos = db.fetch_first_chunk_from_bottom();

    test_videos.reverse();

    assert_eq!(db_videos.len(), test_videos.len());
    for (i, db_video) in db_videos.iter().enumerate() {
        assert_eq!(db_video.get_info(), &test_videos[i]);
    }
}

#[test]
fn insert_one() {
    let mut db = open_db();

    let test_video = &get_test_videos()[0];
    let id = db.insert_video_info(test_video);

    // Check primary key id
    assert_eq!(id, 1);

    // Check video_info
    let db_video = db.fetch_one(id).unwrap();
    assert_eq!(db_video.get_info(), test_video);
}

#[test]
fn insert_two_delete_one() {
    let mut db = open_db();

    let test_videos = get_test_videos();

    let first_id = db.insert_video_info(&test_videos[0]);
    let second_id = db.insert_video_info(&test_videos[1]);

    // Check primary key ids
    assert_eq!(first_id, 1);
    assert_eq!(second_id, 2);

    // Check video_infos
    let first_video = db.fetch_one(first_id).unwrap();
    let second_video = db.fetch_one(second_id).unwrap();

    assert_eq!(&test_videos[0], first_video.get_info());
    assert_eq!(&test_videos[1], second_video.get_info());

    // Check successful deletion
    let rows_deleted = db.delete_video_info(first_id);
    assert_eq!(rows_deleted, 1);
}

#[test]
fn bulk_insert() {
    let mut db = open_db();

    let test_videos = get_test_videos();
    let ids = db.insert_bulk_video_info(&test_videos);

    // Check primary key ids
    assert_eq!(test_videos.len(), ids.len());
    for (i, id) in ids.iter().enumerate() {
        assert_eq!(*id as usize, i + 1);
    }

    // Fetch videos
    let mut db_videos = Vec::new();
    for id in ids {
        let managed_video = db.fetch_one(id).unwrap();
        db_videos.push(managed_video);
    }

    // Check video_infos
    for (i, vid) in db_videos.iter().enumerate() {
        assert_eq!(vid.get_info(), &test_videos[i])
    }
}

#[test]
fn delete_one_on_empty_db() {
    let mut db = open_db();

    let deletions = db.delete_video_info(1);

    assert_eq!(
        deletions, 0,
        "There should be no deletion because there is nothing in the database to delete"
    );
}

#[test]
fn insert_many_delete_nonexisting() {
    let mut db = open_db();

    let test_video = &get_test_videos()[0];

    for _ in 0..4 {
        db.insert_video_info(test_video);
    }

    let deletions = db.delete_video_info(5);

    assert_eq!(
        deletions, 0,
        "There should be no deletion because the id targeted is one more than the greatest id"
    );
}

#[test]
fn delete_all() {
    let mut db = open_db();

    let test_videos = get_test_videos();
    let ids = db.insert_bulk_video_info(&test_videos);

    let rows_deleted = db.delete_all();

    assert_eq!(
        ids.len() as u64,
        rows_deleted,
        "The number of deleted rows should be equal to the number of videos inserted"
    );
}
