use room237::error::Error;
use room237::metadata::{is_thumb_failed, load_thumb_version, write_thumb_version, AlbumMeta};
use room237::settings::ThumbnailSettings;
use room237::thumb::{
    ensure_thumb, generate_image_thumbnail, generate_video_thumbnail, lock_held, lock_taken,
    thumb_generated, thumb_is_fresh, thumb_lock_path, thumb_original, thumb_path, LockStep,
    ThumbStep, WriterStep,
};

fn settings() -> ThumbnailSettings {
    ThumbnailSettings {
        max_dim: 320,
        image_webp_quality: 75,
        image_webp_compression_level: 4,
        video_seek_millis: 1500,
        lock_poll_ms: 50,
        lock_wait_ms: 30_000,
        thumb_version: "t1".to_string(),
    }
}

#[test]
fn thumbnail_lies_in_the_thumb_directory() {
    assert_eq!(
        thumb_path("/root/a/x.jpg", "/root/a/.room237-thumb"),
        Ok("/root/a/.room237-thumb/x.jpg.webp".to_string())
    );
    assert_eq!(thumb_path("/root/a/..", "/t"), Err(Error::InvalidFilename));
    assert_eq!(thumb_path("", "/t"), Err(Error::InvalidFilename));
    assert_eq!(thumb_lock_path("/t/x.jpg.webp"), "/t/x.jpg.webp.lock");
}

#[test]
fn freshness_needs_file_time_and_version() {
    assert!(thumb_is_fresh(Some(10), Some(10), Some("t1"), "t1"));
    assert!(thumb_is_fresh(Some(11), Some(10), Some("t1"), "t1"));
    assert!(!thumb_is_fresh(Some(9), Some(10), Some("t1"), "t1"));
    assert!(!thumb_is_fresh(None, Some(10), Some("t1"), "t1"));
    assert!(!thumb_is_fresh(Some(10), None, Some("t1"), "t1"));
    assert!(!thumb_is_fresh(Some(10), Some(10), Some("t0"), "t1"));
    assert!(!thumb_is_fresh(Some(10), Some(10), None, "t1"));
}

#[test]
fn image_command_scales_and_encodes_webp() {
    assert_eq!(
        generate_image_thumbnail("/a/x.jpg", "/t/x.jpg.webp", &settings()),
        vec![
            "-i",
            "/a/x.jpg",
            "-y",
            "-vf",
            "scale=min(iw\\,320):min(ih\\,320):force_original_aspect_ratio=decrease",
            "-c:v",
            "libwebp",
            "-q:v",
            "75",
            "-compression_level",
            "4",
            "/t/x.jpg.webp",
        ]
    );
}

#[test]
fn video_command_seeks_and_takes_one_frame() {
    assert_eq!(
        generate_video_thumbnail("/a/x.mp4", "/t/x.mp4.webp", &settings()),
        vec![
            "-i",
            "/a/x.mp4",
            "-ss",
            "1.500",
            "-y",
            "-frames:v",
            "1",
            "-vf",
            "scale=min(iw\\,320):min(ih\\,320):force_original_aspect_ratio=decrease",
            "/t/x.mp4.webp",
        ]
    );
    let exact = ThumbnailSettings { video_seek_millis: 12007, ..settings() };
    assert_eq!(generate_video_thumbnail("a.mp4", "b", &exact)[3], "12.007");
    let zero = ThumbnailSettings { video_seek_millis: 0, ..settings() };
    assert_eq!(generate_video_thumbnail("a.mp4", "b", &zero)[3], "0.000");
}

#[test]
fn fresh_thumbnail_needs_no_work() {
    let mut album = AlbumMeta::new();
    write_thumb_version(&mut album, "x.jpg", "t1");
    let step = ensure_thumb(&album, "/a/x.jpg", "x.jpg", "/a/.room237-thumb", Some(5), Some(5), &settings());
    assert_eq!(step, Ok(ThumbStep::Fresh("/a/.room237-thumb/x.jpg.webp".to_string())));
}

#[test]
fn stale_thumbnail_is_made_under_its_lock() {
    let album = AlbumMeta::new();
    let step = ensure_thumb(&album, "/a/x.jpg", "x.jpg", "/t", Some(5), Some(5), &settings());
    assert_eq!(
        step,
        Ok(ThumbStep::Lock {
            thumb: "/t/x.jpg.webp".to_string(),
            lock: "/t/x.jpg.webp.lock".to_string()
        })
    );
    assert_eq!(
        lock_taken(&album, "/a/x.jpg", "x.jpg", "/t/x.jpg.webp", Some(5), Some(5), &settings()),
        WriterStep::Generate(Some(generate_image_thumbnail("/a/x.jpg", "/t/x.jpg.webp", &settings())))
    );
    assert_eq!(
        lock_taken(&album, "/a/x.mov", "x.mov", "/t/x.mov.webp", None, Some(5), &settings()),
        WriterStep::Generate(Some(generate_video_thumbnail("/a/x.mov", "/t/x.mov.webp", &settings())))
    );
    assert_eq!(
        lock_taken(&album, "/a/x.txt", "x.txt", "/t/x.txt.webp", None, Some(5), &settings()),
        WriterStep::Generate(None)
    );
    assert_eq!(
        ensure_thumb(&album, "/a/..", "..", "/t", None, None, &settings()),
        Err(Error::InvalidFilename)
    );
}

#[test]
fn second_writer_makes_nothing() {
    // two writers found the thumbnail stale; the first made it and released
    // the lock, the second takes the lock only then
    let mut album = AlbumMeta::new();
    let first = lock_taken(&album, "/a/x.jpg", "x.jpg", "/t/x.jpg.webp", None, Some(5), &settings());
    assert!(matches!(first, WriterStep::Generate(Some(_))));
    thumb_generated(&mut album, "x.jpg", true, &settings());
    let second = lock_taken(&album, "/a/x.jpg", "x.jpg", "/t/x.jpg.webp", Some(6), Some(5), &settings());
    assert_eq!(second, WriterStep::Fresh);
}

#[test]
fn crash_resilient_thumb() {
    // a lock is held by no one: the writer sleeps and tries again until
    // the wait is over, takes the lock over, and makes the thumbnail
    let mut album = AlbumMeta::new();
    let step = ensure_thumb(&album, "/a/x.jpg", "x.jpg", "/t", None, Some(5), &settings());
    assert_eq!(
        step,
        Ok(ThumbStep::Lock {
            thumb: "/t/x.jpg.webp".to_string(),
            lock: "/t/x.jpg.webp.lock".to_string()
        })
    );
    assert_eq!(lock_held(&album, "x.jpg", None, Some(5), 0, &settings()), LockStep::Retry(50));
    assert_eq!(lock_held(&album, "x.jpg", None, Some(5), 29_999, &settings()), LockStep::Retry(50));
    assert_eq!(lock_held(&album, "x.jpg", None, Some(5), 30_000, &settings()), LockStep::TakeOver);
    assert_eq!(lock_held(&album, "x.jpg", None, Some(5), u64::MAX, &settings()), LockStep::TakeOver);
    let made = lock_taken(&album, "/a/x.jpg", "x.jpg", "/t/x.jpg.webp", None, Some(5), &settings());
    assert!(matches!(made, WriterStep::Generate(Some(_))));
    thumb_generated(&mut album, "x.jpg", true, &settings());
    assert!(!is_thumb_failed(&album, "x.jpg"));
    let step = ensure_thumb(&album, "/a/x.jpg", "x.jpg", "/t", Some(6), Some(5), &settings());
    assert_eq!(step, Ok(ThumbStep::Fresh("/t/x.jpg.webp".to_string())));
}

#[test]
fn a_held_lock_is_waited_for_while_its_holder_may_live() {
    let mut album = AlbumMeta::new();
    assert_eq!(lock_held(&album, "x.jpg", None, Some(5), 100, &settings()), LockStep::Retry(50));
    // a thumbnail without a recorded version is not fresh
    assert_eq!(lock_held(&album, "x.jpg", Some(6), Some(5), 100, &settings()), LockStep::Retry(50));
    thumb_generated(&mut album, "x.jpg", true, &settings());
    assert_eq!(lock_held(&album, "x.jpg", Some(6), Some(5), 100, &settings()), LockStep::Fresh);
    // freshness counts before the time waited
    assert_eq!(lock_held(&album, "x.jpg", Some(6), Some(5), 40_000, &settings()), LockStep::Fresh);
    let never = ThumbnailSettings { lock_wait_ms: 0, ..settings() };
    assert_eq!(lock_held(&AlbumMeta::new(), "x.jpg", None, Some(5), 0, &never), LockStep::TakeOver);
}

#[test]
fn outcome_of_generation_is_recorded() {
    let mut album = AlbumMeta::new();
    thumb_generated(&mut album, "x.jpg", false, &settings());
    assert!(is_thumb_failed(&album, "x.jpg"));
    assert_eq!(load_thumb_version(&album, "x.jpg"), None);
    thumb_generated(&mut album, "x.jpg", true, &settings());
    assert!(!is_thumb_failed(&album, "x.jpg"));
    assert_eq!(load_thumb_version(&album, "x.jpg"), Some("t1".to_string()));
    let step = ensure_thumb(&album, "/a/x.jpg", "x.jpg", "/t", Some(9), Some(5), &settings());
    assert_eq!(step, Ok(ThumbStep::Fresh("/t/x.jpg.webp".to_string())));
}

#[test]
fn thumbnail_names_its_image() {
    assert_eq!(thumb_original("/a", "x.jpg.webp"), Some("/a/x.jpg".to_string()));
    assert_eq!(thumb_original("/a", "x.PNG.WEBP"), Some("/a/x.PNG".to_string()));
    assert_eq!(thumb_original("/a", "x.mp4.webp"), None);
    assert_eq!(thumb_original("/a", "x.jpg.webp.lock"), None);
    assert_eq!(thumb_original("/a", "x.jpg"), None);
    assert_eq!(thumb_original("/a", "webp"), None);
}
