use room237::hash_queue::HashQueue;
use room237::duplicates::{is_hash_failed_in_meta, load_cached_bits_from_meta};
use room237::hash_work::{
    album_entry_needs_hash, album_paths, hash_entry_ready, hashes_needed, wait_for_album_hashes,
    HashTaskStep, WaitStep,
};
use room237::metadata::{
    mark_hash_failed, mark_meta_failed, write_album_file_hash, AlbumMeta, FileMetaEntry,
};
use room237::preload::{
    drop_preload_for_path, enqueue_preload, get_preload_progress, is_preloading, percent_of,
    set_allow_open, DriverStep, PoolEnd, PreloadStage, Scheduler, StageProgress, TaskOutcome,
    ThumbTask,
};
use room237::queue::{TaskPriority, WorkQueue};
use room237::settings::{HashConfig, PreloadSettings};

const INTERVAL: u64 = 100;

fn cfg() -> HashConfig {
    HashConfig {
        bits: 64,
        hash_version: "v1".to_string(),
        effective_threshold: 5,
        use_thumbnails_first: true,
    }
}

fn limits() -> PreloadSettings {
    PreloadSettings {
        thumb_workers: 2,
        meta_workers: 2,
        hash_workers: 2,
        progress_emit_ms: INTERVAL,
        thumb_hash_queue_delay_ms: 0,
        thumb_hash_retry_on_thumb_change: true,
        hash_stall_ms: 20_000,
        hash_stuck_ms: 30_000,
    }
}

fn paths(list: &[&str]) -> Vec<String> {
    list.iter().map(|s| s.to_string()).collect()
}

fn queued<T>(q: &WorkQueue<T>) -> Vec<&str> {
    q.queue.iter().map(|t| t.0.as_str()).collect()
}

#[test]
fn stage_numbers() {
    for (stage, n) in [
        (PreloadStage::Conversion, 0u8),
        (PreloadStage::Thumbnails, 1),
        (PreloadStage::Metadata, 2),
        (PreloadStage::Idle, 3),
    ] {
        assert_eq!(stage.as_u8(), n);
        assert_eq!(PreloadStage::from_u8(n), stage);
    }
    assert_eq!(PreloadStage::from_u8(200), PreloadStage::Idle);
    assert_eq!(TaskPriority::default(), TaskPriority::Low);
}

#[test]
fn high_priority_goes_to_the_front() {
    let mut q: WorkQueue<u8> = WorkQueue::new();
    assert!(q.enqueue("/r/a".to_string(), 1, TaskPriority::Low));
    assert!(q.enqueue("/r/b".to_string(), 2, TaskPriority::Low));
    assert!(q.enqueue("/r/c".to_string(), 3, TaskPriority::High));
    assert!(!q.enqueue("/r/a".to_string(), 4, TaskPriority::High));
    assert_eq!(queued(&q), vec!["/r/c", "/r/a", "/r/b"]);
    assert_eq!(q.outstanding(), 3);
    assert_eq!(q.next_task(), Some(("/r/c".to_string(), 3)));
    assert!(q.is_tracked("/r/c"));
    assert!(!q.enqueue("/r/c".to_string(), 5, TaskPriority::Low));
    assert_eq!(q.outstanding(), 3);
    assert!(!q.mark_done("/r/c"));
    assert!(!q.is_tracked("/r/c"));
    assert!(q.enqueue("/r/c".to_string(), 6, TaskPriority::Low));
}

#[test]
fn queue_runs_dry() {
    let mut q: WorkQueue<()> = WorkQueue::new();
    assert!(!q.has_work());
    assert_eq!(q.next_task(), None);
    q.enqueue("/r/a".to_string(), (), TaskPriority::Low);
    assert!(q.has_work());
    assert!(q.awaits_any(&paths(&["/r/x", "/r/a"])));
    assert!(!q.awaits_any(&paths(&["/r/x"])));
    q.next_task();
    assert!(q.has_work());
    assert!(q.awaits_any(&paths(&["/r/a"])));
    assert!(q.mark_done("/r/a"));
    assert!(!q.has_work());
    assert!(q.mark_done("/r/never"));
}

#[test]
fn trimming_drops_queued_work_below_a_prefix() {
    let mut q: WorkQueue<()> = WorkQueue::new();
    for p in ["/r/a/1", "/r/ab/2", "/r/a/3", "/r/b/4", "/r/a"] {
        q.enqueue(p.to_string(), (), TaskPriority::Low);
    }
    q.next_task();
    assert_eq!(q.trim_prefix("/r/a"), 2);
    assert_eq!(queued(&q), vec!["/r/ab/2", "/r/b/4"]);
    assert!(q.is_tracked("/r/a/1"));
    assert_eq!(q.trim_prefix("/r/a"), 0);
    q.clear();
    assert!(!q.has_work());
    assert_eq!(q.outstanding(), 0);
}

#[test]
fn hash_queue_counts_what_is_done() {
    let mut q = HashQueue::new();
    assert_eq!(q.totals(), (0, 0));
    assert_eq!(q.enqueue_many(&paths(&["/r/a", "/r/b", "/r/a"]), TaskPriority::Low), (true, 0, 2));
    assert_eq!(q.enqueue_many(&paths(&["/r/a"]), TaskPriority::High), (false, 0, 2));
    assert_eq!(q.enqueue_many(&paths(&["/r/c", "/r/d"]), TaskPriority::High), (true, 0, 4));
    assert_eq!(queued(&q.work), vec!["/r/d", "/r/c", "/r/a", "/r/b"]);
    assert_eq!(q.next_task(10), Some("/r/d".to_string()));
    assert_eq!(q.mark_done("/r/d"), (1, 4, false));
    // the queue is idle after the trim: the count starts again
    assert_eq!(q.trim_prefix("/r"), Some((0, 0)));
    assert_eq!(q.trim_prefix("/r"), None);
    assert!(!q.has_work());
    // the count starts again once the queue was idle
    assert_eq!(q.enqueue_many(&paths(&["/r/e"]), TaskPriority::Low), (true, 0, 1));
    assert_eq!(q.next_task(0), Some("/r/e".to_string()));
    assert_eq!(q.mark_done("/r/e"), (1, 1, true));
    assert_eq!(q.next_task(0), None);
}

#[test]
fn stuck_hashes_are_given_up_after_thirty_seconds() {
    let mut q = HashQueue::new();
    q.enqueue_many(&paths(&["/r/a", "/r/b", "/r/c"]), TaskPriority::Low);
    q.next_task(1_000);
    q.next_task(20_000);
    assert_eq!(q.fail_in_progress(30_999, 30_000), None);
    assert_eq!(q.fail_in_progress(31_000, 30_000), Some((1, 3, paths(&["/r/a"]))));
    assert!(!q.work.is_tracked("/r/a"));
    assert!(q.work.is_tracked("/r/b"));
    assert_eq!(q.started, vec![("/r/b".to_string(), 20_000)]);
    assert_eq!(q.fail_in_progress(31_000, 30_000), None);
    assert_eq!(q.fail_in_progress(50_000, 30_000), Some((2, 3, paths(&["/r/b"]))));
    assert_eq!(q.totals(), (2, 3));
    assert!(q.started.is_empty());
    assert!(q.work.is_tracked("/r/c"));
}

#[test]
fn the_time_after_which_a_hash_is_stuck_is_a_setting() {
    let mut q = HashQueue::new();
    q.enqueue_many(&paths(&["/r/a", "/r/b"]), TaskPriority::Low);
    q.next_task(1_000);
    q.next_task(1_400);
    assert_eq!(q.fail_in_progress(1_499, 500), None);
    assert_eq!(q.fail_in_progress(1_500, 500), Some((1, 2, paths(&["/r/a"]))));
    assert_eq!(q.fail_in_progress(1_500, 0), Some((2, 2, paths(&["/r/b"]))));
    // a clock that went back gives nothing up
    let mut q = HashQueue::new();
    q.enqueue_many(&paths(&["/r/a"]), TaskPriority::Low);
    q.next_task(1_000);
    assert_eq!(q.fail_in_progress(999, 0), None);
}

#[test]
fn percent_is_capped() {
    assert_eq!(percent_of(0, 0), 0);
    assert_eq!(percent_of(1, 3), 33);
    assert_eq!(percent_of(2, 3), 66);
    assert_eq!(percent_of(3, 3), 100);
    assert_eq!(percent_of(5, 3), 100);
    assert_eq!(percent_of(usize::MAX, usize::MAX), 100);
}

#[test]
fn progress_counts_every_class_of_work() {
    let mut s = Scheduler::new();
    assert_eq!(s.current_stage(), PreloadStage::Idle);
    assert_eq!(get_preload_progress(&s), 0);
    assert!(!is_preloading(&s));
    s.conversion_started(0, INTERVAL);
    assert_eq!(s.current_stage(), PreloadStage::Conversion);
    s.conversion_finished(1, INTERVAL);
    s.enqueue_thumb_task("/r/a/x.jpg".into(), "/r/a/.room237-thumb".into(), false, TaskPriority::Low, 2, INTERVAL);
    s.enqueue_meta_task("/r/a/x.jpg".into(), false, TaskPriority::Low, 3, INTERVAL);
    s.enqueue_meta_task("/r/a/y.jpg".into(), false, TaskPriority::Low, 4, INTERVAL);
    assert_eq!(s.current_stage(), PreloadStage::Thumbnails);
    assert!(is_preloading(&s));
    assert_eq!(s.combined_progress_totals(), (1, 4));
    assert_eq!(s.active_actions(), 3);
    assert_eq!(get_preload_progress(&s), 25);
    assert_eq!(s.stage_counts(PreloadStage::Conversion), StageProgress { completed: 1, total: 1 });
    assert_eq!(s.stage_counts(PreloadStage::Thumbnails), StageProgress { completed: 0, total: 1 });
    assert_eq!(s.stage_counts(PreloadStage::Metadata), StageProgress { completed: 0, total: 2 });
    assert_eq!(s.stage_counts(PreloadStage::Idle), StageProgress { completed: 1, total: 4 });
    let payload = s.build_progress_payload(PreloadStage::Thumbnails);
    assert_eq!(payload.stage, PreloadStage::Thumbnails);
    assert_eq!(payload.stage_progress, StageProgress { completed: 0, total: 1 });
    assert_eq!((payload.overall_completed, payload.overall_total), (1, 4));
    assert_eq!(payload.progress, 25);
    assert_eq!(payload.active_actions, 3);
}

#[test]
fn progress_events_are_throttled() {
    let mut s = Scheduler::new();
    let first = s.emit_progress(Some(PreloadStage::Idle), 1000, INTERVAL);
    assert!(first.is_some());
    assert_eq!(s.emit_progress(Some(PreloadStage::Idle), 1050, INTERVAL), None);
    assert_eq!(s.emit_progress(None, 1099, INTERVAL), None);
    assert!(s.emit_progress(Some(PreloadStage::Idle), 1100, INTERVAL).is_some());
    // a change of stage is always reported
    let changed = s.emit_progress(Some(PreloadStage::Metadata), 1101, INTERVAL).unwrap();
    assert_eq!(changed.stage, PreloadStage::Metadata);
    assert_eq!(s.stage, PreloadStage::Metadata);
    // a clock that went back counts as no time passed
    assert_eq!(s.emit_progress(Some(PreloadStage::Metadata), 5, INTERVAL), None);
}

#[test]
fn failed_or_tracked_work_is_not_queued() {
    let mut s = Scheduler::new();
    let (added, event) =
        s.enqueue_thumb_task("/r/x.jpg".into(), "/t".into(), true, TaskPriority::High, 0, INTERVAL);
    assert_eq!((added, event), (false, None));
    let (added, event) =
        s.enqueue_thumb_task("/r/x.jpg".into(), "/t".into(), false, TaskPriority::High, 0, INTERVAL);
    assert!(added && event.is_some());
    assert_eq!(s.thumb_work.queue[0].1, ThumbTask { thumb_dir: "/t".to_string() });
    let (added, _) =
        s.enqueue_thumb_task("/r/x.jpg".into(), "/t".into(), false, TaskPriority::High, 0, INTERVAL);
    assert!(!added);
    assert_eq!(s.enqueue_meta_task("/r/x.jpg".into(), true, TaskPriority::Low, 0, INTERVAL), (false, None));
    assert!(s.enqueue_meta_task("/r/x.jpg".into(), false, TaskPriority::Low, 0, INTERVAL).0);
}

#[test]
fn active_root_change_forgets_all_work() {
    let mut s = Scheduler::new();
    assert!(s.set_active_root("/r1", 0).is_some());
    assert_eq!(s.set_active_root("/r1", 1), None);
    s.enqueue_thumb_task("/r1/a/x.jpg".into(), "/t".into(), false, TaskPriority::Low, 2, INTERVAL);
    s.enqueue_meta_task("/r1/a/x.jpg".into(), false, TaskPriority::Low, 2, INTERVAL);
    s.enqueue_hashes(&paths(&["/r1/a/x.jpg"]), TaskPriority::Low);
    enqueue_preload(&mut s, "/r1/a", true, 3, INTERVAL);
    s.start_preloader_worker(4);
    let epoch = s.cancel_epoch;
    s.conversion_started(5, INTERVAL);
    let task = s.thumb_work.next_task().unwrap().0;

    let event = s.set_active_root("/r2", 6).unwrap();
    assert_eq!(event.stage, PreloadStage::Idle);
    assert_eq!((event.overall_completed, event.overall_total, event.active_actions), (0, 0, 0));
    assert!(!s.thumb_work.has_work() && !s.meta_work.has_work() && !s.hash_queue.has_work());
    assert!(s.preload_queue.is_empty() && s.preloaded.is_empty());
    assert!(!s.preloader_running);
    assert!(s.is_cancelled(epoch));
    assert_eq!(s.combined_progress_totals(), (0, 0));
    assert_eq!((s.done_thumbs, s.done_meta), (0, 0));
    assert_eq!((s.conversions_total, s.conversions_done), (0, 0));
    assert_eq!(s.hash_queue.done, 0);
    assert!(s.thumb_hash_albums.is_empty() && s.thumb_hash_failed.is_empty());
    assert_eq!(s.stage, PreloadStage::Idle);
    assert_eq!(s.last_progress_emit, Some(6));
    // a task that was under way belongs to the old root and is dropped
    assert!(!s.admit_task(&task, false));
    assert!(s.admit_task("/r2/b/y.jpg", false));
    assert!(!s.admit_task("/r2/b/y.jpg", true));
    assert!(!s.under_active_root("/r22/y.jpg"));
    assert_eq!(
        s.hash_task_step(&task, None, None, &cfg(), true),
        HashTaskStep::Skip
    );
}

#[test]
fn pools_at_rest_end_the_preload() {
    let mut s = Scheduler::new();
    s.enqueue_thumb_task("/r/x.jpg".into(), "/t".into(), false, TaskPriority::Low, 0, INTERVAL);
    assert_eq!(s.try_emit_end(1, INTERVAL), PoolEnd { event: None, scan_due: false });
    let (path, _) = s.thumb_work.next_task().unwrap();
    let end = s.thumb_task_done(&path, TaskOutcome::Succeeded, 1000, INTERVAL);
    assert!(end.end.scan_due);
    assert_eq!(end.end.event.unwrap().stage, PreloadStage::Idle);
    assert_eq!(s.stage, PreloadStage::Thumbnails);
    assert_eq!(end.progress.unwrap().stage, PreloadStage::Thumbnails);
    assert_eq!(s.done_thumbs, 0);

    s.enqueue_meta_task("/r/x.jpg".into(), false, TaskPriority::Low, 2000, INTERVAL);
    s.enqueue_meta_task("/r/y.jpg".into(), false, TaskPriority::Low, 2000, INTERVAL);
    s.enqueue_hashes(&paths(&["/r/x.jpg"]), TaskPriority::Low);
    let (path, _) = s.meta_work.next_task().unwrap();
    let end = s.meta_task_done(&path, TaskOutcome::Succeeded, 3000, INTERVAL);
    assert_eq!(end.end, PoolEnd { event: None, scan_due: false });
    assert_eq!(s.done_meta, 1);
    let (path, _) = s.meta_work.next_task().unwrap();
    let end = s.meta_task_done(&path, TaskOutcome::Skipped, 4000, INTERVAL);
    assert!(end.end.event.is_some());
    // hash work is under way: no scan of thumbnails now
    assert!(!end.end.scan_due);
    assert_eq!(s.stage, PreloadStage::Idle);
}

#[test]
fn driver_takes_albums_in_turn() {
    let mut s = Scheduler::new();
    s.set_active_root("/r", 0);
    assert_eq!(enqueue_preload(&mut s, "/elsewhere/a", true, 1, INTERVAL), None);
    assert!(s.preload_queue.is_empty());
    enqueue_preload(&mut s, "/r/a", true, 1, INTERVAL);
    enqueue_preload(&mut s, "/r/b", true, 1, INTERVAL);
    enqueue_preload(&mut s, "/r/a", true, 1, INTERVAL);
    assert_eq!(s.preload_queue, paths(&["/r/a", "/r/b"]));
    let (spawn, event) = s.start_preloader_worker(2);
    assert!(spawn && event.is_some());
    assert_eq!(s.start_preloader_worker(3), (false, None));
    // a queued album makes for a progress report while the driver runs
    enqueue_preload(&mut s, "/r/c", true, 500, INTERVAL);

    let step = s.next_preload_album();
    let epoch = s.cancel_epoch;
    assert_eq!(step, DriverStep::Album { dir: "/r/a".to_string(), epoch });
    assert_eq!(s.take_hash_albums(), paths(&["/r/a"]));
    assert!(s.finish_preload_album("/r/a", epoch));
    assert_eq!(s.preloaded, paths(&["/r/a"]));
    // preloaded and complete: not queued again
    assert_eq!(enqueue_preload(&mut s, "/r/a", false, 600, INTERVAL), None);
    assert_eq!(s.preload_queue, paths(&["/r/b", "/r/c"]));
    // lacking an artifact: queued again and no longer preloaded
    enqueue_preload(&mut s, "/r/a", true, 700, INTERVAL);
    assert_eq!(s.preload_queue, paths(&["/r/b", "/r/c", "/r/a"]));
    assert!(s.preloaded.is_empty());

    let step = s.next_preload_album();
    assert_eq!(step, DriverStep::Album { dir: "/r/b".to_string(), epoch });
    s.cancel_current();
    assert!(s.is_cancelled(epoch));
    assert!(!s.finish_preload_album("/r/b", epoch));
    assert!(s.preloaded.is_empty());

    s.album_preloaded("/r/c");
    assert_eq!(s.preload_queue, paths(&["/r/a"]));
    s.album_preloaded("/r/a");
    assert_eq!(s.next_preload_album(), DriverStep::Stop);
    assert!(!s.preloader_running);
}

#[test]
fn listing_request_decides_on_a_preload() {
    let mut s = Scheduler::new();
    s.album_preloaded("/r/a");
    let epoch = s.cancel_epoch;
    assert!(!s.request_album("/r/a", false));
    assert!(!s.is_cancelled(epoch));
    assert!(s.request_album("/r/a", true));
    assert!(s.is_cancelled(epoch));
    assert!(s.preloaded.is_empty());
    assert!(s.request_album("/r/b", false));
    assert!(Scheduler::artifacts_missing(true, false));
    assert!(Scheduler::artifacts_missing(false, true));
    assert!(!Scheduler::artifacts_missing(true, true));
}

#[test]
fn preload_queues_what_a_file_lacks() {
    let mut s = Scheduler::new();
    let mut album = AlbumMeta::new();
    room237::metadata::write_file_meta(&mut album, "cached.jpg", "1");
    room237::metadata::mark_thumb_failed(&mut album, "broken.jpg");
    room237::metadata::mark_meta_failed(&mut album, "broken.jpg");
    let plan = s.preload_file(&album, "/r/a/new.jpg", "new.jpg", "/t", false, 0, INTERVAL);
    assert!(plan.thumb_queued && plan.meta_queued);
    assert!(plan.thumb_event.is_some());
    let plan = s.preload_file(&album, "/r/a/new.jpg", "new.jpg", "/t", false, 0, INTERVAL);
    assert!(!plan.thumb_queued && !plan.meta_queued);
    let plan = s.preload_file(&album, "/r/a/cached.jpg", "cached.jpg", "/t", true, 0, INTERVAL);
    assert!(!plan.thumb_queued && !plan.meta_queued);
    let plan = s.preload_file(&album, "/r/a/broken.jpg", "broken.jpg", "/t", false, 0, INTERVAL);
    assert!(!plan.thumb_queued && !plan.meta_queued);
    assert_eq!(queued(&s.thumb_work), vec!["/r/a/new.jpg"]);
    assert_eq!(queued(&s.meta_work), vec!["/r/a/new.jpg"]);
}

#[test]
fn dropping_a_path_forgets_its_queued_work() {
    let mut s = Scheduler::new();
    s.set_active_root("/r", 0);
    for dir in ["/r/a", "/r/a/sub", "/r/b"] {
        enqueue_preload(&mut s, dir, true, 0, INTERVAL);
        s.album_preloaded(&format!("{dir}/done"));
        s.queue_album_for_hashing(dir);
        let file = format!("{dir}/x.jpg");
        s.enqueue_thumb_task(file.clone(), "/t".into(), false, TaskPriority::Low, 0, INTERVAL);
        s.enqueue_meta_task(file.clone(), false, TaskPriority::Low, 0, INTERVAL);
        s.enqueue_hashes(&vec![file], TaskPriority::Low);
    }
    let events = drop_preload_for_path(&mut s, "/r/a", 1000, INTERVAL);
    assert!(events.thumbs.is_some());
    assert_eq!(events.hashes, Some((0, 1)));
    assert_eq!(s.preload_queue, paths(&["/r/b"]));
    assert_eq!(s.preloaded, paths(&["/r/b/done"]));
    assert_eq!(s.thumb_hash_albums, paths(&["/r/b"]));
    assert_eq!(queued(&s.thumb_work), vec!["/r/b/x.jpg"]);
    assert_eq!(queued(&s.meta_work), vec!["/r/b/x.jpg"]);
    assert_eq!(queued(&s.hash_queue.work), vec!["/r/b/x.jpg"]);
    let events = drop_preload_for_path(&mut s, "/r/a", 2000, INTERVAL);
    assert_eq!((events.thumbs, events.metadata, events.hashes), (None, None, None));
}

#[test]
fn hash_queue_state_is_reported_on_request() {
    let mut s = Scheduler::new();
    assert_eq!(set_allow_open(&mut s, true), None);
    s.enqueue_hashes(&paths(&["/r/x.jpg", "/r/y.jpg"]), TaskPriority::Low);
    assert_eq!(set_allow_open(&mut s, false), None);
    assert_eq!(set_allow_open(&mut s, true), Some((0, 2)));
    assert!(s.allow_open);
    assert_eq!(s.enqueue_hashes(&paths(&[]), TaskPriority::Low), None);
    assert_eq!(s.enqueue_hashes(&paths(&["/r/x.jpg"]), TaskPriority::Low), None);
}

fn entry_with_hash(version: &str, bits: Option<u32>) -> FileMetaEntry {
    let mut e = FileMetaEntry::new();
    e.hash = Some("AAAAAAAAAAA=".to_string());
    e.hash_version = Some(version.to_string());
    e.hash_bits = bits;
    e
}

#[test]
fn readiness_of_a_hash() {
    assert!(!hash_entry_ready(None, &cfg()));
    assert!(album_entry_needs_hash(None, &cfg()));
    assert!(!hash_entry_ready(Some(&FileMetaEntry::new()), &cfg()));
    assert!(hash_entry_ready(Some(&entry_with_hash("v1", Some(64))), &cfg()));
    assert!(!hash_entry_ready(Some(&entry_with_hash("v1", None)), &cfg()));
    assert!(!hash_entry_ready(Some(&entry_with_hash("v0", Some(64))), &cfg()));
    assert!(!hash_entry_ready(Some(&entry_with_hash("v1", Some(32))), &cfg()));
    // a text that does not decode to the configured number of bits
    let mut short = entry_with_hash("v1", Some(64));
    short.hash = Some("AA==".to_string());
    assert!(!hash_entry_ready(Some(&short), &cfg()));
    let mut garbage = entry_with_hash("v1", Some(64));
    garbage.hash = Some("not base64!".to_string());
    assert!(!hash_entry_ready(Some(&garbage), &cfg()));
    assert!(album_entry_needs_hash(Some(&garbage), &cfg()));
    let mut failed = FileMetaEntry::new();
    failed.hash_failed = true;
    assert!(hash_entry_ready(Some(&failed), &cfg()));
    assert!(!album_entry_needs_hash(Some(&failed), &cfg()));
}

#[test]
fn only_images_without_hash_are_needed() {
    let mut album = AlbumMeta::new();
    write_album_file_hash(&mut album, "done.jpg", "AAAAAAAAAAA=".into(), "v1".into(), 64);
    mark_hash_failed(&mut album, "failed.jpg");
    let names = paths(&["done.jpg", "new.jpg", "failed.jpg", "clip.mp4"]);
    assert_eq!(hashes_needed(&album, &names, &cfg(), true), paths(&["new.jpg"]));
    assert_eq!(hashes_needed(&album, &names, &cfg(), false), paths(&["new.jpg", "clip.mp4"]));
    assert_eq!(album_paths("/r/a", &paths(&["x.jpg", "y.jpg"])), paths(&["/r/a/x.jpg", "/r/a/y.jpg"]));
}

#[test]
fn hash_worker_skips_what_is_served_or_failed() {
    let mut s = Scheduler::new();
    let cached = entry_with_hash("v1", Some(64));
    let stale = entry_with_hash("v0", Some(64));
    let uncounted = entry_with_hash("v1", None);
    let mut short = entry_with_hash("v1", Some(64));
    short.hash = Some("AA==".to_string());
    assert_eq!(s.hash_task_step("/r/a/x.jpg", Some(&cached), None, &cfg(), true), HashTaskStep::Skip);
    assert_eq!(s.hash_task_step("/r/a/x.jpg", Some(&stale), None, &cfg(), true), HashTaskStep::Compute);
    assert_eq!(s.hash_task_step("/r/a/x.jpg", Some(&uncounted), None, &cfg(), true), HashTaskStep::Compute);
    assert_eq!(s.hash_task_step("/r/a/x.jpg", Some(&short), None, &cfg(), true), HashTaskStep::Compute);
    assert_eq!(s.hash_task_step("/r/a/x.jpg", None, None, &cfg(), true), HashTaskStep::Compute);
    assert_eq!(s.hash_task_step("/", None, None, &cfg(), true), HashTaskStep::Skip);

    s.hash_task_finished("/r/a/x.jpg", false, Some(77), true);
    assert_eq!(s.hash_task_step("/r/a/x.jpg", None, Some(77), &cfg(), true), HashTaskStep::Skip);
    assert_eq!(s.hash_task_step("/r/a/x.jpg", None, Some(78), &cfg(), false), HashTaskStep::Skip);
    assert_eq!(s.hash_task_step("/r/a/x.jpg", None, None, &cfg(), true), HashTaskStep::Compute);
    assert_eq!(s.thumb_hash_failed.len(), 1);
    assert_eq!(s.hash_task_step("/r/a/x.jpg", None, Some(78), &cfg(), true), HashTaskStep::Compute);
    assert!(s.thumb_hash_failed.is_empty());

    s.hash_task_finished("/r/a/x.jpg", false, None, true);
    assert!(s.thumb_hash_failed.is_empty());
    s.hash_task_finished("/r/a/x.jpg", false, Some(1), false);
    s.hash_task_finished("/r/a/x.jpg", false, Some(2), false);
    assert_eq!(s.thumb_hash_failed, vec![("/r/a/x.jpg".to_string(), 1)]);
    s.hash_task_finished("/r/a/x.jpg", false, Some(3), true);
    assert_eq!(s.thumb_hash_failed, vec![("/r/a/x.jpg".to_string(), 3)]);
    s.hash_task_finished("/r/a/x.jpg", true, Some(3), true);
    assert!(s.thumb_hash_failed.is_empty());
}

#[test]
fn hash_pass_ends_when_the_queue_runs_dry() {
    let mut s = Scheduler::new();
    s.enqueue_hashes(&paths(&["/r/x.jpg", "/r/y.jpg"]), TaskPriority::Low);
    let x = s.next_hash_task(0).unwrap();
    let end = s.hash_task_done(&x, 10, INTERVAL);
    assert_eq!(end.progress, (1, 2));
    assert!(!s.thumb_hash_done_once);
    let y = s.next_hash_task(0).unwrap();
    let end = s.hash_task_done(&y, 2000, INTERVAL);
    assert_eq!(end.progress, (2, 2));
    assert!(s.thumb_hash_done_once);
    assert!(end.end.scan_due);
    assert_eq!(s.next_hash_task(0), None);
}

#[test]
fn wait_is_over_at_once_when_every_file_is_ready() {
    let mut s = Scheduler::new();
    let mut album = AlbumMeta::new();
    write_album_file_hash(&mut album, "a.jpg", "AAAAAAAAAAA=".into(), "v1".into(), 64);
    mark_hash_failed(&mut album, "b.jpg");
    let (wait, event) = wait_for_album_hashes(
        &mut s, &album, "/r/a", &paths(&["a.jpg", "b.jpg"]), &cfg(), TaskPriority::High, 0,
    );
    assert_eq!((wait, event), (None, None));
    assert!(!s.hash_queue.has_work());
}

#[test]
fn wait_ends_when_hashes_arrive_or_fail() {
    let mut s = Scheduler::new();
    let mut album = AlbumMeta::new();
    write_album_file_hash(&mut album, "a.jpg", "AAAAAAAAAAA=".into(), "v1".into(), 64);
    s.enqueue_hashes(&paths(&["/r/other/z.jpg"]), TaskPriority::Low);
    let (wait, event) = wait_for_album_hashes(
        &mut s, &album, "/r/a", &paths(&["a.jpg", "b.jpg", "c.jpg"]), &cfg(), TaskPriority::High, 0,
    );
    let mut wait = wait.unwrap();
    assert_eq!(event, Some((0, 3)));
    assert_eq!(wait.pending, paths(&["b.jpg", "c.jpg"]));
    assert_eq!(queued(&s.hash_queue.work), vec!["/r/a/c.jpg", "/r/a/b.jpg", "/r/other/z.jpg"]);

    assert_eq!(wait.poll(&mut s, &album, &cfg(), &limits(), 100).step, WaitStep::Wait);
    write_album_file_hash(&mut album, "b.jpg", "AAAAAAAAAAA=".into(), "v1".into(), 64);
    let poll = wait.poll(&mut s, &album, &cfg(), &limits(), 200);
    assert_eq!((poll.step, poll.forced), (WaitStep::Wait, None));
    assert_eq!(wait.pending, paths(&["c.jpg"]));
    mark_hash_failed(&mut album, "c.jpg");
    let poll = wait.poll(&mut s, &album, &cfg(), &limits(), 300);
    assert_eq!((poll.step, poll.forced), (WaitStep::Complete, None));
    assert!(wait.pending.is_empty());
    // at the end each file has failed or has bits that a scan can use
    for name in ["a.jpg", "b.jpg", "c.jpg"] {
        let usable = load_cached_bits_from_meta(&album, name, &cfg()).is_some();
        assert!(usable || is_hash_failed_in_meta(&album, name));
    }
}

#[test]
fn a_hash_that_no_scan_can_use_is_waited_for() {
    let mut s = Scheduler::new();
    let mut album = AlbumMeta::new();
    // the right version, but a text of eight bits where 64 are configured
    write_album_file_hash(&mut album, "a.jpg", "AA==".into(), "v1".into(), 64);
    let (wait, _) = wait_for_album_hashes(
        &mut s, &album, "/r/a", &paths(&["a.jpg"]), &cfg(), TaskPriority::High, 0,
    );
    let mut wait = wait.unwrap();
    assert_eq!(wait.pending, paths(&["a.jpg"]));
    assert_eq!(wait.poll(&mut s, &album, &cfg(), &limits(), 1).step, WaitStep::Wait);
    write_album_file_hash(&mut album, "a.jpg", "AAAAAAAAAAA=".into(), "v1".into(), 64);
    assert_eq!(wait.poll(&mut s, &album, &cfg(), &limits(), 2).step, WaitStep::Complete);
}

#[test]
fn wait_gives_up_stalled_work_and_an_idle_queue() {
    let mut s = Scheduler::new();
    let album = AlbumMeta::new();
    let (wait, _) = wait_for_album_hashes(
        &mut s, &album, "/r/a", &paths(&["b.jpg"]), &cfg(), TaskPriority::High, 0,
    );
    let mut wait = wait.unwrap();
    let task = s.next_hash_task(1_000).unwrap();
    assert_eq!(task, "/r/a/b.jpg");
    assert_eq!(wait.poll(&mut s, &album, &cfg(), &limits(), 19_999).forced, None);
    // twenty seconds without progress, but the work is not thirty seconds old
    let poll = wait.poll(&mut s, &album, &cfg(), &limits(), 20_000);
    assert_eq!((poll.step, poll.forced), (WaitStep::Wait, None));
    assert!(s.hash_queue.work.is_tracked("/r/a/b.jpg"));
    let poll = wait.poll(&mut s, &album, &cfg(), &limits(), 31_000);
    assert_eq!(poll.step, WaitStep::Wait);
    assert_eq!(poll.forced, Some((1, 1, paths(&["/r/a/b.jpg"]))));
    assert_eq!(wait.last_done_total, (1, 1));
    assert_eq!(wait.last_progress, 31_000);
    // the file has left the set of those worked on and counts as done
    assert!(!s.hash_queue.work.is_tracked("/r/a/b.jpg"));
    assert!(s.hash_queue.work.in_progress.is_empty());
    assert!(s.hash_queue.started.is_empty());
    assert_eq!(s.hash_queue.done, 1);
    // nothing queued, nothing under way, the file still pending
    let poll = wait.poll(&mut s, &album, &cfg(), &limits(), 31_500);
    assert_eq!((poll.step, poll.forced), (WaitStep::Idle, None));
    assert_eq!(wait.pending, paths(&["b.jpg"]));
}

#[test]
fn a_stuck_file_is_marked_as_failed_and_ends_the_wait() {
    let mut s = Scheduler::new();
    let mut album = AlbumMeta::new();
    let (wait, _) = wait_for_album_hashes(
        &mut s, &album, "/r/a", &paths(&["b.jpg"]), &cfg(), TaskPriority::High, 0,
    );
    let mut wait = wait.unwrap();
    s.next_hash_task(0);
    let poll = wait.poll(&mut s, &album, &cfg(), &limits(), 30_000);
    assert_eq!(poll.forced, Some((1, 1, paths(&["/r/a/b.jpg"]))));
    // the caller marks what was given up as failed
    mark_hash_failed(&mut album, "b.jpg");
    let poll = wait.poll(&mut s, &album, &cfg(), &limits(), 30_001);
    assert_eq!((poll.step, poll.forced), (WaitStep::Complete, None));
    assert!(is_hash_failed_in_meta(&album, "b.jpg"));
}

#[test]
fn the_time_after_which_hashing_has_stalled_is_a_setting() {
    let mut s = Scheduler::new();
    let album = AlbumMeta::new();
    let (wait, _) = wait_for_album_hashes(
        &mut s, &album, "/r/a", &paths(&["b.jpg"]), &cfg(), TaskPriority::High, 0,
    );
    let mut wait = wait.unwrap();
    s.next_hash_task(0);
    let quick = PreloadSettings { hash_stall_ms: 50, hash_stuck_ms: 70, ..limits() };
    assert_eq!(wait.poll(&mut s, &album, &cfg(), &quick, 49).forced, None);
    assert_eq!(wait.poll(&mut s, &album, &cfg(), &quick, 50).forced, None);
    assert_eq!(wait.poll(&mut s, &album, &cfg(), &quick, 69).forced, None);
    let poll = wait.poll(&mut s, &album, &cfg(), &quick, 70);
    assert_eq!(poll.forced, Some((1, 1, paths(&["/r/a/b.jpg"]))));
}

#[test]
fn an_abandoned_wait_leaves_every_file_ready() {
    let mut s = Scheduler::new();
    let mut album = AlbumMeta::new();
    mark_meta_failed(&mut album, "c.jpg");
    let names = paths(&["a.jpg", "b.jpg", "c.jpg", "b.jpg"]);
    let (wait, _) =
        wait_for_album_hashes(&mut s, &album, "/r/a", &names, &cfg(), TaskPriority::High, 0);
    let mut wait = wait.unwrap();
    // the queue is emptied behind the back of the wait
    s.set_active_root("/elsewhere", 1);
    let poll = wait.poll(&mut s, &album, &cfg(), &limits(), 2);
    assert_eq!((poll.step, poll.forced), (WaitStep::Idle, None));
    // one hash arrives before the wait is abandoned: it is kept
    write_album_file_hash(&mut album, "a.jpg", "AAAAAAAAAAA=".into(), "v1".into(), 64);
    wait.abandon(&mut album, &cfg());
    assert!(wait.pending.is_empty());
    assert_eq!(load_cached_bits_from_meta(&album, "a.jpg", &cfg()), Some(vec![0]));
    assert!(!is_hash_failed_in_meta(&album, "a.jpg"));
    assert!(is_hash_failed_in_meta(&album, "b.jpg"));
    assert!(is_hash_failed_in_meta(&album, "c.jpg"));
    assert!(album.get("c.jpg").unwrap().meta_failed);
    assert_eq!(album.files.len(), 3);
    for name in &names {
        assert!(hash_entry_ready(album.get(name), &cfg()));
    }
    let poll = wait.poll(&mut s, &album, &cfg(), &limits(), 3);
    assert_eq!(poll.step, WaitStep::Complete);
}

#[test]
fn workers_are_started_up_to_the_wanted_number() {
    let mut q: WorkQueue<()> = WorkQueue::new();
    assert!(q.claim_worker(2));
    assert!(q.claim_worker(2));
    assert!(!q.claim_worker(2));
    assert_eq!(q.started_workers, 2);
    let mut one: WorkQueue<()> = WorkQueue::new();
    assert!(one.claim_worker(0));
    assert!(!one.claim_worker(0));
}
