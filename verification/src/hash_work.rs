//! Scheduling of perceptual hashes: which files need one, how a worker
//! treats a hash task, and how a caller waits for the hashes of an album.

use crate::duplicates::{cached_bits, cached_words};
use crate::metadata::{blank_entry, mark_hash_failed, AlbumMeta, FileMetaEntry, FileMetaEntryView};
use crate::paths::{file_name, file_name_of, join, joined, parent, parent_of};
use crate::preload::{PoolEnd, Scheduler};
use crate::queue::{drop_record, holds, lookup_record, put_record, record_of, TaskPriority};
use crate::settings::{HashConfig, PreloadSettings};
use crate::text::string_texts;
use crate::util::{media_kind, media_kind_of, MediaKind};
use vstd::prelude::*;

verus! {

/// Whether nothing more is to be expected for a file: hashing it is marked
/// as failed, or the sidecar holds a hash that a scan under `cfg` can use,
/// one of the configured version and bit count whose text decodes to that
/// many bits.
pub open spec fn entry_ready(e: Option<FileMetaEntryView>, cfg: HashConfig) -> bool {
    match e {
        Some(e) => e.hash_failed || cached_bits(Some(e), cfg) is Some,
        None => false,
    }
}

/// The view of an optional record.
pub open spec fn entry_view(e: Option<&FileMetaEntry>) -> Option<FileMetaEntryView> {
    match e {
        Some(e) => Some(e@),
        None => None,
    }
}

/// Whether nothing more is to be expected for a file.
pub fn hash_entry_ready(entry: Option<&FileMetaEntry>, cfg: &HashConfig) -> (r: bool)
    ensures
        r == entry_ready(entry_view(entry), *cfg),
{
    match entry {
        Some(e) => {
            if e.hash_failed {
                return true;
            }
            cached_words(e, cfg).is_some()
        },
        None => false,
    }
}

/// Whether a file still has to be hashed: the opposite of
/// `hash_entry_ready`.
pub fn album_entry_needs_hash(entry: Option<&FileMetaEntry>, cfg: &HashConfig) -> (r: bool)
    ensures
        r == !entry_ready(entry_view(entry), *cfg),
{
    !hash_entry_ready(entry, cfg)
}

/// The first `n` of `names` that still have to be hashed, in order; with
/// `images_only`, those of them that name images.
pub open spec fn needy_upto(
    album: AlbumMeta,
    names: Seq<String>,
    cfg: HashConfig,
    images_only: bool,
    n: int,
) -> Seq<Seq<char>>
    decreases n,
{
    if n <= 0 {
        Seq::empty()
    } else {
        let before = needy_upto(album, names, cfg, images_only, n - 1);
        let name = names[n - 1]@;
        if !entry_ready(album.entry(name), cfg) && (!images_only || media_kind_of(name)
            == MediaKind::Image) {
            before.push(name)
        } else {
            before
        }
    }
}

/// The files among `names` that still have to be hashed; with
/// `images_only`, those of them that name images.
pub fn hashes_needed(
    album: &AlbumMeta,
    names: &Vec<String>,
    cfg: &HashConfig,
    images_only: bool,
) -> (needed:
    Vec<String>)
    requires
        album.wf(),
    ensures
        string_texts(needed@) == needy_upto(*album, names@, *cfg, images_only, names@.len() as int),
{
    let mut needed: Vec<String> = Vec::new();
    let mut i: usize = 0;
    assert(string_texts(needed@) =~= needy_upto(*album, names@, *cfg, images_only, 0));
    while i < names.len()
        invariant
            i <= names.len(),
            album.wf(),
            string_texts(needed@) == needy_upto(*album, names@, *cfg, images_only, i as int),
        decreases names.len() - i,
    {
        let ghost before = needed@;
        let name = &names[i];
        let is_image: bool = match media_kind(name.as_str()) {
            MediaKind::Image => true,
            _ => false,
        };
        if album_entry_needs_hash(album.get(name.as_str()), cfg) && (!images_only || is_image) {
            needed.push(name.clone());
            assert(string_texts(needed@) =~= string_texts(before).push(name@));
        }
        i += 1;
    }
    needed
}

/// The paths of `names` in the album `dir`.
pub fn album_paths(dir: &str, names: &Vec<String>) -> (paths: Vec<String>)
    ensures
        paths@.len() == names@.len(),
        forall|i: int| 0 <= i < names@.len() ==> (#[trigger] paths@[i])@ == joined(dir@, names@[i]@),
{
    let mut paths: Vec<String> = Vec::new();
    let mut i: usize = 0;
    while i < names.len()
        invariant
            i <= names.len(),
            paths@.len() == i,
            forall|k: int| 0 <= k < i ==> (#[trigger] paths@[k])@ == joined(dir@, names@[k]@),
        decreases names.len() - i,
    {
        paths.push(join(dir, names[i].as_str()));
        i += 1;
    }
    paths
}

/// What a hash worker does with the task it took.
#[derive(Clone, Copy, Debug, PartialEq, Eq)]
pub enum HashTaskStep {
    /// Nothing: the task is dropped.
    Skip,
    /// The file is hashed.
    Compute,
}

/// What is due after a hash task has ended.
#[derive(Clone, Copy, Debug, PartialEq, Eq)]
pub struct HashEnd {
    /// `(done, total)` of the hash queue, for the progress event.
    pub progress: (usize, usize),
    /// What the end of the pools' work brought, where the queue ran dry.
    pub end: PoolEnd,
}

/// Whether a path names a file in a directory.
pub open spec fn names_file(path: Seq<char>) -> bool {
    parent_of(path) is Some && file_name_of(path) is Some
}

/// Whether an earlier failure keeps a file from being hashed again: it
/// does unless a retry is wanted and the thumbnail has changed since, or
/// cannot be dated.
pub open spec fn failure_stands(prev: Option<i128>, thumb_mtime: Option<i128>, retry: bool) -> bool {
    match prev {
        Some(then) => !retry || thumb_mtime == Some(then),
        None => false,
    }
}

impl Scheduler {
    /// Offers paths to the hash queue. Where any was queued, tells
    /// `(done, total)` of the queue for the progress event; hash workers
    /// are then wanted.
    pub fn enqueue_hashes(&mut self, paths: &Vec<String>, priority: TaskPriority) -> (event: Option<
        (usize, usize),
    >)
        requires
            old(self).wf(),
        ensures
            final(self).wf(),
            final(self).hash_queue.work.queue@ == crate::hash_queue::enqueue_all(
                old(self).hash_queue.work.queue@,
                old(self).hash_queue.work.in_progress@,
                paths@,
                priority,
                paths@.len() as int,
            ),
            final(self).hash_queue.work.in_progress == old(self).hash_queue.work.in_progress,
            event is Some <==> final(self).hash_queue.work.queue@.len()
                != old(self).hash_queue.work.queue@.len(),
            event matches Some(t) ==> t == final(self).hash_queue.progress(),
            *final(self) == (Scheduler { hash_queue: final(self).hash_queue, ..*old(self) }),
            final(self).hash_queue.started == old(self).hash_queue.started,
            final(self).hash_queue.done == (if paths@.len() > 0 && hash_idle(*old(self)) {
                0
            } else {
                old(self).hash_queue.done
            }),
    {
        if paths.len() == 0 {
            return None;
        }
        let (added, done, total) = self.hash_queue.enqueue_many(paths, priority);
        if added {
            Some((done, total))
        } else {
            None
        }
    }

    /// Takes the next hash task; it is worked on from `now`.
    pub fn next_hash_task(&mut self, now: u64) -> (task: Option<String>)
        requires
            old(self).wf(),
        ensures
            final(self).wf(),
            match task {
                Some(path) => old(self).hash_queue.work.queue@.len() > 0
                    && path == old(self).hash_queue.work.queue@[0].0
                    && final(self).hash_queue.work.running(path@),
                None => old(self).hash_queue.work.queue@.len() == 0,
            },
            task matches Some(path) ==> final(self).hash_queue.work.queue@
                == old(self).hash_queue.work.queue@.drop_first() && final(self).hash_queue.started@
                == seq![
                (path, now),
            ] + old(self).hash_queue.started@,
            final(self).hash_queue.done == old(self).hash_queue.done,
            *final(self) == (Scheduler { hash_queue: final(self).hash_queue, ..*old(self) }),
    {
        self.hash_queue.next_task(now)
    }

    /// Decides what a hash worker does with the task for `path`, given the
    /// record that the sidecar keeps for the file. The task is dropped
    /// where the path lies outside the active root or names no file, where
    /// the record holds a hash that a scan can use, and where an earlier
    /// failure stands. A failure that no longer stands, because the
    /// thumbnail has changed, is forgotten.
    pub fn hash_task_step(
        &mut self,
        path: &str,
        entry: Option<&FileMetaEntry>,
        thumb_mtime: Option<i128>,
        cfg: &HashConfig,
        retry_on_thumb_change: bool,
    ) -> (step: HashTaskStep)
        ensures
            ({
                let prev = record_of(old(self).thumb_hash_failed@, path@);
                let served = cached_bits(entry_view(entry), *cfg) is Some;
                let open = old(self).admits(path@) && names_file(path@) && !served;
                &&& step == (if open && !failure_stands(prev, thumb_mtime, retry_on_thumb_change) {
                    HashTaskStep::Compute
                } else {
                    HashTaskStep::Skip
                })
                &&& record_of(final(self).thumb_hash_failed@, path@) == (if open && !failure_stands(
                    prev,
                    thumb_mtime,
                    retry_on_thumb_change,
                ) && thumb_mtime is Some {
                    None
                } else {
                    prev
                })
            }),
            forall|other: Seq<char>|
                other != path@ ==> record_of(final(self).thumb_hash_failed@, other) == record_of(
                    old(self).thumb_hash_failed@,
                    other,
                ),
            *final(self) == (Scheduler {
                thumb_hash_failed: final(self).thumb_hash_failed,
                ..*old(self)
            }),
    {
        if !self.under_active_root(path) {
            return HashTaskStep::Skip;
        }
        match entry {
            Some(e) => {
                if cached_words(e, cfg).is_some() {
                    return HashTaskStep::Skip;
                }
            },
            None => {},
        }
        if parent(path).is_none() || file_name(path).is_none() {
            return HashTaskStep::Skip;
        }
        match lookup_record(&self.thumb_hash_failed, path) {
            Some(then) => {
                if !retry_on_thumb_change {
                    return HashTaskStep::Skip;
                }
                match thumb_mtime {
                    Some(mtime) => {
                        if then == mtime {
                            return HashTaskStep::Skip;
                        }
                        drop_record(&mut self.thumb_hash_failed, path);
                    },
                    None => {},
                }
            },
            None => {},
        }
        HashTaskStep::Compute
    }

    /// Notes how hashing `path` went. A success clears the record of an
    /// earlier failure. A failure is recorded with the modification time
    /// of the thumbnail, where that is known: in place of an earlier record
    /// if a retry on change is wanted, else only where there is none yet.
    pub fn hash_task_finished(
        &mut self,
        path: &str,
        hashed: bool,
        thumb_mtime: Option<i128>,
        retry_on_thumb_change: bool,
    )
        ensures
            record_of(final(self).thumb_hash_failed@, path@) == ({
                let prev = record_of(old(self).thumb_hash_failed@, path@);
                if hashed {
                    None
                } else if thumb_mtime is Some && (retry_on_thumb_change || prev is None) {
                    thumb_mtime
                } else {
                    prev
                }
            }),
            forall|other: Seq<char>|
                other != path@ ==> record_of(final(self).thumb_hash_failed@, other) == record_of(
                    old(self).thumb_hash_failed@,
                    other,
                ),
            *final(self) == (Scheduler {
                thumb_hash_failed: final(self).thumb_hash_failed,
                ..*old(self)
            }),
    {
        if hashed {
            drop_record(&mut self.thumb_hash_failed, path);
            return ;
        }
        match thumb_mtime {
            Some(mtime) => {
                if retry_on_thumb_change || lookup_record(&self.thumb_hash_failed, path).is_none() {
                    put_record(&mut self.thumb_hash_failed, path, mtime);
                }
            },
            None => {},
        }
    }

    /// Ends a hash task and counts it as done. Where the hash queue ran
    /// dry, the hash pass counts as made once and the end of the pools'
    /// work is looked at.
    pub fn hash_task_done(&mut self, path: &str, now: u64, min_interval: u64) -> (r: HashEnd)
        requires
            old(self).wf(),
        ensures
            final(self).wf(),
            !final(self).hash_queue.work.running(path@),
            forall|other: Seq<char>|
                other != path@
                    ==> final(self).hash_queue.work.running(other)
                    == old(self).hash_queue.work.running(other),
            final(self).hash_queue.work.queue == old(self).hash_queue.work.queue,
            final(self).hash_queue.done == (if old(self).hash_queue.done == usize::MAX {
                usize::MAX
            } else {
                (old(self).hash_queue.done + 1) as usize
            }),
            r.progress == final(self).hash_queue.progress(),
            ({
                let dry = final(self).hash_queue.work.queue@.len() == 0
                    && final(self).hash_queue.work.in_progress@.len() == 0;
                let counted = Scheduler {
                    hash_queue: final(self).hash_queue,
                    thumb_hash_done_once: old(self).thumb_hash_done_once || dry,
                    ..*old(self)
                };
                &&& *final(self) == (if dry {
                    counted.after_end(now, min_interval)
                } else {
                    counted
                })
                &&& r.end == (if dry {
                    counted.end_of(now, min_interval)
                } else {
                    PoolEnd { event: None, scan_due: false }
                })
            }),
    {
        let (done, total, idle) = self.hash_queue.mark_done(path);
        let end = if idle {
            self.thumb_hash_done_once = true;
            self.try_emit_end(now, min_interval)
        } else {
            PoolEnd { event: None, scan_due: false }
        };
        HashEnd { progress: (done, total), end }
    }
}

/// The names among the first `n` of `pending` that are not ready yet.
pub open spec fn still_pending(album: AlbumMeta, pending: Seq<String>, cfg: HashConfig, n: int) -> Seq<
    Seq<char>,
>
    decreases n,
{
    if n <= 0 {
        Seq::empty()
    } else if entry_ready(album.entry(pending[n - 1]@), cfg) {
        still_pending(album, pending, cfg, n - 1)
    } else {
        still_pending(album, pending, cfg, n - 1).push(pending[n - 1]@)
    }
}

/// Where nothing is pending any more, every name was ready.
pub proof fn lemma_none_pending(album: AlbumMeta, pending: Seq<String>, cfg: HashConfig, n: int)
    requires
        0 <= n <= pending.len(),
        still_pending(album, pending, cfg, n).len() == 0,
    ensures
        forall|i: int| 0 <= i < n ==> entry_ready(album.entry((#[trigger] pending[i])@), cfg),
    decreases n,
{
    if n > 0 {
        if entry_ready(album.entry(pending[n - 1]@), cfg) {
            lemma_none_pending(album, pending, cfg, n - 1);
        }
    }
}

/// Where every name is ready, nothing is pending.
pub proof fn lemma_all_ready(album: AlbumMeta, pending: Seq<String>, cfg: HashConfig, n: int)
    requires
        0 <= n <= pending.len(),
        forall|i: int| 0 <= i < n ==> entry_ready(album.entry((#[trigger] pending[i])@), cfg),
    ensures
        still_pending(album, pending, cfg, n).len() == 0,
    decreases n,
{
    if n > 0 {
        assert(entry_ready(album.entry(pending[n - 1]@), cfg));
        lemma_all_ready(album, pending, cfg, n - 1);
    }
}

/// Every name is ready or among those that still have to be hashed.
pub proof fn lemma_needy_or_ready(album: AlbumMeta, names: Seq<String>, cfg: HashConfig, n: int, i: int)
    requires
        0 <= i < n <= names.len(),
    ensures
        entry_ready(album.entry(names[i]@), cfg) || needy_upto(album, names, cfg, false, n).contains(
            names[i]@,
        ),
    decreases n,
{
    let all = needy_upto(album, names, cfg, false, n);
    if i == n - 1 {
        if !entry_ready(album.entry(names[i]@), cfg) {
            assert(all[all.len() - 1] == names[i]@);
        }
    } else {
        lemma_needy_or_ready(album, names, cfg, n - 1, i);
        let fewer = needy_upto(album, names, cfg, false, n - 1);
        if fewer.contains(names[i]@) {
            let k = choose|k: int| 0 <= k < fewer.len() && fewer[k] == names[i]@;
            assert(all[k] == names[i]@);
        }
    }
}

/// How a caller that waits for hashes goes on.
#[derive(Clone, Copy, Debug, PartialEq, Eq)]
pub enum WaitStep {
    /// Every file it waited for is ready.
    Complete,
    /// Files are still pending, but the hash queue is idle: nothing more
    /// will come, and the caller ends the wait with `abandon`.
    Idle,
    /// Files are still pending and hash work is under way: wait, then look
    /// again.
    Wait,
}

/// What a look at the state of a wait brought.
#[derive(Debug, PartialEq, Eq)]
pub struct WaitPoll {
    pub step: WaitStep,
    /// `(done, total)` of the hash queue and the paths given up, where the
    /// queue had stalled and work under way was given up.
    pub forced: Option<(usize, usize, Vec<String>)>,
}

/// A caller's wait for the hashes of the files of one album.
#[derive(Debug, PartialEq, Eq)]
pub struct HashWait {
    /// The names that are not ready yet.
    pub pending: Vec<String>,
    /// `(done, total)` of the hash queue when it last changed.
    pub last_done_total: (usize, usize),
    /// When `(done, total)` last changed, in milliseconds.
    pub last_progress: u64,
}

/// Begins a wait for the hashes of `files`, names of files in the album
/// `dir`. Where every file is ready there is nothing to wait for.
/// Otherwise the files that still have to be hashed are offered to the hash
/// queue at `priority`, and the wait is for them; where any was queued,
/// `(done, total)` of the queue is returned for the progress event.
pub fn wait_for_album_hashes(
    sched: &mut Scheduler,
    album: &AlbumMeta,
    dir: &str,
    files: &Vec<String>,
    cfg: &HashConfig,
    priority: TaskPriority,
    now: u64,
) -> (r: (Option<HashWait>, Option<(usize, usize)>))
    requires
        old(sched).wf(),
        album.wf(),
    ensures
        final(sched).wf(),
        ({
            let needy = needy_upto(*album, files@, *cfg, false, files@.len() as int);
            &&& r.0 is None <==> needy.len() == 0
            &&& r.0 is None ==> r.1 is None && *final(sched) == *old(sched) && forall|i: int|
                0 <= i < files@.len() ==> entry_ready(album.entry((#[trigger] files@[i])@), *cfg)
            &&& r.0 matches Some(wait) ==> string_texts(wait.pending@) == needy && wait.last_progress
                == now && wait.last_done_total == final(sched).hash_queue.progress()
        }),
        *final(sched) == (Scheduler { hash_queue: final(sched).hash_queue, ..*old(sched) }),
        final(sched).hash_queue.work.in_progress == old(sched).hash_queue.work.in_progress,
        r.0 matches Some(wait) ==> exists|paths: Seq<String>|
            #![trigger paths.len()]
            paths.len() == wait.pending@.len() && (forall|i: int|
                0 <= i < paths.len() ==> (#[trigger] paths[i])@ == joined(dir@, wait.pending@[i]@))
                && final(sched).hash_queue.work.queue@ == crate::hash_queue::enqueue_all(
                old(sched).hash_queue.work.queue@,
                old(sched).hash_queue.work.in_progress@,
                paths,
                priority,
                paths.len() as int,
            ),
        r.1 is Some <==> final(sched).hash_queue.work.queue@.len()
            != old(sched).hash_queue.work.queue@.len(),
        r.1 matches Some(t) ==> t == final(sched).hash_queue.progress(),
{
    let pending = hashes_needed(album, files, cfg, false);
    assert(string_texts(pending@).len() == pending@.len());
    if pending.len() == 0 {
        proof {
            assert forall|i: int| 0 <= i < files@.len() implies entry_ready(
                album.entry((#[trigger] files@[i])@),
                *cfg,
            ) by {
                lemma_needy_or_ready(*album, files@, *cfg, files@.len() as int, i);
            }
        }
        return (None, None);
    }
    let paths = album_paths(dir, &pending);
    let event = sched.enqueue_hashes(&paths, priority);
    let last_done_total = sched.hash_queue.totals();
    assert(paths@.len() == pending@.len());
    (Some(HashWait { pending, last_done_total, last_progress: now }), event)
}

/// The paths whose hashing has been under way for `after` milliseconds or
/// longer at `now`.
pub open spec fn stuck_now(sched: Scheduler, now: u64, after: u64) -> Seq<Seq<char>> {
    crate::hash_queue::stuck_upto(
        sched.hash_queue.work.in_progress@,
        sched.hash_queue.started@,
        now,
        after,
        sched.hash_queue.work.in_progress@.len() as int,
    )
}

/// The record of a file that a wait has given up: as it was where nothing
/// more was to be expected for the file, else without a hash and marked as
/// failed.
pub open spec fn given_up(e: Option<FileMetaEntryView>, cfg: HashConfig) -> Option<FileMetaEntryView> {
    if entry_ready(e, cfg) {
        e
    } else {
        Some(
            FileMetaEntryView {
                hash: None,
                hash_version: None,
                hash_bits: None,
                hash_failed: true,
                ..(match e {
                    Some(e) => e,
                    None => blank_entry(),
                })
            },
        )
    }
}

/// Whether the hash queue has nothing queued and nothing under way.
pub open spec fn hash_idle(sched: Scheduler) -> bool {
    sched.hash_queue.work.queue@.len() == 0 && sched.hash_queue.work.in_progress@.len() == 0
}

impl HashWait {
    /// Whether the hash queue has stalled for this wait: work is under way,
    /// but `(done, total)` is what it was `after` milliseconds ago.
    pub open spec fn stalled(&self, sched: Scheduler, now: u64, after: u64) -> bool {
        &&& sched.hash_queue.progress() == self.last_done_total
        &&& sched.hash_queue.work.in_progress@.len() > 0
        &&& now >= self.last_progress
        &&& now - self.last_progress >= after
    }

    /// Looks at the state of the wait, with the sidecar as it is now. The
    /// names that have become ready are no longer pending. With none
    /// pending the wait is complete. Otherwise: where the hash queue has
    /// stalled for `limits.hash_stall_ms`, the work that has been under way
    /// for `limits.hash_stuck_ms` is given up: those paths are no longer
    /// worked on and count as done, and the caller marks each as failed.
    /// The wait goes on unless the queue was idle; then nothing more will
    /// come, and the caller ends the wait with `abandon`.
    pub fn poll(
        &mut self,
        sched: &mut Scheduler,
        album: &AlbumMeta,
        cfg: &HashConfig,
        limits: &PreloadSettings,
        now: u64,
    ) -> (r: WaitPoll)
        requires
            old(sched).wf(),
            album.wf(),
        ensures
            final(sched).wf(),
            string_texts(final(self).pending@) == still_pending(
                *album,
                old(self).pending@,
                *cfg,
                old(self).pending@.len() as int,
            ),
            *final(sched) == (Scheduler { hash_queue: final(sched).hash_queue, ..*old(sched) }),
            final(sched).hash_queue.work.queue == old(sched).hash_queue.work.queue,
            if final(self).pending@.len() == 0 {
                &&& r.step == WaitStep::Complete
                &&& r.forced is None
                &&& *final(sched) == *old(sched)
                &&& final(self).last_done_total == old(self).last_done_total
                &&& final(self).last_progress == old(self).last_progress
                &&& forall|i: int|
                    0 <= i < old(self).pending@.len() ==> entry_ready(
                        album.entry((#[trigger] old(self).pending@[i])@),
                        *cfg,
                    )
            } else {
                let seen = old(sched).hash_queue.progress();
                let moved = seen != old(self).last_done_total;
                let stuck = stuck_now(*old(sched), now, limits.hash_stuck_ms);
                let gave_up = old(self).stalled(*old(sched), now, limits.hash_stall_ms)
                    && stuck.len() > 0;
                &&& r.step == (if hash_idle(*old(sched)) {
                    WaitStep::Idle
                } else {
                    WaitStep::Wait
                })
                &&& r.forced is Some <==> gave_up
                &&& r.forced matches Some(t) ==> (t.0, t.1) == final(sched).hash_queue.progress()
                    && string_texts(t.2@) == stuck
                &&& !gave_up ==> final(sched).hash_queue == old(sched).hash_queue
                &&& gave_up ==> {
                    &&& forall|path: Seq<char>|
                        #![trigger final(sched).hash_queue.work.running(path)]
                        final(sched).hash_queue.work.running(path) == (old(
                            sched,
                        ).hash_queue.work.running(path) && !stuck.contains(path))
                    &&& forall|path: Seq<char>|
                        #![trigger record_of(final(sched).hash_queue.started@, path)]
                        record_of(final(sched).hash_queue.started@, path) == (if stuck.contains(
                            path,
                        ) {
                            None
                        } else {
                            record_of(old(sched).hash_queue.started@, path)
                        })
                    &&& final(sched).hash_queue.done == (if old(sched).hash_queue.done + stuck.len()
                        > usize::MAX {
                        usize::MAX
                    } else {
                        (old(sched).hash_queue.done + stuck.len()) as usize
                    })
                }
                &&& final(self).last_done_total == (if moved {
                    seen
                } else if gave_up {
                    final(sched).hash_queue.progress()
                } else {
                    old(self).last_done_total
                })
                &&& final(self).last_progress == (if moved || gave_up {
                    now
                } else {
                    old(self).last_progress
                })
            },
    {
        let ghost before = self.pending@;
        let mut kept: Vec<String> = Vec::new();
        let mut i: usize = 0;
        assert(string_texts(kept@) =~= still_pending(*album, before, *cfg, 0));
        while i < self.pending.len()
            invariant
                i <= self.pending@.len(),
                self.pending@ == before,
                album.wf(),
                string_texts(kept@) == still_pending(*album, before, *cfg, i as int),
            decreases self.pending@.len() - i,
        {
            let ghost kept_before = kept@;
            if !hash_entry_ready(album.get(self.pending[i].as_str()), cfg) {
                kept.push(self.pending[i].clone());
                assert(string_texts(kept@) =~= string_texts(kept_before).push(before[i as int]@));
            }
            i += 1;
        }
        self.pending = kept;
        assert(string_texts(self.pending@).len() == self.pending@.len());
        if self.pending.len() == 0 {
            proof {
                lemma_none_pending(*album, before, *cfg, before.len() as int);
            }
            return WaitPoll { step: WaitStep::Complete, forced: None };
        }
        let queued: usize = sched.hash_queue.work.queue.len();
        let in_progress: usize = sched.hash_queue.work.in_progress.len();
        let (done, total) = sched.hash_queue.totals();
        let mut forced: Option<(usize, usize, Vec<String>)> = None;
        if done != self.last_done_total.0 || total != self.last_done_total.1 {
            self.last_done_total = (done, total);
            self.last_progress = now;
        } else if in_progress > 0 && now >= self.last_progress && now - self.last_progress
            >= limits.hash_stall_ms {
            forced = sched.hash_queue.fail_in_progress(now, limits.hash_stuck_ms);
            match &forced {
                Some(t) => {
                    self.last_done_total = (t.0, t.1);
                    self.last_progress = now;
                },
                None => {},
            }
        }
        let step = if queued == 0 && in_progress == 0 {
            WaitStep::Idle
        } else {
            WaitStep::Wait
        };
        WaitPoll { step, forced }
    }

    /// Ends a wait for which nothing more will come: each file that is
    /// still pending, and for which the sidecar as it is now still holds
    /// nothing, is marked as failed. Afterwards nothing is pending, and
    /// every file that was is ready.
    pub fn abandon(&mut self, album: &mut AlbumMeta, cfg: &HashConfig)
        requires
            old(album).wf(),
        ensures
            final(album).wf(),
            final(self).pending@.len() == 0,
            final(self).last_done_total == old(self).last_done_total,
            final(self).last_progress == old(self).last_progress,
            final(album).duplicates_ignore == old(album).duplicates_ignore,
            forall|name: Seq<char>|
                final(album).entry(name) == (if holds(old(self).pending@, name) {
                    given_up(old(album).entry(name), *cfg)
                } else {
                    old(album).entry(name)
                }),
            forall|i: int|
                0 <= i < old(self).pending@.len() ==> entry_ready(
                    final(album).entry((#[trigger] old(self).pending@[i])@),
                    *cfg,
                ),
            still_pending(
                *final(album),
                old(self).pending@,
                *cfg,
                old(self).pending@.len() as int,
            ).len() == 0,
            old(album).hashes_agree() ==> final(album).hashes_agree(),
    {
        let ghost names = self.pending@;
        let mut i: usize = 0;
        while i < self.pending.len()
            invariant
                i <= names.len(),
                self.pending@ == names,
                album.wf(),
                album.duplicates_ignore == old(album).duplicates_ignore,
                old(album).hashes_agree() ==> album.hashes_agree(),
                forall|name: Seq<char>|
                    album.entry(name) == (if holds(names.take(i as int), name) {
                        given_up(old(album).entry(name), *cfg)
                    } else {
                        old(album).entry(name)
                    }),
            decreases names.len() - i,
        {
            let ghost before = *album;
            let ghost this = names[i as int]@;
            if !hash_entry_ready(album.get(self.pending[i].as_str()), cfg) {
                mark_hash_failed(album, self.pending[i].as_str());
            }
            proof {
                let seen = names.take(i as int);
                let more = names.take(i + 1);
                assert(more =~= seen.push(names[i as int]));
                assert forall|name: Seq<char>|
                    album.entry(name) == (if holds(more, name) {
                        given_up(old(album).entry(name), *cfg)
                    } else {
                        old(album).entry(name)
                    }) by {
                    if holds(seen, name) {
                        let k = choose|k: int| 0 <= k < seen.len() && (#[trigger] seen[k])@ == name;
                        assert(more[k]@ == name);
                    }
                    if holds(more, name) && name != this {
                        let k = choose|k: int| 0 <= k < more.len() && (#[trigger] more[k])@ == name;
                        assert(seen[k]@ == name);
                    }
                    if name == this {
                        assert(more[i as int]@ == this);
                    }
                }
            }
            i += 1;
        }
        assert(names.take(names.len() as int) =~= names);
        proof {
            assert forall|k: int| 0 <= k < names.len() implies entry_ready(
                album.entry((#[trigger] names[k])@),
                *cfg,
            ) by {
                assert(holds(names, names[k]@));
            }
            lemma_all_ready(*album, names, *cfg, names.len() as int);
        }
        self.pending = Vec::new();
    }
}

/// A wait ends only when every file it was begun for is ready: each was
/// ready in the sidecar as it was when the wait began, or is ready in the
/// sidecar as it is when the wait ends, be it that the wait was complete or
/// that it was abandoned. Ready is a file whose hashing is marked as failed
/// or for which the sidecar holds bits that a scan can use.
pub proof fn lemma_wait_complete(
    begun: AlbumMeta,
    ended: AlbumMeta,
    files: Seq<String>,
    pending: Seq<String>,
    cfg: HashConfig,
    i: int,
)
    requires
        0 <= i < files.len(),
        string_texts(pending) == needy_upto(begun, files, cfg, false, files.len() as int),
        still_pending(ended, pending, cfg, pending.len() as int).len() == 0,
    ensures
        entry_ready(begun.entry(files[i]@), cfg) || entry_ready(ended.entry(files[i]@), cfg),
        ({
            let name = files[i]@;
            ||| begun.entry_or_blank(name).hash_failed
            ||| cached_bits(begun.entry(name), cfg) is Some
            ||| ended.entry_or_blank(name).hash_failed
            ||| cached_bits(ended.entry(name), cfg) is Some
        }),
{
    lemma_needy_or_ready(begun, files, cfg, files.len() as int, i);
    if !entry_ready(begun.entry(files[i]@), cfg) {
        let needy = needy_upto(begun, files, cfg, false, files.len() as int);
        let k = choose|k: int| 0 <= k < needy.len() && needy[k] == files[i]@;
        assert(string_texts(pending)[k] == pending[k]@);
        lemma_none_pending(ended, pending, cfg, pending.len() as int);
        assert(entry_ready(ended.entry(pending[k]@), cfg));
    }
}

} // verus!
