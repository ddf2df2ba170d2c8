//! The work scheduler: queues, counters, stages, and the rules by which
//! listing requests and background work meet.

use crate::hash_queue::HashQueue;
use crate::metadata::{is_meta_failed, is_thumb_failed, AlbumMeta};
use crate::paths::{is_under, starts_with};
use crate::queue::{
    distinct, holds, insert_path, lemma_paths_outside_distinct, outside, paths_outside,
    position_of, remove_path, retain_outside, TaskPriority, WorkQueue,
};
use crate::text::str_eq;
use vstd::prelude::*;

verus! {

/// The class of work that progress is reported for.
#[derive(Clone, Copy, Debug, PartialEq, Eq)]
pub enum PreloadStage {
    Conversion,
    Thumbnails,
    Metadata,
    Idle,
}

impl PreloadStage {
    /// The number that stands for a stage.
    pub fn as_u8(self) -> (n: u8)
        ensures
            n == match self {
                PreloadStage::Conversion => 0u8,
                PreloadStage::Thumbnails => 1u8,
                PreloadStage::Metadata => 2u8,
                PreloadStage::Idle => 3u8,
            },
    {
        match self {
            PreloadStage::Conversion => 0,
            PreloadStage::Thumbnails => 1,
            PreloadStage::Metadata => 2,
            PreloadStage::Idle => 3,
        }
    }

    /// The stage that a number stands for; any number above 2 stands for
    /// idle.
    pub fn from_u8(value: u8) -> (stage: PreloadStage)
        ensures
            stage == match value {
                0u8 => PreloadStage::Conversion,
                1u8 => PreloadStage::Thumbnails,
                2u8 => PreloadStage::Metadata,
                _ => PreloadStage::Idle,
            },
    {
        match value {
            0 => PreloadStage::Conversion,
            1 => PreloadStage::Thumbnails,
            2 => PreloadStage::Metadata,
            _ => PreloadStage::Idle,
        }
    }
}

/// How far one class of work has come.
#[derive(Clone, Copy, Debug, PartialEq, Eq)]
pub struct StageProgress {
    pub completed: usize,
    pub total: usize,
}

/// A progress event.
#[derive(Clone, Copy, Debug, PartialEq, Eq)]
pub struct PreloadProgressPayload {
    pub stage: PreloadStage,
    pub stage_progress: StageProgress,
    pub overall_completed: usize,
    pub overall_total: usize,
    /// Percent of the overall work that is done, 0 to 100.
    pub progress: usize,
    pub conversions: StageProgress,
    pub thumbnails: StageProgress,
    pub metadata: StageProgress,
    pub active_actions: usize,
}

/// What a thumbnail task carries.
#[derive(Debug, PartialEq, Eq)]
pub struct ThumbTask {
    pub thumb_dir: String,
}

/// The percentage of `total` that `completed` is, at most 100, and 0 where
/// there is nothing to do.
pub open spec fn percent(completed: usize, total: usize) -> usize {
    if total == 0 {
        0
    } else if completed * 100 / (total as int) > 100 {
        100
    } else {
        (completed * 100 / (total as int)) as usize
    }
}

/// The percentage of `total` that `completed` is.
pub fn percent_of(completed: usize, total: usize) -> (p: usize)
    ensures
        p == percent(completed, total),
{
    if total == 0 {
        return 0;
    }
    let scaled: u128 = completed as u128 * 100;
    let ratio: u128 = scaled / (total as u128);
    if ratio > 100 {
        100
    } else {
        ratio as usize
    }
}

/// Whether time enough has passed since the last progress event: at least
/// `min_interval` milliseconds, or there was none yet.
pub open spec fn interval_passed(last: Option<u64>, now: u64, min_interval: u64) -> bool {
    match last {
        Some(t) => (if now >= t {
            now - t
        } else {
            0
        }) >= min_interval,
        None => true,
    }
}

/// The state of the scheduler: the active root, the albums that wait for
/// the preload driver and those it has done, the counters of progress, and
/// the three queues of file work.
pub struct Scheduler {
    pub active_root: Option<String>,
    /// The albums that the driver has processed.
    pub preloaded: Vec<String>,
    /// The albums that wait for the driver, the next one first.
    pub preload_queue: Vec<String>,
    pub preloader_running: bool,
    /// Counts the requests to abandon the album that the driver works on: a
    /// pass over an album is cancelled once this differs from what it was
    /// when the pass began.
    pub cancel_epoch: u64,
    pub done_thumbs: usize,
    pub done_meta: usize,
    pub stage: PreloadStage,
    pub conversions_total: usize,
    pub conversions_done: usize,
    /// The albums whose thumbnails are to be hashed once the pools are idle.
    pub thumb_hash_albums: Vec<String>,
    pub thumb_hash_done_once: bool,
    /// The files whose hashing failed, each with the modification time that
    /// its thumbnail had then.
    pub thumb_hash_failed: Vec<(String, i128)>,
    /// When the last progress event was emitted, in milliseconds.
    pub last_progress_emit: Option<u64>,
    pub allow_open: bool,
    pub thumb_work: WorkQueue<ThumbTask>,
    pub meta_work: WorkQueue<()>,
    pub hash_queue: HashQueue,
}

impl Scheduler {
    /// The queues and lists hold no path twice.
    pub open spec fn wf(&self) -> bool {
        &&& self.thumb_work.wf()
        &&& self.meta_work.wf()
        &&& self.hash_queue.work.wf()
        &&& distinct(self.preloaded@)
        &&& distinct(self.preload_queue@)
        &&& distinct(self.thumb_hash_albums@)
    }

    /// Work done and work known, over conversions, thumbnails and metadata.
    pub open spec fn totals(&self) -> (usize, usize) {
        (
            self.conversions_done.saturating_add(self.done_thumbs).saturating_add(self.done_meta),
            self.conversions_total.saturating_add(self.done_thumbs).saturating_add(
                self.thumb_work.load() as usize,
            ).saturating_add(self.done_meta).saturating_add(self.meta_work.load() as usize),
        )
    }

    /// The number of pieces of work that are waiting or running.
    pub open spec fn actions(&self) -> usize {
        self.conversions_total.saturating_sub(self.conversions_done).saturating_add(
            self.thumb_work.load() as usize,
        ).saturating_add(self.meta_work.load() as usize)
    }

    /// How far the work of one stage has come; for the idle stage, how far
    /// all of it has.
    pub open spec fn counts(&self, stage: PreloadStage) -> StageProgress {
        match stage {
            PreloadStage::Conversion => StageProgress {
                completed: self.conversions_done,
                total: self.conversions_total,
            },
            PreloadStage::Thumbnails => StageProgress {
                completed: self.done_thumbs,
                total: self.done_thumbs.saturating_add(self.thumb_work.load() as usize),
            },
            PreloadStage::Metadata => StageProgress {
                completed: self.done_meta,
                total: self.done_meta.saturating_add(self.meta_work.load() as usize),
            },
            PreloadStage::Idle => StageProgress {
                completed: self.totals().0,
                total: self.totals().1,
            },
        }
    }

    /// The progress event of a stage.
    pub open spec fn payload(&self, stage: PreloadStage) -> PreloadProgressPayload {
        PreloadProgressPayload {
            stage,
            stage_progress: self.counts(stage),
            overall_completed: self.totals().0,
            overall_total: self.totals().1,
            progress: percent(self.totals().0, self.totals().1),
            conversions: self.counts(PreloadStage::Conversion),
            thumbnails: self.counts(PreloadStage::Thumbnails),
            metadata: self.counts(PreloadStage::Metadata),
            active_actions: self.actions(),
        }
    }

    /// The stage that has work left: conversions before thumbnails before
    /// metadata, idle where none has.
    pub open spec fn stage_now(&self) -> PreloadStage {
        if self.conversions_total > self.conversions_done {
            PreloadStage::Conversion
        } else if self.thumb_work.load() > 0 {
            PreloadStage::Thumbnails
        } else if self.meta_work.load() > 0 {
            PreloadStage::Metadata
        } else {
            PreloadStage::Idle
        }
    }

    /// Whether `path` may be worked on: it lies under the active root, or
    /// no root is active.
    pub open spec fn admits(&self, path: Seq<char>) -> bool {
        match self.active_root {
            Some(root) => is_under(path, root@),
            None => true,
        }
    }

    /// The stage that a progress report moves to.
    pub open spec fn next_stage(&self, stage: Option<PreloadStage>) -> PreloadStage {
        match stage {
            Some(s) => s,
            None => self.stage_now(),
        }
    }

    /// Whether a progress report leads to an event.
    pub open spec fn event_due(&self, stage: Option<PreloadStage>, now: u64, min_interval: u64) -> bool {
        self.next_stage(stage) != self.stage || interval_passed(
            self.last_progress_emit,
            now,
            min_interval,
        )
    }

    /// The scheduler after a progress report.
    pub open spec fn after_emit(
        &self,
        stage: Option<PreloadStage>,
        now: u64,
        min_interval: u64,
    ) -> Scheduler {
        Scheduler {
            stage: self.next_stage(stage),
            last_progress_emit: if self.event_due(stage, now, min_interval) {
                Some(now)
            } else {
                self.last_progress_emit
            },
            ..*self
        }
    }

    /// The event that a progress report leads to.
    pub open spec fn event_of(&self, stage: Option<PreloadStage>, now: u64, min_interval: u64) -> Option<
        PreloadProgressPayload,
    > {
        if self.event_due(stage, now, min_interval) {
            Some(self.payload(self.next_stage(stage)))
        } else {
            None
        }
    }

    /// A scheduler with nothing to do.
    pub fn new() -> (s: Scheduler)
        ensures
            s.wf(),
            s.active_root is None,
            s.stage == PreloadStage::Idle,
            s.totals() == (0usize, 0usize),
            !s.preloader_running,
    {
        Scheduler {
            active_root: None,
            preloaded: Vec::new(),
            preload_queue: Vec::new(),
            preloader_running: false,
            cancel_epoch: 0,
            done_thumbs: 0,
            done_meta: 0,
            stage: PreloadStage::Idle,
            conversions_total: 0,
            conversions_done: 0,
            thumb_hash_albums: Vec::new(),
            thumb_hash_done_once: false,
            thumb_hash_failed: Vec::new(),
            last_progress_emit: None,
            allow_open: false,
            thumb_work: WorkQueue::new(),
            meta_work: WorkQueue::new(),
            hash_queue: HashQueue::new(),
        }
    }

    /// Work done and work known.
    pub fn combined_progress_totals(&self) -> (r: (usize, usize))
        ensures
            r == self.totals(),
    {
        let completed = self.conversions_done.saturating_add(self.done_thumbs).saturating_add(
            self.done_meta,
        );
        let total = self.conversions_total.saturating_add(self.done_thumbs).saturating_add(
            self.thumb_work.outstanding(),
        ).saturating_add(self.done_meta).saturating_add(self.meta_work.outstanding());
        (completed, total)
    }

    /// The number of pieces of work that are waiting or running.
    pub fn active_actions(&self) -> (n: usize)
        ensures
            n == self.actions(),
    {
        self.conversions_total.saturating_sub(self.conversions_done).saturating_add(
            self.thumb_work.outstanding(),
        ).saturating_add(self.meta_work.outstanding())
    }

    /// How far the work of one stage has come.
    pub fn stage_counts(&self, stage: PreloadStage) -> (r: StageProgress)
        ensures
            r == self.counts(stage),
    {
        match stage {
            PreloadStage::Conversion => StageProgress {
                completed: self.conversions_done,
                total: self.conversions_total,
            },
            PreloadStage::Thumbnails => StageProgress {
                completed: self.done_thumbs,
                total: self.done_thumbs.saturating_add(self.thumb_work.outstanding()),
            },
            PreloadStage::Metadata => StageProgress {
                completed: self.done_meta,
                total: self.done_meta.saturating_add(self.meta_work.outstanding()),
            },
            PreloadStage::Idle => {
                let (completed, total) = self.combined_progress_totals();
                StageProgress { completed, total }
            },
        }
    }

    /// The progress event of a stage.
    pub fn build_progress_payload(&self, stage: PreloadStage) -> (r: PreloadProgressPayload)
        ensures
            r == self.payload(stage),
    {
        let (overall_completed, overall_total) = self.combined_progress_totals();
        PreloadProgressPayload {
            stage,
            stage_progress: self.stage_counts(stage),
            overall_completed,
            overall_total,
            progress: percent_of(overall_completed, overall_total),
            conversions: self.stage_counts(PreloadStage::Conversion),
            thumbnails: self.stage_counts(PreloadStage::Thumbnails),
            metadata: self.stage_counts(PreloadStage::Metadata),
            active_actions: self.active_actions(),
        }
    }

    /// The stage that has work left.
    pub fn current_stage(&self) -> (stage: PreloadStage)
        ensures
            stage == self.stage_now(),
    {
        if self.conversions_total.saturating_sub(self.conversions_done) > 0 {
            PreloadStage::Conversion
        } else if self.thumb_work.outstanding() > 0 {
            PreloadStage::Thumbnails
        } else if self.meta_work.outstanding() > 0 {
            PreloadStage::Metadata
        } else {
            PreloadStage::Idle
        }
    }

    /// Moves to `stage`, or to the stage that has work left where none is
    /// given, and decides whether a progress event is due: on a change of
    /// stage always, else once `min_interval` milliseconds have passed since
    /// the last one. The event that is due is returned.
    pub fn emit_progress(&mut self, stage: Option<PreloadStage>, now: u64, min_interval: u64) -> (event:
        Option<PreloadProgressPayload>)
        ensures
            *final(self) == old(self).after_emit(stage, now, min_interval),
            event == old(self).event_of(stage, now, min_interval),
    {
        let prev = self.stage;
        let next: PreloadStage = match stage {
            Some(s) => s,
            None => self.current_stage(),
        };
        self.stage = next;
        let changed: bool = next.as_u8() != prev.as_u8();
        let passed: bool = match self.last_progress_emit {
            Some(t) => (if now >= t {
                now - t
            } else {
                0
            }) >= min_interval,
            None => true,
        };
        if !(changed || passed) {
            return None;
        }
        self.last_progress_emit = Some(now);
        Some(self.build_progress_payload(next))
    }

    /// Whether an album lacks one of its two artifact directories.
    pub fn artifacts_missing(thumb_dir_exists: bool, meta_dir_exists: bool) -> (r: bool)
        ensures
            r == (!thumb_dir_exists || !meta_dir_exists),
    {
        !thumb_dir_exists || !meta_dir_exists
    }

    /// Whether `path` may be worked on.
    pub fn under_active_root(&self, path: &str) -> (r: bool)
        ensures
            r == self.admits(path@),
    {
        match &self.active_root {
            Some(root) => starts_with(path, root.as_str()),
            None => true,
        }
    }

    /// Forgets all transient state: every queue is emptied, no album counts
    /// as preloaded, the counters start from zero, and the pass over the
    /// album that the driver works on is cancelled. An idle progress event
    /// is due at once.
    pub fn reset_preload_state(&mut self, now: u64) -> (event: PreloadProgressPayload)
        ensures
            final(self).wf(),
            final(self).active_root == old(self).active_root,
            final(self).allow_open == old(self).allow_open,
            final(self).thumb_hash_done_once == old(self).thumb_hash_done_once,
            final(self).cancel_epoch != old(self).cancel_epoch,
            !final(self).preloader_running,
            final(self).preloaded@.len() == 0,
            final(self).preload_queue@.len() == 0,
            final(self).thumb_work.queue@.len() == 0,
            final(self).thumb_work.in_progress@.len() == 0,
            final(self).meta_work.queue@.len() == 0,
            final(self).meta_work.in_progress@.len() == 0,
            final(self).hash_queue.work.queue@.len() == 0,
            final(self).hash_queue.work.in_progress@.len() == 0,
            final(self).hash_queue.done == 0,
            final(self).thumb_hash_albums@.len() == 0,
            final(self).thumb_hash_failed@.len() == 0,
            final(self).done_thumbs == 0,
            final(self).done_meta == 0,
            final(self).conversions_total == 0,
            final(self).conversions_done == 0,
            final(self).stage == PreloadStage::Idle,
            final(self).last_progress_emit == Some(now),
            event == final(self).payload(PreloadStage::Idle),
            event.overall_total == 0 && event.active_actions == 0,
    {
        self.cancel_epoch = self.cancel_epoch.wrapping_add(1);
        self.preloader_running = false;
        self.preload_queue = Vec::new();
        self.preloaded = Vec::new();
        self.thumb_work.clear();
        self.meta_work.clear();
        let hash_workers = self.hash_queue.work.started_workers;
        self.hash_queue = HashQueue::new();
        self.hash_queue.work.started_workers = hash_workers;
        self.done_thumbs = 0;
        self.done_meta = 0;
        self.conversions_total = 0;
        self.conversions_done = 0;
        self.last_progress_emit = None;
        self.thumb_hash_albums = Vec::new();
        self.thumb_hash_failed = Vec::new();
        self.stage = PreloadStage::Idle;
        match self.emit_progress(Some(PreloadStage::Idle), now, 0) {
            Some(event) => event,
            None => self.build_progress_payload(PreloadStage::Idle),
        }
    }

    /// Makes `root` the active root. Where it was active already, nothing
    /// happens; otherwise all transient state is forgotten, as
    /// `reset_preload_state` does it: queues and sets are emptied, the
    /// counters start from zero, and an idle progress event is due.
    pub fn set_active_root(&mut self, root: &str, now: u64) -> (event: Option<PreloadProgressPayload>)
        requires
            old(self).wf(),
        ensures
            final(self).wf(),
            final(self).active_root matches Some(r) && r@ == root@,
            match old(self).active_root {
                Some(r) => r@ == root@,
                None => false,
            } ==> event is None && *final(self) == *old(self),
            !(match old(self).active_root {
                Some(r) => r@ == root@,
                None => false,
            }) ==> {
                &&& event == Some(final(self).payload(PreloadStage::Idle))
                &&& final(self).thumb_work.queue@.len() == 0
                &&& final(self).thumb_work.in_progress@.len() == 0
                &&& final(self).meta_work.queue@.len() == 0
                &&& final(self).meta_work.in_progress@.len() == 0
                &&& final(self).hash_queue.work.queue@.len() == 0
                &&& final(self).hash_queue.work.in_progress@.len() == 0
                &&& final(self).preload_queue@.len() == 0
                &&& final(self).preloaded@.len() == 0
                &&& final(self).cancel_epoch != old(self).cancel_epoch
                &&& !final(self).preloader_running
                &&& final(self).stage == PreloadStage::Idle
                &&& final(self).done_thumbs == 0
                &&& final(self).done_meta == 0
                &&& final(self).conversions_total == 0
                &&& final(self).conversions_done == 0
                &&& final(self).hash_queue.done == 0
                &&& final(self).thumb_hash_albums@.len() == 0
                &&& final(self).thumb_hash_failed@.len() == 0
                &&& final(self).last_progress_emit == Some(now)
                &&& final(self).allow_open == old(self).allow_open
                &&& final(self).thumb_hash_done_once == old(self).thumb_hash_done_once
                &&& event->0.overall_total == 0 && event->0.active_actions == 0
            },
    {
        let same: bool = match &self.active_root {
            Some(r) => str_eq(r.as_str(), root),
            None => false,
        };
        if same {
            return None;
        }
        self.active_root = Some(root.to_owned());
        Some(self.reset_preload_state(now))
    }
}

/// After a change of the active root, work for a path outside the new root
/// is not admitted: a worker that took such a task drops it.
pub proof fn lemma_root_gates_work(s: Scheduler, root: Seq<char>, path: Seq<char>)
    requires
        s.active_root matches Some(r) && r@ == root,
        !is_under(path, root),
    ensures
        !s.admits(path),
{
}

/// What became of a task that a worker took.
#[derive(Clone, Copy, Debug, PartialEq, Eq)]
pub enum TaskOutcome {
    /// The task was dropped without work.
    Skipped,
    /// The work was done.
    Succeeded,
    /// The work failed.
    Failed,
}

/// What is due when a pool may have run dry.
#[derive(Clone, Copy, Debug, PartialEq, Eq)]
pub struct PoolEnd {
    /// The idle progress event, where one is due.
    pub event: Option<PreloadProgressPayload>,
    /// Whether the thumbnails of the processed albums are to be queued for
    /// hashing now.
    pub scan_due: bool,
}

/// What is due after a worker is through with a task.
#[derive(Clone, Copy, Debug, PartialEq, Eq)]
pub struct TaskEnd {
    /// What the end of the pool's work brought, where the queue ran dry.
    pub end: PoolEnd,
    /// The progress event of the task itself, where one is due.
    pub progress: Option<PreloadProgressPayload>,
}

/// What the preload driver does next.
#[derive(Debug, PartialEq, Eq)]
pub enum DriverStep {
    /// Process this album; the pass is cancelled once the scheduler's cancel
    /// count differs from `epoch`.
    Album { dir: String, epoch: u64 },
    /// Nothing is left: the driver stops.
    Stop,
}

/// What queueing the work of one file brought.
#[derive(Clone, Copy, Debug, PartialEq, Eq)]
pub struct FilePlan {
    pub thumb_queued: bool,
    pub thumb_event: Option<PreloadProgressPayload>,
    pub meta_queued: bool,
    pub meta_event: Option<PreloadProgressPayload>,
}

/// The events that are due after queued work was dropped.
#[derive(Clone, Copy, Debug, PartialEq, Eq)]
pub struct DropEvents {
    pub thumbs: Option<PreloadProgressPayload>,
    pub metadata: Option<PreloadProgressPayload>,
    /// `(done, total)` of the hash queue, where hash work was dropped.
    pub hashes: Option<(usize, usize)>,
}

impl Scheduler {
    /// Whether the pools of thumbnails and metadata are at rest and the
    /// driver has stopped.
    pub open spec fn at_rest(&self) -> bool {
        !self.preloader_running && self.thumb_work.queue@.len() == 0
            && self.thumb_work.in_progress@.len() == 0 && self.meta_work.queue@.len() == 0
            && self.meta_work.in_progress@.len() == 0
    }

    /// The scheduler with the counts of finished thumbnails and metadata
    /// back at zero, in the idle stage.
    pub open spec fn rested(&self) -> Scheduler {
        Scheduler { done_thumbs: 0, done_meta: 0, stage: PreloadStage::Idle, ..*self }
    }

    /// The scheduler after the end of the pools' work was looked at.
    pub open spec fn after_end(&self, now: u64, min_interval: u64) -> Scheduler {
        if self.at_rest() {
            self.rested().after_emit(Some(PreloadStage::Idle), now, min_interval)
        } else {
            *self
        }
    }

    /// What a look at the end of the pools' work brings.
    pub open spec fn end_of(&self, now: u64, min_interval: u64) -> PoolEnd {
        if self.at_rest() {
            PoolEnd {
                event: self.rested().event_of(Some(PreloadStage::Idle), now, min_interval),
                scan_due: self.hash_queue.work.queue@.len() == 0
                    && self.hash_queue.work.in_progress@.len() == 0,
            }
        } else {
            PoolEnd { event: None, scan_due: false }
        }
    }

    /// Where the thumbnail and metadata pools are at rest and the driver has
    /// stopped, the counts of finished work start again from zero and an
    /// idle progress report is made; the thumbnails of the processed albums
    /// are then due for hashing unless hash work is under way. Otherwise
    /// nothing happens.
    pub fn try_emit_end(&mut self, now: u64, min_interval: u64) -> (end: PoolEnd)
        ensures
            *final(self) == old(self).after_end(now, min_interval),
            end == old(self).end_of(now, min_interval),
    {
        if self.preloader_running || self.thumb_work.has_work() || self.meta_work.has_work() {
            return PoolEnd { event: None, scan_due: false };
        }
        self.done_thumbs = 0;
        self.done_meta = 0;
        self.stage = PreloadStage::Idle;
        let event = self.emit_progress(Some(PreloadStage::Idle), now, min_interval);
        let scan_due = !self.hash_queue.has_work();
        PoolEnd { event, scan_due }
    }

    /// Whether a worker is to work on the task it took: the path lies under
    /// the active root and the work is not marked as failed.
    pub fn admit_task(&self, path: &str, failed: bool) -> (run: bool)
        ensures
            run == (self.admits(path@) && !failed),
    {
        self.under_active_root(path) && !failed
    }

    /// Queues the thumbnail of `path`, unless making it is marked as failed
    /// or the path is tracked already. Where it was queued, a progress
    /// report is made.
    pub fn enqueue_thumb_task(
        &mut self,
        path: String,
        thumb_dir: String,
        thumb_failed: bool,
        priority: TaskPriority,
        now: u64,
        min_interval: u64,
    ) -> (r: (bool, Option<PreloadProgressPayload>))
        requires
            old(self).wf(),
        ensures
            final(self).wf(),
            r.0 == (!thumb_failed && !old(self).thumb_work.known(path@)),
            final(self).thumb_work.queue@ == (if !r.0 {
                old(self).thumb_work.queue@
            } else if priority == TaskPriority::High {
                seq![(path, ThumbTask { thumb_dir })] + old(self).thumb_work.queue@
            } else {
                old(self).thumb_work.queue@.push((path, ThumbTask { thumb_dir }))
            }),
            final(self).thumb_work.in_progress == old(self).thumb_work.in_progress,
            final(self).thumb_work.started_workers == old(self).thumb_work.started_workers,
            ({
                let queued = Scheduler { thumb_work: final(self).thumb_work, ..*old(self) };
                if r.0 {
                    *final(self) == queued.after_emit(None, now, min_interval) && r.1
                        == queued.event_of(None, now, min_interval)
                } else {
                    *final(self) == queued && r.1 is None
                }
            }),
    {
        if thumb_failed {
            return (false, None);
        }
        if self.thumb_work.enqueue(path, ThumbTask { thumb_dir }, priority) {
            let event = self.emit_progress(None, now, min_interval);
            return (true, event);
        }
        (false, None)
    }

    /// Queues the metadata of `path`, unless reading it is marked as failed
    /// or the path is tracked already. Where it was queued, a progress
    /// report is made.
    pub fn enqueue_meta_task(
        &mut self,
        path: String,
        meta_failed: bool,
        priority: TaskPriority,
        now: u64,
        min_interval: u64,
    ) -> (r: (bool, Option<PreloadProgressPayload>))
        requires
            old(self).wf(),
        ensures
            final(self).wf(),
            r.0 == (!meta_failed && !old(self).meta_work.known(path@)),
            final(self).meta_work.queue@ == (if !r.0 {
                old(self).meta_work.queue@
            } else if priority == TaskPriority::High {
                seq![(path, ())] + old(self).meta_work.queue@
            } else {
                old(self).meta_work.queue@.push((path, ()))
            }),
            final(self).meta_work.in_progress == old(self).meta_work.in_progress,
            final(self).meta_work.started_workers == old(self).meta_work.started_workers,
            ({
                let queued = Scheduler { meta_work: final(self).meta_work, ..*old(self) };
                if r.0 {
                    *final(self) == queued.after_emit(None, now, min_interval) && r.1
                        == queued.event_of(None, now, min_interval)
                } else {
                    *final(self) == queued && r.1 is None
                }
            }),
    {
        if meta_failed {
            return (false, None);
        }
        if self.meta_work.enqueue(path, (), priority) {
            let event = self.emit_progress(None, now, min_interval);
            return (true, event);
        }
        (false, None)
    }

    /// Ends a thumbnail task. Work that succeeded is counted. Where the
    /// queue ran dry, the end of the pool's work is looked at. Then a
    /// progress report is made: for the thumbnail stage after work, for the
    /// stage that has work left after a task that was dropped.
    pub fn thumb_task_done(
        &mut self,
        path: &str,
        outcome: TaskOutcome,
        now: u64,
        min_interval: u64,
    ) -> (r:
        TaskEnd)
        requires
            old(self).wf(),
        ensures
            final(self).wf(),
            !final(self).thumb_work.running(path@),
            forall|other: Seq<char>|
                other != path@
                    ==> final(self).thumb_work.running(other) == old(self).thumb_work.running(other),
            final(self).thumb_work.queue == old(self).thumb_work.queue,
            final(self).thumb_work.started_workers == old(self).thumb_work.started_workers,
            ({
                let counted = Scheduler {
                    done_thumbs: if outcome == TaskOutcome::Succeeded {
                        old(self).done_thumbs.wrapping_add(1)
                    } else {
                        old(self).done_thumbs
                    },
                    thumb_work: final(self).thumb_work,
                    ..*old(self)
                };
                let dry = final(self).thumb_work.queue@.len() == 0
                    && final(self).thumb_work.in_progress@.len() == 0;
                let ended = if dry {
                    counted.after_end(now, min_interval)
                } else {
                    counted
                };
                let stage = if outcome == TaskOutcome::Skipped {
                    None
                } else {
                    Some(PreloadStage::Thumbnails)
                };
                &&& *final(self) == ended.after_emit(stage, now, min_interval)
                &&& r.progress == ended.event_of(stage, now, min_interval)
                &&& r.end == (if dry {
                    counted.end_of(now, min_interval)
                } else {
                    PoolEnd { event: None, scan_due: false }
                })
            }),
    {
        match outcome {
            TaskOutcome::Succeeded => {
                self.done_thumbs = self.done_thumbs.wrapping_add(1);
            },
            _ => {},
        }
        let idle = self.thumb_work.mark_done(path);
        let end = if idle {
            self.try_emit_end(now, min_interval)
        } else {
            PoolEnd { event: None, scan_due: false }
        };
        let progress = match outcome {
            TaskOutcome::Skipped => self.emit_progress(None, now, min_interval),
            _ => self.emit_progress(Some(PreloadStage::Thumbnails), now, min_interval),
        };
        TaskEnd { end, progress }
    }

    /// Ends a metadata task, as `thumb_task_done` ends a thumbnail task.
    pub fn meta_task_done(
        &mut self,
        path: &str,
        outcome: TaskOutcome,
        now: u64,
        min_interval: u64,
    ) -> (r:
        TaskEnd)
        requires
            old(self).wf(),
        ensures
            final(self).wf(),
            !final(self).meta_work.running(path@),
            forall|other: Seq<char>|
                other != path@
                    ==> final(self).meta_work.running(other) == old(self).meta_work.running(other),
            final(self).meta_work.queue == old(self).meta_work.queue,
            final(self).meta_work.started_workers == old(self).meta_work.started_workers,
            ({
                let counted = Scheduler {
                    done_meta: if outcome == TaskOutcome::Succeeded {
                        old(self).done_meta.wrapping_add(1)
                    } else {
                        old(self).done_meta
                    },
                    meta_work: final(self).meta_work,
                    ..*old(self)
                };
                let dry = final(self).meta_work.queue@.len() == 0
                    && final(self).meta_work.in_progress@.len() == 0;
                let ended = if dry {
                    counted.after_end(now, min_interval)
                } else {
                    counted
                };
                let stage = if outcome == TaskOutcome::Skipped {
                    None
                } else {
                    Some(PreloadStage::Metadata)
                };
                &&& *final(self) == ended.after_emit(stage, now, min_interval)
                &&& r.progress == ended.event_of(stage, now, min_interval)
                &&& r.end == (if dry {
                    counted.end_of(now, min_interval)
                } else {
                    PoolEnd { event: None, scan_due: false }
                })
            }),
    {
        match outcome {
            TaskOutcome::Succeeded => {
                self.done_meta = self.done_meta.wrapping_add(1);
            },
            _ => {},
        }
        let idle = self.meta_work.mark_done(path);
        let end = if idle {
            self.try_emit_end(now, min_interval)
        } else {
            PoolEnd { event: None, scan_due: false }
        };
        let progress = match outcome {
            TaskOutcome::Skipped => self.emit_progress(None, now, min_interval),
            _ => self.emit_progress(Some(PreloadStage::Metadata), now, min_interval),
        };
        TaskEnd { end, progress }
    }

    /// Notes that the thumbnails of `dir` are to be hashed once the pools
    /// are idle, unless `dir` lies outside the active root.
    pub fn queue_album_for_hashing(&mut self, dir: &str)
        requires
            distinct(old(self).thumb_hash_albums@),
        ensures
            distinct(final(self).thumb_hash_albums@),
            forall|other: Seq<char>|
                holds(final(self).thumb_hash_albums@, other) == (holds(
                    old(self).thumb_hash_albums@,
                    other,
                ) || (other == dir@ && old(self).admits(dir@))),
            *final(self) == (Scheduler {
                thumb_hash_albums: final(self).thumb_hash_albums,
                ..*old(self)
            }),
    {
        if !self.under_active_root(dir) {
            return ;
        }
        if position_of(&self.thumb_hash_albums, dir).is_none() {
            insert_path(&mut self.thumb_hash_albums, dir.to_owned());
        }
    }

    /// Takes the albums whose thumbnails are due for hashing: those noted
    /// that lie under the active root. None stays noted.
    pub fn take_hash_albums(&mut self) -> (albums: Vec<String>)
        ensures
            final(self).thumb_hash_albums@.len() == 0,
            *final(self) == (Scheduler {
                thumb_hash_albums: final(self).thumb_hash_albums,
                ..*old(self)
            }),
            forall|path: Seq<char>|
                holds(albums@, path)
                    == (holds(old(self).thumb_hash_albums@, path) && old(self).admits(path)),
    {
        let mut albums: Vec<String> = Vec::new();
        let mut i: usize = 0;
        while i < self.thumb_hash_albums.len()
            invariant
                i <= self.thumb_hash_albums@.len(),
                *self == *old(self),
                forall|k: int| 0 <= k < albums@.len() ==> holds(
                    self.thumb_hash_albums@.take(i as int),
                    (#[trigger] albums@[k])@,
                ) && self.admits(albums@[k]@),
                forall|k: int|
                    0 <= k < i && self.admits((#[trigger] self.thumb_hash_albums@[k])@) ==> holds(
                        albums@,
                        self.thumb_hash_albums@[k]@,
                    ),
            decreases self.thumb_hash_albums@.len() - i,
        {
            let ghost before = albums@;
            let ghost seen = self.thumb_hash_albums@.take(i as int);
            let ghost next = self.thumb_hash_albums@.take(i + 1);
            let admitted = self.under_active_root(self.thumb_hash_albums[i].as_str());
            if admitted {
                albums.push(self.thumb_hash_albums[i].clone());
            }
            proof {
                assert forall|k: int| 0 <= k < albums@.len() implies holds(
                    next,
                    (#[trigger] albums@[k])@,
                ) && self.admits(albums@[k]@) by {
                    if k < before.len() {
                        assert(albums@[k] == before[k]);
                        assert(holds(seen, before[k]@));
                        let j = choose|j: int| 0 <= j < seen.len()
                            && (#[trigger] seen[j])@ == before[k]@;
                        assert(next[j] == seen[j]);
                    } else {
                        assert(next[i as int]@ == albums@[k]@);
                    }
                }
                assert forall|k: int|
                    0 <= k < i + 1 && self.admits(
                        (#[trigger] self.thumb_hash_albums@[k])@,
                    ) implies holds(albums@, self.thumb_hash_albums@[k]@) by {
                    if k < i {
                        assert(holds(before, self.thumb_hash_albums@[k]@));
                        let j = choose|j: int|
                            0 <= j < before.len() && (#[trigger] before[j])@
                                == self.thumb_hash_albums@[k]@;
                        assert(albums@[j] == before[j]);
                    } else {
                        assert(albums@[before.len() as int]@ == self.thumb_hash_albums@[k]@);
                    }
                }
            }
            i += 1;
        }
        proof {
            let noted = self.thumb_hash_albums@;
            assert(noted.take(noted.len() as int) =~= noted);
            assert forall|path: Seq<char>|
                holds(albums@, path) == (holds(noted, path) && self.admits(path)) by {
                if holds(albums@, path) {
                    let k = choose|k: int| 0 <= k < albums@.len() && (#[trigger] albums@[k])@ == path;
                    assert(holds(noted, albums@[k]@));
                }
                if holds(noted, path) && self.admits(path) {
                    let k = choose|k: int| 0 <= k < noted.len() && (#[trigger] noted[k])@ == path;
                    assert(holds(albums@, noted[k]@));
                }
            }
        }
        self.thumb_hash_albums = Vec::new();
        albums
    }

    /// Starts the preload driver unless it runs. Where it is started, the
    /// counts of finished work start from zero and a progress event for
    /// the stage that has work left is due. Tells whether to start it.
    pub fn start_preloader_worker(&mut self, now: u64) -> (r: (bool, Option<PreloadProgressPayload>))
        ensures
            old(self).preloader_running ==> r == (false, None::<PreloadProgressPayload>)
                && *final(self) == *old(self),
            !old(self).preloader_running ==> {
                let begun = Scheduler {
                    preloader_running: true,
                    done_thumbs: 0,
                    done_meta: 0,
                    last_progress_emit: None,
                    ..*old(self)
                };
                &&& r.0
                &&& r.1 == Some(begun.payload(begun.stage_now()))
                &&& *final(self) == Scheduler {
                    stage: begun.stage_now(),
                    last_progress_emit: Some(now),
                    ..begun
                }
            },
    {
        if self.preloader_running {
            return (false, None);
        }
        self.preloader_running = true;
        self.last_progress_emit = None;
        self.done_thumbs = 0;
        self.done_meta = 0;
        let initial = self.current_stage();
        self.stage = initial;
        let event = self.emit_progress(Some(initial), now, 0);
        (true, event)
    }

    /// Cancels the pass over the album that the driver works on.
    pub fn cancel_current(&mut self)
        ensures
            final(self).cancel_epoch != old(self).cancel_epoch,
            *final(self) == (Scheduler { cancel_epoch: final(self).cancel_epoch, ..*old(self) }),
    {
        self.cancel_epoch = self.cancel_epoch.wrapping_add(1);
    }

    /// Whether a pass that began at `epoch` is cancelled.
    pub fn is_cancelled(&self, epoch: u64) -> (r: bool)
        ensures
            r == (epoch != self.cancel_epoch),
    {
        epoch != self.cancel_epoch
    }

    /// Takes the next album for the driver: the first in its queue that
    /// lies under the active root and does not count as preloaded. Albums
    /// before it are dropped from the queue. The album taken is noted for
    /// hashing. Where none is left, the driver stops running.
    pub fn next_preload_album(&mut self) -> (step: DriverStep)
        requires
            old(self).wf(),
        ensures
            final(self).wf(),
            *final(self) == (Scheduler {
                preload_queue: final(self).preload_queue,
                thumb_hash_albums: final(self).thumb_hash_albums,
                preloader_running: final(self).preloader_running,
                ..*old(self)
            }),
            match step {
                DriverStep::Album { dir, epoch } => {
                    &&& epoch == old(self).cancel_epoch
                    &&& old(self).admits(dir@)
                    &&& !holds(old(self).preloaded@, dir@)
                    &&& forall|other: Seq<char>|
                        holds(final(self).thumb_hash_albums@, other) == (holds(
                            old(self).thumb_hash_albums@,
                            other,
                        ) || other == dir@)
                    &&& final(self).preloader_running == old(self).preloader_running
                    &&& exists|k: int|
                        0 <= k < old(self).preload_queue@.len() && dir
                            == #[trigger] old(self).preload_queue@[k] && final(self).preload_queue@
                            == old(self).preload_queue@.subrange(
                            k + 1,
                            old(self).preload_queue@.len() as int,
                        )
                            && forall|i: int|
                            0 <= i < k ==> !old(self).admits(
                                (#[trigger] old(self).preload_queue@[i])@,
                            ) || holds(old(self).preloaded@, old(self).preload_queue@[i]@)
                },
                DriverStep::Stop => {
                    &&& final(self).preload_queue@.len() == 0
                    &&& !final(self).preloader_running
                    &&& final(self).thumb_hash_albums == old(self).thumb_hash_albums
                    &&& forall|i: int|
                        0 <= i < old(self).preload_queue@.len() ==> !old(self).admits(
                            (#[trigger] old(self).preload_queue@[i])@,
                        ) || holds(old(self).preloaded@, old(self).preload_queue@[i]@)
                },
            },
    {
        let ghost start = self.preload_queue@;
        let mut dropped: usize = 0;
        let total: usize = self.preload_queue.len();
        while dropped < total
            invariant
                dropped <= total,
                total == start.len(),
                start == old(self).preload_queue@,
                self.wf(),
                self.preload_queue@ == start.subrange(dropped as int, total as int),
                *self == (Scheduler { preload_queue: self.preload_queue, ..*old(self) }),
                forall|i: int|
                    0 <= i < dropped ==> !old(self).admits((#[trigger] start[i])@) || holds(
                        old(self).preloaded@,
                        start[i]@,
                    ),
                forall|i: int|
                    0 <= i < dropped ==> !old(self).admits(
                        (#[trigger] old(self).preload_queue@[i])@,
                    ) || holds(old(self).preloaded@, old(self).preload_queue@[i]@),
            decreases total - dropped,
        {
            let ghost before = self.preload_queue@;
            let dir = self.preload_queue.remove(0);
            proof {
                assert(dir == start[dropped as int]);
                assert(self.preload_queue@ =~= start.subrange(dropped + 1, total as int));
                assert forall|a: int, b: int|
                    0 <= a < b < self.preload_queue@.len() implies (
                #[trigger] self.preload_queue@[a])@ != (#[trigger] self.preload_queue@[b])@ by {
                    assert(self.preload_queue@[a] == before[a + 1]);
                    assert(self.preload_queue@[b] == before[b + 1]);
                }
            }
            dropped += 1;
            if self.under_active_root(dir.as_str()) && position_of(
                &self.preloaded,
                dir.as_str(),
            ).is_none() {
                let ghost mid = *self;
                self.queue_album_for_hashing(dir.as_str());
                let epoch = self.cancel_epoch;
                proof {
                    assert(start[dropped - 1] == dir);
                    assert(mid.admits(dir@) == old(self).admits(dir@));
                    assert(holds(self.thumb_hash_albums@, dir@));
                }
                return DriverStep::Album { dir, epoch };
            }
        }
        self.preloader_running = false;
        DriverStep::Stop
    }

    /// Ends a pass of the driver over `dir`: the album counts as preloaded
    /// unless the pass was cancelled. Tells whether it counts.
    pub fn finish_preload_album(&mut self, dir: &str, epoch: u64) -> (done: bool)
        requires
            distinct(old(self).preloaded@),
        ensures
            distinct(final(self).preloaded@),
            done == (epoch == old(self).cancel_epoch),
            *final(self) == (Scheduler { preloaded: final(self).preloaded, ..*old(self) }),
            forall|other: Seq<char>|
                holds(final(self).preloaded@, other) == (holds(old(self).preloaded@, other) || (done
                    && other == dir@)),
    {
        if epoch != self.cancel_epoch {
            return false;
        }
        if position_of(&self.preloaded, dir).is_none() {
            insert_path(&mut self.preloaded, dir.to_owned());
        }
        true
    }

    /// Looks at an album that a listing was asked for. An album that lacks
    /// an artifact no longer counts as preloaded. Tells whether the album
    /// has to be preloaded before the listing is made; if so, the pass over
    /// the album that the driver works on is cancelled.
    pub fn request_album(&mut self, dir: &str, missing_artifacts: bool) -> (needs_preload: bool)
        requires
            distinct(old(self).preloaded@),
        ensures
            distinct(final(self).preloaded@),
            needs_preload == (missing_artifacts || !holds(old(self).preloaded@, dir@)),
            needs_preload == !holds(final(self).preloaded@, dir@),
            forall|other: Seq<char>|
                other != dir@ ==> holds(final(self).preloaded@, other) == holds(
                    old(self).preloaded@,
                    other,
                ),
            final(self).cancel_epoch != old(self).cancel_epoch <==> needs_preload,
            *final(self) == (Scheduler {
                preloaded: final(self).preloaded,
                cancel_epoch: final(self).cancel_epoch,
                ..*old(self)
            }),
    {
        if missing_artifacts {
            remove_path(&mut self.preloaded, dir);
        }
        let needs_preload = position_of(&self.preloaded, dir).is_none();
        if needs_preload {
            self.cancel_current();
        }
        needs_preload
    }

    /// Notes that `dir` was preloaded on request: it counts as preloaded
    /// and no longer waits for the driver.
    pub fn album_preloaded(&mut self, dir: &str)
        requires
            distinct(old(self).preloaded@),
            distinct(old(self).preload_queue@),
        ensures
            distinct(final(self).preloaded@),
            distinct(final(self).preload_queue@),
            holds(final(self).preloaded@, dir@),
            forall|other: Seq<char>|
                other != dir@ ==> holds(final(self).preloaded@, other) == holds(
                    old(self).preloaded@,
                    other,
                ),
            !holds(final(self).preload_queue@, dir@),
            forall|other: Seq<char>|
                other != dir@ ==> holds(final(self).preload_queue@, other) == holds(
                    old(self).preload_queue@,
                    other,
                ),
            *final(self) == (Scheduler {
                preloaded: final(self).preloaded,
                preload_queue: final(self).preload_queue,
                ..*old(self)
            }),
    {
        if position_of(&self.preloaded, dir).is_none() {
            insert_path(&mut self.preloaded, dir.to_owned());
        }
        remove_path(&mut self.preload_queue, dir);
    }

    /// Queues what one media file of an album still lacks, at low
    /// priority: its thumbnail unless that is fresh, its metadata unless
    /// the sidecar holds it; neither where the path is tracked already or
    /// the work is marked as failed.
    pub fn preload_file(
        &mut self,
        album: &AlbumMeta,
        path: &str,
        name: &str,
        thumb_dir: &str,
        thumb_fresh: bool,
        now: u64,
        min_interval: u64,
    ) -> (plan: FilePlan)
        requires
            old(self).wf(),
            album.wf(),
        ensures
            final(self).wf(),
            plan.thumb_queued == (!thumb_fresh && !old(self).thumb_work.known(path@)
                && !album.entry_or_blank(name@).thumb_failed),
            plan.meta_queued == (album.entry_or_blank(name@).meta is None
                && !old(self).meta_work.known(path@) && !album.entry_or_blank(name@).meta_failed),
            plan.thumb_queued ==> final(self).thumb_work.queue@.len()
                == old(self).thumb_work.queue@.len() + 1
                && final(self).thumb_work.queue@.drop_last() == old(self).thumb_work.queue@
                && final(self).thumb_work.queue@.last().0@ == path@
                && final(self).thumb_work.queue@.last().1.thumb_dir@ == thumb_dir@,
            !plan.thumb_queued ==> final(self).thumb_work.queue@ == old(self).thumb_work.queue@,
            plan.meta_queued ==> final(self).meta_work.queue@.len()
                == old(self).meta_work.queue@.len() + 1
                && final(self).meta_work.queue@.drop_last() == old(self).meta_work.queue@
                && final(self).meta_work.queue@.last().0@ == path@,
            !plan.meta_queued ==> final(self).meta_work.queue@ == old(self).meta_work.queue@,
            final(self).thumb_work.in_progress == old(self).thumb_work.in_progress,
            final(self).meta_work.in_progress == old(self).meta_work.in_progress,
            ({
                let with_thumb = Scheduler { thumb_work: final(self).thumb_work, ..*old(self) };
                let first = if plan.thumb_queued {
                    with_thumb.after_emit(None, now, min_interval)
                } else {
                    with_thumb
                };
                let with_meta = Scheduler { meta_work: final(self).meta_work, ..first };
                &&& plan.thumb_event == (if plan.thumb_queued {
                    with_thumb.event_of(None, now, min_interval)
                } else {
                    None
                })
                &&& plan.meta_event == (if plan.meta_queued {
                    with_meta.event_of(None, now, min_interval)
                } else {
                    None
                })
                &&& *final(self) == (if plan.meta_queued {
                    with_meta.after_emit(None, now, min_interval)
                } else {
                    with_meta
                })
            }),
    {
        let mut plan = FilePlan {
            thumb_queued: false,
            thumb_event: None,
            meta_queued: false,
            meta_event: None,
        };
        let ghost start = *self;
        if !thumb_fresh && !self.thumb_work.is_tracked(path) {
            let (queued, event) = self.enqueue_thumb_task(
                path.to_owned(),
                thumb_dir.to_owned(),
                is_thumb_failed(album, name),
                TaskPriority::Low,
                now,
                min_interval,
            );
            plan.thumb_queued = queued;
            plan.thumb_event = event;
            proof {
                if queued {
                    assert(self.thumb_work.queue@.drop_last() =~= start.thumb_work.queue@);
                }
            }
        }
        let ghost mid = *self;
        let meta_cached = match album.get(name) {
            Some(e) => e.meta.is_some(),
            None => false,
        };
        if !meta_cached && !self.meta_work.is_tracked(path) {
            let (queued, event) = self.enqueue_meta_task(
                path.to_owned(),
                is_meta_failed(album, name),
                TaskPriority::Low,
                now,
                min_interval,
            );
            plan.meta_queued = queued;
            plan.meta_event = event;
            proof {
                if queued {
                    assert(self.meta_work.queue@.drop_last() =~= mid.meta_work.queue@);
                }
            }
        }
        plan
    }

    /// Counts a conversion that is about to start, and reports progress for
    /// the conversion stage.
    pub fn conversion_started(&mut self, now: u64, min_interval: u64) -> (event: Option<
        PreloadProgressPayload,
    >)
        ensures
            ({
                let counted = Scheduler {
                    conversions_total: old(self).conversions_total.wrapping_add(1),
                    ..*old(self)
                };
                &&& *final(self) == counted.after_emit(
                    Some(PreloadStage::Conversion),
                    now,
                    min_interval,
                )
                &&& event == counted.event_of(Some(PreloadStage::Conversion), now, min_interval)
            }),
    {
        self.conversions_total = self.conversions_total.wrapping_add(1);
        self.emit_progress(Some(PreloadStage::Conversion), now, min_interval)
    }

    /// Counts a conversion that has ended, and reports progress for the
    /// conversion stage.
    pub fn conversion_finished(&mut self, now: u64, min_interval: u64) -> (event: Option<
        PreloadProgressPayload,
    >)
        ensures
            ({
                let counted = Scheduler {
                    conversions_done: old(self).conversions_done.wrapping_add(1),
                    ..*old(self)
                };
                &&& *final(self) == counted.after_emit(
                    Some(PreloadStage::Conversion),
                    now,
                    min_interval,
                )
                &&& event == counted.event_of(Some(PreloadStage::Conversion), now, min_interval)
            }),
    {
        self.conversions_done = self.conversions_done.wrapping_add(1);
        self.emit_progress(Some(PreloadStage::Conversion), now, min_interval)
    }

}

/// The percentage of the known work that is done.
pub fn get_preload_progress(sched: &Scheduler) -> (p: usize)
    ensures
        p == percent(sched.totals().0, sched.totals().1),
{
    let (completed, total) = sched.combined_progress_totals();
    percent_of(completed, total)
}

/// Whether the driver runs or thumbnails or metadata are outstanding.
pub fn is_preloading(sched: &Scheduler) -> (r: bool)
    ensures
        r == (sched.preloader_running || sched.thumb_work.load() > 0 || sched.meta_work.load() > 0),
{
    sched.preloader_running || sched.thumb_work.outstanding() > 0 || sched.meta_work.outstanding()
        > 0
}

/// Asks for an album to be preloaded. Nothing happens where the album
/// lies outside the active root, or counts as preloaded and lacks no
/// artifact. Otherwise it no longer counts as preloaded, and it joins
/// the back of the driver's queue unless it waits there already; where
/// it joined and the driver runs, a progress report is made.
pub fn enqueue_preload(
    sched: &mut Scheduler,
    dir: &str,
    missing_artifacts: bool,
    now: u64,
    min_interval: u64,
) -> (event:
    Option<PreloadProgressPayload>)
    requires
        old(sched).wf(),
    ensures
        final(sched).wf(),
        ({
            let refused = !old(sched).admits(dir@) || (holds(old(sched).preloaded@, dir@)
                && !missing_artifacts);
            let waits = holds(old(sched).preload_queue@, dir@);
            let listed = Scheduler {
                preloaded: final(sched).preloaded,
                preload_queue: final(sched).preload_queue,
                ..*old(sched)
            };
            &&& refused ==> *final(sched) == *old(sched) && event is None
            &&& !refused ==> {
                &&& !holds(final(sched).preloaded@, dir@)
                &&& forall|other: Seq<char>|
                    other != dir@ ==> holds(final(sched).preloaded@, other) == holds(
                        old(sched).preloaded@,
                        other,
                    )
                &&& final(sched).preloaded@.len() <= old(sched).preloaded@.len()
                &&& waits ==> final(sched).preload_queue@ == old(sched).preload_queue@
                &&& !waits ==> final(sched).preload_queue@.len() == old(sched).preload_queue@.len()
                    + 1 && final(sched).preload_queue@.drop_last() == old(sched).preload_queue@
                    && final(sched).preload_queue@.last()@ == dir@
                &&& if !waits && old(sched).preloader_running {
                    *final(sched) == listed.after_emit(None, now, min_interval) && event
                        == listed.event_of(None, now, min_interval)
                } else {
                    *final(sched) == listed && event is None
                }
            }
        }),
{
    if !sched.under_active_root(dir) {
        return None;
    }
    let known = position_of(&sched.preloaded, dir).is_some();
    if known && !missing_artifacts {
        return None;
    }
    remove_path(&mut sched.preloaded, dir);
    if position_of(&sched.preload_queue, dir).is_some() {
        return None;
    }
    insert_path(&mut sched.preload_queue, dir.to_owned());
    assert(sched.preload_queue@.drop_last() =~= old(sched).preload_queue@);
    if sched.preloader_running {
        return sched.emit_progress(None, now, min_interval);
    }
    None
}

/// Forgets the work that waits for paths under `prefix`: the albums in
/// the driver's queue, those that count as preloaded, the queued
/// thumbnails, metadata and hashes, and the albums noted for hashing.
/// Work that is under way goes on. A progress report is made for each
/// queue that lost work.
pub fn drop_preload_for_path(
    sched: &mut Scheduler,
    prefix: &str,
    now: u64,
    min_interval: u64,
) -> (events:
    DropEvents)
    requires
        old(sched).wf(),
    ensures
        final(sched).wf(),
        final(sched).preload_queue@ == paths_outside(old(sched).preload_queue@, prefix@),
        final(sched).preloaded@ == paths_outside(old(sched).preloaded@, prefix@),
        final(sched).thumb_hash_albums@ == paths_outside(old(sched).thumb_hash_albums@, prefix@),
        final(sched).thumb_work.queue@ == outside(old(sched).thumb_work.queue@, prefix@),
        final(sched).meta_work.queue@ == outside(old(sched).meta_work.queue@, prefix@),
        final(sched).hash_queue.work.queue@ == outside(
            old(sched).hash_queue.work.queue@,
            prefix@,
        ),
        final(sched).thumb_work.in_progress == old(sched).thumb_work.in_progress,
        final(sched).meta_work.in_progress == old(sched).meta_work.in_progress,
        final(sched).hash_queue.work.in_progress == old(sched).hash_queue.work.in_progress,
        ({
            let trimmed = Scheduler {
                preload_queue: final(sched).preload_queue,
                preloaded: final(sched).preloaded,
                thumb_work: final(sched).thumb_work,
                ..*old(sched)
            };
            let thumbs_lost = final(sched).thumb_work.queue@.len() < old(sched).thumb_work.queue@.len();
            let first = if thumbs_lost {
                trimmed.after_emit(None, now, min_interval)
            } else {
                trimmed
            };
            let second = Scheduler { meta_work: final(sched).meta_work, ..first };
            let meta_lost = final(sched).meta_work.queue@.len() < old(sched).meta_work.queue@.len();
            let third = if meta_lost {
                second.after_emit(None, now, min_interval)
            } else {
                second
            };
            &&& events.thumbs == (if thumbs_lost {
                trimmed.event_of(None, now, min_interval)
            } else {
                None
            })
            &&& events.metadata == (if meta_lost {
                second.event_of(None, now, min_interval)
            } else {
                None
            })
            &&& *final(sched) == (Scheduler {
                hash_queue: final(sched).hash_queue,
                thumb_hash_albums: final(sched).thumb_hash_albums,
                ..third
            })
        }),
        events.hashes is Some <==> final(sched).hash_queue.work.queue@.len()
            < old(sched).hash_queue.work.queue@.len(),
        events.hashes matches Some(t) ==> t == final(sched).hash_queue.progress(),
        final(sched).hash_queue.done == (if events.hashes is Some
            && final(sched).hash_queue.work.queue@.len() == 0
            && final(sched).hash_queue.work.in_progress@.len() == 0 {
            0
        } else {
            old(sched).hash_queue.done
        }),
{
    proof {
        lemma_paths_outside_distinct(sched.preload_queue@, prefix@);
        lemma_paths_outside_distinct(sched.preloaded@, prefix@);
        lemma_paths_outside_distinct(sched.thumb_hash_albums@, prefix@);
    }
    retain_outside(&mut sched.preload_queue, prefix);
    retain_outside(&mut sched.preloaded, prefix);
    let mut events = DropEvents { thumbs: None, metadata: None, hashes: None };
    if sched.thumb_work.trim_prefix(prefix) > 0 {
        events.thumbs = sched.emit_progress(None, now, min_interval);
    }
    if sched.meta_work.trim_prefix(prefix) > 0 {
        events.metadata = sched.emit_progress(None, now, min_interval);
    }
    events.hashes = sched.hash_queue.trim_prefix(prefix);
    retain_outside(&mut sched.thumb_hash_albums, prefix);
    events
}

/// Notes whether the front end may open files. Where it may, the state
/// of the hash queue is due to be reported again unless the queue has
/// seen no work.
pub fn set_allow_open(sched: &mut Scheduler, allow: bool) -> (event: Option<(usize, usize)>)
    ensures
        *final(sched) == (Scheduler { allow_open: allow, ..*old(sched) }),
        event == (if allow && old(sched).hash_queue.progress().1 > 0 {
            Some(old(sched).hash_queue.progress())
        } else {
            None
        }),
{
    sched.allow_open = allow;
    if allow {
        let (done, total) = sched.hash_queue.totals();
        if total > 0 {
            return Some((done, total));
        }
    }
    None
}

} // verus!
