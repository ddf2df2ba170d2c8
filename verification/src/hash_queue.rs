//! The queue of files that wait for their perceptual hash, with the count
//! of those done and the time at which each running one was started.

use crate::queue::{
    drop_record, holds, lookup_record, queues, record_of, TaskPriority, WorkQueue,
};
use crate::text::string_texts;
use vstd::prelude::*;

verus! {

/// The queue after each of the first `n` of `paths` was offered to it: a
/// path that is queued or worked on is passed over, another goes to the
/// front for a high priority and to the back for a low one.
pub open spec fn enqueue_all(
    queue: Seq<(String, ())>,
    running: Seq<String>,
    paths: Seq<String>,
    priority: TaskPriority,
    n: int,
) -> Seq<(String, ())>
    decreases n,
{
    if n <= 0 {
        queue
    } else {
        let q = enqueue_all(queue, running, paths, priority, n - 1);
        let p = paths[n - 1];
        if queues(q, p@) || holds(running, p@) {
            q
        } else if priority == TaskPriority::High {
            seq![(p, ())] + q
        } else {
            q.push((p, ()))
        }
    }
}

/// The sum of three counts, as far as a `usize` counts.
pub open spec fn capped_sum(a: int, b: int, c: int) -> int {
    if a + b + c > usize::MAX {
        usize::MAX as int
    } else {
        a + b + c
    }
}

/// The smaller of two counts.
pub open spec fn at_most(a: int, b: int) -> int {
    if a <= b {
        a
    } else {
        b
    }
}

/// Whether work on `path` began at least `after` milliseconds before `now`.
pub open spec fn is_stuck(started: Seq<(String, u64)>, path: Seq<char>, now: u64, after: u64) -> bool {
    match record_of(started, path) {
        Some(t) => now >= t && now - t >= after,
        None => false,
    }
}

/// The paths among the first `n` of `running` that are stuck, in order.
pub open spec fn stuck_upto(
    running: Seq<String>,
    started: Seq<(String, u64)>,
    now: u64,
    after: u64,
    n: int,
) -> Seq<Seq<char>>
    decreases n,
{
    if n <= 0 {
        Seq::empty()
    } else if is_stuck(started, running[n - 1]@, now, after) {
        stuck_upto(running, started, now, after, n - 1).push(running[n - 1]@)
    } else {
        stuck_upto(running, started, now, after, n - 1)
    }
}

/// The queue of hash work.
pub struct HashQueue {
    pub work: WorkQueue<()>,
    /// For each path that is worked on, when that began.
    pub started: Vec<(String, u64)>,
    /// How many hashes were finished since the queue was last idle.
    pub done: usize,
}

impl HashQueue {
    /// `(done, total)` as it is reported: the total counts what is done,
    /// queued and worked on.
    pub open spec fn progress(&self) -> (usize, usize) {
        let total = capped_sum(
            self.done as int,
            self.work.queue@.len() as int,
            self.work.in_progress@.len() as int,
        );
        (at_most(self.done as int, total) as usize, total as usize)
    }

    /// An empty queue.
    pub fn new() -> (q: HashQueue)
        ensures
            q.work.wf(),
            q.work.queue@.len() == 0,
            q.work.in_progress@.len() == 0,
            q.done == 0,
    {
        HashQueue { work: WorkQueue::new(), started: Vec::new(), done: 0 }
    }

    /// `(done, total)` of the queue.
    pub fn totals(&self) -> (r: (usize, usize))
        ensures
            r == self.progress(),
    {
        let total: usize = self.done.saturating_add(self.work.queue.len()).saturating_add(
            self.work.in_progress.len(),
        );
        let done: usize = if self.done <= total {
            self.done
        } else {
            total
        };
        (done, total)
    }

    /// Offers each of `paths` to the queue. The count of finished hashes
    /// starts again from zero where the queue was idle. Tells whether
    /// anything was queued, and `(done, total)` afterwards.
    pub fn enqueue_many(&mut self, paths: &Vec<String>, priority: TaskPriority) -> (r: (
        bool,
        usize,
        usize,
    ))
        requires
            old(self).work.wf(),
        ensures
            final(self).work.wf(),
            final(self).work.queue@ == enqueue_all(
                old(self).work.queue@,
                old(self).work.in_progress@,
                paths@,
                priority,
                paths@.len() as int,
            ),
            final(self).work.in_progress == old(self).work.in_progress,
            final(self).started == old(self).started,
            final(self).done
                == (if old(self).work.queue@.len() == 0 && old(self).work.in_progress@.len() == 0 {
                0
            } else {
                old(self).done
            }),
            r.0 == (final(self).work.queue@.len() != old(self).work.queue@.len()),
            (r.1, r.2) == final(self).progress(),
    {
        let mut added: bool = false;
        if self.work.queue.len() == 0 && self.work.in_progress.len() == 0 && self.done > 0 {
            self.done = 0;
        }
        let ghost start = self.work.queue@;
        let ghost running = self.work.in_progress@;
        let mut i: usize = 0;
        while i < paths.len()
            invariant
                i <= paths.len(),
                self.work.wf(),
                self.work.in_progress@ == running,
                self.work.in_progress == old(self).work.in_progress,
                self.started == old(self).started,
                self.work.queue@ == enqueue_all(start, running, paths@, priority, i as int),
                self.work.queue@.len() >= start.len(),
                added == (self.work.queue@.len() != start.len()),
                self.done
                    == (if old(self).work.queue@.len() == 0 && old(self).work.in_progress@.len() == 0 {
                    0
                } else {
                    old(self).done
                }),
            decreases paths.len() - i,
        {
            if self.work.enqueue(paths[i].clone(), (), priority) {
                added = true;
            }
            i += 1;
        }
        let (done, total) = self.totals();
        (added, done, total)
    }

    /// Takes the path at the front of the queue; it is worked on from `now`.
    pub fn next_task(&mut self, now: u64) -> (task: Option<String>)
        requires
            old(self).work.wf(),
        ensures
            final(self).work.wf(),
            final(self).done == old(self).done,
            match task {
                Some(path) => {
                    &&& old(self).work.queue@.len() > 0
                    &&& path == old(self).work.queue@[0].0
                    &&& final(self).work.queue@ == old(self).work.queue@.drop_first()
                    &&& forall|other: Seq<char>|
                        final(self).work.running(other) == (old(self).work.running(other) || other
                            == path@)
                    &&& final(self).started@ == seq![(path, now)] + old(self).started@
                },
                None => {
                    &&& old(self).work.queue@.len() == 0
                    &&& final(self).work.queue@ == old(self).work.queue@
                    &&& final(self).work.in_progress == old(self).work.in_progress
                    &&& final(self).started == old(self).started
                },
            },
    {
        match self.work.next_task() {
            Some((path, _)) => {
                self.started.insert(0, (path.clone(), now));
                assert(self.started@ =~= seq![(path, now)] + old(self).started@);
                Some(path)
            },
            None => None,
        }
    }

    /// Ends the work on `path` and counts it as done. Tells `(done, total)`
    /// afterwards and whether the queue is idle now.
    pub fn mark_done(&mut self, path: &str) -> (r: (usize, usize, bool))
        requires
            old(self).work.wf(),
        ensures
            final(self).work.wf(),
            final(self).work.queue == old(self).work.queue,
            !final(self).work.running(path@),
            forall|other: Seq<char>|
                other != path@ ==> final(self).work.running(other) == old(self).work.running(other),
            final(self).done == (if old(self).done == usize::MAX {
                usize::MAX
            } else {
                (old(self).done + 1) as usize
            }),
            (r.0, r.1) == final(self).progress(),
            r.2 == (final(self).work.queue@.len() == 0 && final(self).work.in_progress@.len() == 0),
            record_of(final(self).started@, path@) is None,
            forall|other: Seq<char>|
                other != path@ ==> record_of(final(self).started@, other) == record_of(
                    old(self).started@,
                    other,
                ),
    {
        let idle = self.work.mark_done(path);
        drop_record(&mut self.started, path);
        self.done = self.done.saturating_add(1);
        let (done, total) = self.totals();
        (done, total, idle)
    }

    /// Whether anything is queued or worked on.
    pub fn has_work(&self) -> (r: bool)
        ensures
            r == (self.work.queue@.len() > 0 || self.work.in_progress@.len() > 0),
    {
        self.work.has_work()
    }

    /// Drops the queued paths under `prefix`. Where any was dropped, tells
    /// `(done, total)` afterwards, the count of finished hashes starting
    /// again from zero if the queue is idle now.
    pub fn trim_prefix(&mut self, prefix: &str) -> (r: Option<(usize, usize)>)
        requires
            old(self).work.wf(),
        ensures
            final(self).work.wf(),
            final(self).work.queue@ == crate::queue::outside(old(self).work.queue@, prefix@),
            final(self).work.in_progress == old(self).work.in_progress,
            final(self).started == old(self).started,
            r is Some <==> final(self).work.queue@.len() < old(self).work.queue@.len(),
            final(self).done == (if r is Some && final(self).work.queue@.len() == 0
                && final(self).work.in_progress@.len() == 0 {
                0
            } else {
                old(self).done
            }),
            r matches Some(t) ==> t == final(self).progress(),
    {
        let removed = self.work.trim_prefix(prefix);
        if removed > 0 {
            if self.work.queue.len() == 0 && self.work.in_progress.len() == 0 {
                self.done = 0;
            }
            return Some(self.totals());
        }
        None
    }

    /// Gives up the paths that have been worked on for `stuck_after_ms` or
    /// longer: they are no longer worked on, the time at which each began
    /// is forgotten, and they count as done. Tells `(done, total)`
    /// afterwards and the paths given up, or nothing where none was stuck.
    pub fn fail_in_progress(&mut self, now: u64, stuck_after_ms: u64) -> (r: Option<
        (usize, usize, Vec<String>),
    >)
        requires
            old(self).work.wf(),
        ensures
            final(self).work.wf(),
            final(self).work.queue == old(self).work.queue,
            ({
                let stuck = stuck_upto(
                    old(self).work.in_progress@,
                    old(self).started@,
                    now,
                    stuck_after_ms,
                    old(self).work.in_progress@.len() as int,
                );
                &&& r is Some <==> stuck.len() > 0
                &&& r matches Some(t) ==> string_texts(t.2@) == stuck && (t.0, t.1)
                    == final(self).progress()
                &&& forall|path: Seq<char>|
                    #![trigger final(self).work.running(path)]
                    final(self).work.running(path) == (old(self).work.running(path)
                        && !stuck.contains(path))
                &&& forall|path: Seq<char>|
                    #![trigger record_of(final(self).started@, path)]
                    record_of(final(self).started@, path) == (if stuck.contains(path) {
                        None
                    } else {
                        record_of(old(self).started@, path)
                    })
                &&& stuck.len() == 0 ==> final(self).done == old(self).done && final(self).work
                    == old(self).work && final(self).started == old(self).started
                &&& final(self).done == (if old(self).done + stuck.len() > usize::MAX {
                    usize::MAX
                } else {
                    (old(self).done + stuck.len()) as usize
                })
            }),
    {
        let ghost running = self.work.in_progress@;
        let ghost begun = self.started@;
        let mut stuck: Vec<String> = Vec::new();
        let mut i: usize = 0;
        assert(string_texts(stuck@) =~= stuck_upto(running, begun, now, stuck_after_ms, 0));
        while i < self.work.in_progress.len()
            invariant
                i <= self.work.in_progress@.len(),
                *self == *old(self),
                running == self.work.in_progress@,
                begun == self.started@,
                string_texts(stuck@) == stuck_upto(running, begun, now, stuck_after_ms, i as int),
                forall|k: int| 0 <= k < stuck@.len() ==> holds(running, (#[trigger] stuck@[k])@),
            decreases self.work.in_progress@.len() - i,
        {
            let ghost before = stuck@;
            let path = &self.work.in_progress[i];
            match lookup_record(&self.started, path.as_str()) {
                Some(t) => {
                    if now >= t && now - t >= stuck_after_ms {
                        stuck.push(path.clone());
                        assert(string_texts(stuck@)
                            =~= string_texts(before).push(path@));
                        assert forall|k: int| 0 <= k < stuck@.len() implies holds(
                            running,
                            (#[trigger] stuck@[k])@,
                        ) by {
                            if k < before.len() {
                                assert(stuck@[k] == before[k]);
                            } else {
                                assert(running[i as int]@ == stuck@[k]@);
                            }
                        }
                    }
                },
                None => {},
            }
            i += 1;
        }
        if stuck.len() == 0 {
            assert forall|path: Seq<char>|
                self.work.running(path) == (old(self).work.running(path) && !Seq::<
                    Seq<char>,
                >::empty().contains(path)) by {}
            assert forall|path: Seq<char>|
                !Seq::<Seq<char>>::empty().contains(path) by {}
            return None;
        }
        let ghost all_stuck = string_texts(stuck@);
        let mut k: usize = 0;
        while k < stuck.len()
            invariant
                k <= stuck@.len(),
                self.work.wf(),
                self.work.queue == old(self).work.queue,
                self.done == (if old(self).done + k > usize::MAX {
                    usize::MAX
                } else {
                    (old(self).done + k) as usize
                }),
                all_stuck == string_texts(stuck@),
                forall|path: Seq<char>|
                    self.work.running(path) == (holds(running, path) && !all_stuck.take(
                        k as int,
                    ).contains(path)),
                forall|path: Seq<char>|
                    record_of(self.started@, path) == (if all_stuck.take(k as int).contains(path) {
                        None
                    } else {
                        record_of(begun, path)
                    }),
            decreases stuck@.len() - k,
        {
            let ghost mid = self.work;
            let ghost gone = stuck@[k as int]@;
            let ghost fewer = all_stuck.take(k as int);
            let ghost records = self.started@;
            self.work.mark_done(stuck[k].as_str());
            drop_record(&mut self.started, stuck[k].as_str());
            self.done = self.done.saturating_add(1);
            k += 1;
            proof {
                assert(all_stuck[k - 1] == gone);
                let upto = all_stuck.take(k as int);
                assert(upto =~= fewer.push(gone));
                assert forall|path: Seq<char>|
                    self.work.running(path) == (holds(running, path) && !upto.contains(path)) by {
                    assert(mid.running(path) == (holds(running, path) && !fewer.contains(path)));
                    if path != gone {
                        assert(self.work.running(path) == mid.running(path));
                    } else {
                        assert(!self.work.running(path));
                    }
                    if fewer.contains(path) {
                        let j = choose|j: int| 0 <= j < fewer.len() && #[trigger] fewer[j] == path;
                        assert(upto[j] == path);
                    }
                    if upto.contains(path) && path != gone {
                        let j = choose|j: int| 0 <= j < upto.len() && #[trigger] upto[j] == path;
                        assert(fewer[j] == path);
                    }
                    if path == gone {
                        assert(upto[k - 1] == gone);
                    }
                }
                assert forall|path: Seq<char>|
                    record_of(self.started@, path) == (if upto.contains(path) {
                        None
                    } else {
                        record_of(begun, path)
                    }) by {
                    assert(record_of(records, path) == (if fewer.contains(path) {
                        None
                    } else {
                        record_of(begun, path)
                    }));
                    if fewer.contains(path) {
                        let j = choose|j: int| 0 <= j < fewer.len() && #[trigger] fewer[j] == path;
                        assert(upto[j] == path);
                    }
                    if upto.contains(path) && path != gone {
                        let j = choose|j: int| 0 <= j < upto.len() && #[trigger] upto[j] == path;
                        assert(fewer[j] == path);
                    }
                    if path == gone {
                        assert(upto[k - 1] == gone);
                    }
                }
            }
        }
        assert(all_stuck.take(stuck@.len() as int) =~= all_stuck);
        let (done, total) = self.totals();
        Some((done, total, stuck))
    }
}

} // verus!
