//! The priority-aware work queues of the scheduler.

use crate::paths::{is_under, starts_with};
use crate::text::{same_text, str_eq};
use std::collections::VecDeque;
use vstd::prelude::*;

verus! {

/// How urgent a task is: a high one goes to the front of its queue, a low
/// one to the back.
#[derive(Clone, Copy, Debug, PartialEq, Eq)]
pub enum TaskPriority {
    High,
    Low,
}

impl Default for TaskPriority {
    fn default() -> (p: TaskPriority)
        ensures
            p == TaskPriority::Low,
    {
        TaskPriority::Low
    }
}

/// Whether a list of paths holds `path`.
pub open spec fn holds(list: Seq<String>, path: Seq<char>) -> bool {
    exists|i: int| 0 <= i < list.len() && (#[trigger] list[i])@ == path
}

/// No path stands twice in the list.
pub open spec fn distinct(list: Seq<String>) -> bool {
    forall|i: int, j: int| 0 <= i < j < list.len() ==> (#[trigger] list[i])@ != (#[trigger] list[j])@
}

/// Where `path` stands in the list.
pub fn position_of(list: &Vec<String>, path: &str) -> (r: Option<usize>)
    ensures
        match r {
            Some(i) => i < list@.len() && list@[i as int]@ == path@,
            None => !holds(list@, path@),
        },
{
    let wanted = path.to_owned();
    let mut i: usize = 0;
    while i < list.len()
        invariant
            i <= list.len(),
            wanted@ == path@,
            forall|j: int| 0 <= j < i ==> (#[trigger] list@[j])@ != path@,
        decreases list.len() - i,
    {
        if same_text(&list[i], &wanted) {
            return Some(i);
        }
        i += 1;
    }
    None
}

/// Takes `path` out of a list that holds no path twice.
pub fn remove_path(list: &mut Vec<String>, path: &str) -> (removed: bool)
    requires
        distinct(old(list)@),
    ensures
        distinct(final(list)@),
        removed == holds(old(list)@, path@),
        !holds(final(list)@, path@),
        forall|other: Seq<char>|
            other != path@ ==> holds(final(list)@, other) == holds(old(list)@, other),
        final(list)@.len() == old(list)@.len() - (if removed {
            1int
        } else {
            0int
        }),
{
    let ghost before = list@;
    match position_of(list, path) {
        Some(i) => {
            list.remove(i);
            proof {
                let after = list@;
                assert forall|a: int, b: int| 0 <= a < b < after.len() implies (
                #[trigger] after[a])@ != (#[trigger] after[b])@ by {
                    let a0 = if a < i {
                        a
                    } else {
                        a + 1
                    };
                    let b0 = if b < i {
                        b
                    } else {
                        b + 1
                    };
                    assert(after[a] == before[a0] && after[b] == before[b0]);
                }
                assert(!holds(after, path@)) by {
                    if holds(after, path@) {
                        let k = choose|k: int| 0 <= k < after.len() && (#[trigger] after[k])@ == path@;
                        let k0 = if k < i {
                            k
                        } else {
                            k + 1
                        };
                        assert(after[k] == before[k0]);
                        if k0 < i {
                            assert(before[k0]@ != before[i as int]@);
                        } else {
                            assert(before[i as int]@ != before[k0]@);
                        }
                    }
                }
                assert forall|other: Seq<char>| other != path@ implies holds(after, other) == holds(
                    before,
                    other,
                ) by {
                    if holds(after, other) {
                        let k = choose|k: int| 0 <= k < after.len() && (#[trigger] after[k])@ == other;
                        let k0 = if k < i {
                            k
                        } else {
                            k + 1
                        };
                        assert(after[k] == before[k0]);
                    }
                    if holds(before, other) {
                        let k = choose|k: int| 0 <= k < before.len() && (#[trigger] before[k])@ == other;
                        let k1 = if k < i {
                            k
                        } else {
                            k - 1
                        };
                        assert(after[k1] == before[k]);
                    }
                }
            }
            true
        },
        None => false,
    }
}

/// Adds `path` to a list that does not hold it.
pub fn insert_path(list: &mut Vec<String>, path: String)
    requires
        distinct(old(list)@),
        !holds(old(list)@, path@),
    ensures
        distinct(final(list)@),
        final(list)@ == old(list)@.push(path),
        forall|other: Seq<char>|
            holds(final(list)@, other) == (holds(old(list)@, other) || other == path@),
{
    let ghost before = list@;
    list.push(path);
    proof {
        let after = list@;
        assert forall|a: int, b: int| 0 <= a < b < after.len() implies (#[trigger] after[a])@ != (
        #[trigger] after[b])@ by {
            assert(after[a] == before[a]);
            if b < before.len() {
                assert(after[b] == before[b]);
            }
        }
        assert forall|other: Seq<char>|
            holds(after, other) == (holds(before, other) || other == path@) by {
            if holds(after, other) {
                let k = choose|k: int| 0 <= k < after.len() && (#[trigger] after[k])@ == other;
                if k < before.len() {
                    assert(after[k] == before[k]);
                }
            }
            if holds(before, other) {
                let k = choose|k: int| 0 <= k < before.len() && (#[trigger] before[k])@ == other;
                assert(after[k] == before[k]);
            }
            if other == path@ {
                assert(after[before.len() as int]@ == other);
            }
        }
    }
}

/// The paths of a list that do not lie under `prefix`, in order.
pub open spec fn paths_outside(list: Seq<String>, prefix: Seq<char>) -> Seq<String>
    decreases list.len(),
{
    if list.len() == 0 {
        Seq::empty()
    } else if is_under(list.last()@, prefix) {
        paths_outside(list.drop_last(), prefix)
    } else {
        paths_outside(list.drop_last(), prefix).push(list.last())
    }
}

/// What stays of a list are its paths outside the prefix, none twice if
/// none was there twice.
pub proof fn lemma_paths_outside(list: Seq<String>, prefix: Seq<char>, path: Seq<char>)
    ensures
        holds(paths_outside(list, prefix), path) <==> holds(list, path) && !is_under(path, prefix),
        paths_outside(list, prefix).len() <= list.len(),
    decreases list.len(),
{
    if list.len() > 0 {
        let rest = list.drop_last();
        lemma_paths_outside(rest, prefix, path);
        let out = paths_outside(list, prefix);
        let inner = paths_outside(rest, prefix);
        if holds(out, path) {
            let i = choose|i: int| 0 <= i < out.len() && (#[trigger] out[i])@ == path;
            if i < inner.len() {
                assert(out[i] == inner[i]);
                assert(inner[i]@ == path);
                assert(holds(inner, path));
                let k = choose|k: int| 0 <= k < rest.len() && (#[trigger] rest[k])@ == path;
                assert(list[k] == rest[k]);
                assert(list[k]@ == path);
            } else {
                assert(list[list.len() - 1]@ == path);
            }
        }
        if holds(list, path) && !is_under(path, prefix) {
            let k = choose|k: int| 0 <= k < list.len() && (#[trigger] list[k])@ == path;
            if k < rest.len() {
                assert(rest[k] == list[k]);
                assert(rest[k]@ == path);
                assert(holds(rest, path));
                let i = choose|i: int| 0 <= i < inner.len() && (#[trigger] inner[i])@ == path;
                assert(out[i] == inner[i]);
                assert(out[i]@ == path);
            } else {
                assert(out[out.len() - 1]@ == path);
            }
        }
    } else {
        assert(!holds(list, path));
        assert(!holds(paths_outside(list, prefix), path));
    }
}

/// Dropping paths keeps a list free of repetitions.
pub proof fn lemma_paths_outside_distinct(list: Seq<String>, prefix: Seq<char>)
    requires
        distinct(list),
    ensures
        distinct(paths_outside(list, prefix)),
    decreases list.len(),
{
    if list.len() > 0 {
        let rest = list.drop_last();
        assert(distinct(rest)) by {
            assert forall|i: int, j: int| 0 <= i < j < rest.len() implies (#[trigger] rest[i])@ != (
            #[trigger] rest[j])@ by {
                assert(rest[i] == list[i] && rest[j] == list[j]);
            }
        }
        lemma_paths_outside_distinct(rest, prefix);
        let out = paths_outside(list, prefix);
        let inner = paths_outside(rest, prefix);
        assert forall|i: int, j: int| 0 <= i < j < out.len() implies (#[trigger] out[i])@ != (
        #[trigger] out[j])@ by {
            if j < inner.len() {
                assert(out[i] == inner[i] && out[j] == inner[j]);
            } else {
                assert(out[i] == inner[i]);
                assert(holds(inner, inner[i]@));
                lemma_paths_outside(rest, prefix, inner[i]@);
                let k = choose|k: int| 0 <= k < rest.len() && (#[trigger] rest[k])@ == inner[i]@;
                assert(list[k] == rest[k]);
                assert(list[k]@ != list[list.len() - 1]@);
            }
        }
    }
}

/// Drops the paths under `prefix` from a list, and tells how many they were.
pub fn retain_outside(list: &mut Vec<String>, prefix: &str) -> (removed: usize)
    ensures
        final(list)@ == paths_outside(old(list)@, prefix@),
        removed == old(list)@.len() - final(list)@.len(),
{
    let ghost before = list@;
    let mut kept: Vec<String> = Vec::new();
    let mut i: usize = 0;
    assert(before.take(0) =~= Seq::<String>::empty());
    while i < list.len()
        invariant
            i <= list@.len(),
            list@ == before,
            kept@ == paths_outside(before.take(i as int), prefix@),
        decreases list@.len() - i,
    {
        proof {
            assert(before.take(i + 1).drop_last() =~= before.take(i as int));
            assert(before.take(i + 1).last() == before[i as int]);
        }
        if !starts_with(list[i].as_str(), prefix) {
            kept.push(list[i].clone());
        }
        i += 1;
    }
    assert(before.take(before.len() as int) =~= before);
    proof {
        lemma_paths_outside(before, prefix@, prefix@);
    }
    let removed: usize = list.len() - kept.len();
    *list = kept;
    removed
}

/// Whether a queue holds a task for `path`.
pub open spec fn queues<T>(queue: Seq<(String, T)>, path: Seq<char>) -> bool {
    exists|i: int| 0 <= i < queue.len() && (#[trigger] queue[i]).0@ == path
}

/// The tasks of a queue whose path does not lie under `prefix`, in order.
pub open spec fn outside<T>(queue: Seq<(String, T)>, prefix: Seq<char>) -> Seq<(String, T)>
    decreases queue.len(),
{
    if queue.len() == 0 {
        Seq::empty()
    } else if is_under(queue.last().0@, prefix) {
        outside(queue.drop_last(), prefix)
    } else {
        outside(queue.drop_last(), prefix).push(queue.last())
    }
}

/// Whether `x` stands before `y` in the queue.
pub open spec fn in_order<T>(queue: Seq<(String, T)>, x: (String, T), y: (String, T)) -> bool {
    exists|a: int, b: int|
        0 <= a < b < queue.len() && #[trigger] queue[a] == x && #[trigger] queue[b] == y
}

/// What stays of a queue are its tasks outside the prefix.
pub proof fn lemma_outside_queues<T>(queue: Seq<(String, T)>, prefix: Seq<char>, path: Seq<char>)
    ensures
        queues(outside(queue, prefix), path) <==> queues(queue, path) && !is_under(path, prefix),
    decreases queue.len(),
{
    if queue.len() > 0 {
        let rest = queue.drop_last();
        lemma_outside_queues(rest, prefix, path);
        let out = outside(queue, prefix);
        let inner = outside(rest, prefix);
        if queues(out, path) {
            let i = choose|i: int| 0 <= i < out.len() && (#[trigger] out[i]).0@ == path;
            if i < inner.len() {
                assert(out[i] == inner[i]);
                assert(inner[i].0@ == path);
                assert(queues(inner, path));
                let k = choose|k: int| 0 <= k < rest.len() && (#[trigger] rest[k]).0@ == path;
                assert(queue[k] == rest[k]);
                assert(queue[k].0@ == path);
            } else {
                assert(queue[queue.len() - 1].0@ == path);
            }
        }
        if queues(queue, path) && !is_under(path, prefix) {
            let k = choose|k: int| 0 <= k < queue.len() && (#[trigger] queue[k]).0@ == path;
            if k < rest.len() {
                assert(rest[k] == queue[k]);
                assert(rest[k].0@ == path);
                assert(queues(rest, path));
                let i = choose|i: int| 0 <= i < inner.len() && (#[trigger] inner[i]).0@ == path;
                assert(out[i] == inner[i]);
                assert(out[i].0@ == path);
            } else {
                assert(out[out.len() - 1].0@ == path);
            }
        }
    } else {
        assert(!queues(queue, path));
        assert(!queues(outside(queue, prefix), path));
    }
}

/// What stays of a queue stays in the order it had.
pub proof fn lemma_outside<T>(queue: Seq<(String, T)>, prefix: Seq<char>)
    ensures
        outside(queue, prefix).len() <= queue.len(),
        forall|i: int, j: int|
            0 <= i < j < outside(queue, prefix).len() ==> #[trigger] in_order(
                queue,
                outside(queue, prefix)[i],
                outside(queue, prefix)[j],
            ),
    decreases queue.len(),
{
    if queue.len() > 0 {
        let rest = queue.drop_last();
        lemma_outside(rest, prefix);
        let out = outside(queue, prefix);
        let inner = outside(rest, prefix);
        assert forall|i: int, j: int| 0 <= i < j < out.len() implies #[trigger] in_order(
            queue,
            out[i],
            out[j],
        ) by {
            if j < inner.len() {
                assert(out[i] == inner[i] && out[j] == inner[j]);
                assert(in_order(rest, inner[i], inner[j]));
                let (a, b) = choose|a: int, b: int|
                    0 <= a < b < rest.len() && #[trigger] rest[a] == inner[i] && #[trigger] rest[b]
                        == inner[j];
                assert(queue[a] == rest[a] && queue[b] == rest[b]);
            } else {
                assert(out[i] == inner[i]);
                lemma_outside_member(rest, prefix, i);
                let a = choose|a: int| 0 <= a < rest.len() && #[trigger] rest[a] == inner[i];
                assert(queue[a] == rest[a]);
                assert(queue[queue.len() - 1] == out[j]);
            }
        }
    }
}

/// What stays of a queue was in it.
proof fn lemma_outside_member<T>(queue: Seq<(String, T)>, prefix: Seq<char>, i: int)
    requires
        0 <= i < outside(queue, prefix).len(),
    ensures
        exists|a: int| 0 <= a < queue.len() && #[trigger] queue[a] == outside(queue, prefix)[i],
    decreases queue.len(),
{
    if queue.len() > 0 {
        let rest = queue.drop_last();
        let inner = outside(rest, prefix);
        if i < inner.len() {
            lemma_outside_member(rest, prefix, i);
            let a = choose|a: int| 0 <= a < rest.len() && #[trigger] rest[a] == inner[i];
            assert(queue[a] == rest[a]);
        } else {
            assert(queue[queue.len() - 1] == outside(queue, prefix)[i]);
        }
    }
}

/// A queue of tasks, each for one path, with the paths that are being
/// worked on. No path is queued twice, worked on twice, or both.
pub struct WorkQueue<T> {
    pub queue: VecDeque<(String, T)>,
    pub in_progress: Vec<String>,
    pub started_workers: usize,
}

impl<T> WorkQueue<T> {
    /// Whether a task for `path` waits in the queue.
    pub open spec fn queued(&self, path: Seq<char>) -> bool {
        queues(self.queue@, path)
    }

    /// Whether `path` is being worked on.
    pub open spec fn running(&self, path: Seq<char>) -> bool {
        holds(self.in_progress@, path)
    }

    /// Whether `path` is queued or being worked on.
    pub open spec fn known(&self, path: Seq<char>) -> bool {
        self.queued(path) || self.running(path)
    }

    /// No path occurs twice.
    pub open spec fn wf(&self) -> bool {
        &&& distinct(self.in_progress@)
        &&& forall|i: int, j: int|
            0 <= i < j < self.queue@.len() ==> (#[trigger] self.queue@[i]).0@ != (
            #[trigger] self.queue@[j]).0@
        &&& forall|i: int, j: int|
            0 <= i < self.queue@.len() && 0 <= j < self.in_progress@.len() ==> (
            #[trigger] self.queue@[i]).0@ != (#[trigger] self.in_progress@[j])@
    }

    /// The number of tasks queued or worked on, as far as a `usize` counts.
    pub open spec fn load(&self) -> int {
        if self.queue@.len() + self.in_progress@.len() > usize::MAX {
            usize::MAX as int
        } else {
            (self.queue@.len() + self.in_progress@.len()) as int
        }
    }

    /// An empty queue.
    pub fn new() -> (q: WorkQueue<T>)
        ensures
            q.wf(),
            q.queue@.len() == 0,
            q.in_progress@.len() == 0,
            q.started_workers == 0,
    {
        WorkQueue { queue: VecDeque::new(), in_progress: Vec::new(), started_workers: 0 }
    }

    fn is_queued(&self, path: &str) -> (r: bool)
        ensures
            r == self.queued(path@),
    {
        let wanted = path.to_owned();
        let mut i: usize = 0;
        while i < self.queue.len()
            invariant
                i <= self.queue@.len(),
                wanted@ == path@,
                forall|j: int| 0 <= j < i ==> (#[trigger] self.queue@[j]).0@ != path@,
            decreases self.queue@.len() - i,
        {
            if same_text(&self.queue[i].0, &wanted) {
                return true;
            }
            i += 1;
        }
        false
    }

    /// Whether `path` is queued or being worked on.
    pub fn is_tracked(&self, path: &str) -> (r: bool)
        ensures
            r == self.known(path@),
    {
        self.is_queued(path) || position_of(&self.in_progress, path).is_some()
    }

    /// Queues a task for `path`, unless the path is known already: at the
    /// front for a high priority, at the back for a low one.
    pub fn enqueue(&mut self, path: String, data: T, priority: TaskPriority) -> (added: bool)
        requires
            old(self).wf(),
        ensures
            final(self).wf(),
            added == !old(self).known(path@),
            final(self).in_progress == old(self).in_progress,
            final(self).started_workers == old(self).started_workers,
            final(self).queue@ == (if !added {
                old(self).queue@
            } else if priority == TaskPriority::High {
                seq![(path, data)] + old(self).queue@
            } else {
                old(self).queue@.push((path, data))
            }),
    {
        if self.is_tracked(path.as_str()) {
            return false;
        }
        let ghost before = self.queue@;
        let ghost p = path@;
        match priority {
            TaskPriority::High => self.queue.push_front((path, data)),
            TaskPriority::Low => self.queue.push_back((path, data)),
        }
        proof {
            let after = self.queue@;
            let shift: int = if priority == TaskPriority::High {
                1
            } else {
                0
            };
            let own: int = if priority == TaskPriority::High {
                0
            } else {
                before.len() as int
            };
            assert(after[own].0@ == p);
            assert forall|k: int| 0 <= k < before.len() implies #[trigger] after[k + shift]
                == before[k] by {}
            assert forall|i: int, j: int| 0 <= i < j < after.len() implies (
            #[trigger] after[i]).0@ != (#[trigger] after[j]).0@ by {
                if i != own && j != own {
                    assert(after[(i - shift) + shift] == before[i - shift]);
                    assert(after[(j - shift) + shift] == before[j - shift]);
                } else if i == own {
                    assert(after[(j - shift) + shift] == before[j - shift]);
                } else {
                    assert(after[(i - shift) + shift] == before[i - shift]);
                }
            }
            assert forall|i: int, j: int|
                0 <= i < after.len() && 0 <= j < self.in_progress@.len() implies (
            #[trigger] after[i]).0@ != (#[trigger] self.in_progress@[j])@ by {
                if i != own {
                    assert(after[(i - shift) + shift] == before[i - shift]);
                }
            }
        }
        true
    }

    /// Takes the task at the front of the queue; its path is being worked on
    /// from now on.
    pub fn next_task(&mut self) -> (task: Option<(String, T)>)
        requires
            old(self).wf(),
        ensures
            final(self).wf(),
            final(self).started_workers == old(self).started_workers,
            match task {
                Some(t) => {
                    &&& old(self).queue@.len() > 0
                    &&& t == old(self).queue@[0]
                    &&& final(self).queue@ == old(self).queue@.drop_first()
                    &&& forall|other: Seq<char>|
                        final(self).running(other) == (old(self).running(other) || other == t.0@)
                    &&& final(self).in_progress@.len() == old(self).in_progress@.len() + 1
                },
                None => {
                    &&& old(self).queue@.len() == 0
                    &&& final(self).queue@ == old(self).queue@
                    &&& final(self).in_progress == old(self).in_progress
                },
            },
    {
        let ghost before = self.queue@;
        match self.queue.pop_front() {
            Some((path, data)) => {
                proof {
                    assert(before[0].0@ == path@);
                    assert(!self.running(path@)) by {
                        if self.running(path@) {
                            let j = choose|j: int|
                                0 <= j < self.in_progress@.len() && (
                                #[trigger] self.in_progress@[j])@ == path@;
                            assert(before[0].0@ != self.in_progress@[j]@);
                        }
                    }
                    assert(self.queue@ =~= before.drop_first());
                }
                let ghost running_before = self.in_progress@;
                insert_path(&mut self.in_progress, path.clone());
                proof {
                    let after = self.queue@;
                    assert forall|i: int, j: int| 0 <= i < j < after.len() implies (
                    #[trigger] after[i]).0@ != (#[trigger] after[j]).0@ by {
                        assert(after[i] == before[i + 1] && after[j] == before[j + 1]);
                    }
                    assert forall|i: int, j: int|
                        0 <= i < after.len() && 0 <= j < self.in_progress@.len() implies (
                    #[trigger] after[i]).0@ != (#[trigger] self.in_progress@[j])@ by {
                        assert(after[i] == before[i + 1]);
                        if j < running_before.len() {
                            assert(self.in_progress@[j] == running_before[j]);
                        } else {
                            assert(before[0].0@ != before[i + 1].0@);
                        }
                    }
                }
                Some((path, data))
            },
            None => None,
        }
    }

    /// Ends the work on `path`. Tells whether the queue is idle afterwards:
    /// nothing queued, nothing worked on.
    pub fn mark_done(&mut self, path: &str) -> (idle: bool)
        requires
            old(self).wf(),
        ensures
            final(self).wf(),
            final(self).queue == old(self).queue,
            final(self).started_workers == old(self).started_workers,
            !final(self).running(path@),
            forall|other: Seq<char>|
                other != path@ ==> final(self).running(other) == old(self).running(other),
            final(self).in_progress@.len() <= old(self).in_progress@.len(),
            idle == (final(self).queue@.len() == 0 && final(self).in_progress@.len() == 0),
    {
        let ghost running_before = self.in_progress@;
        remove_path(&mut self.in_progress, path);
        proof {
            assert forall|i: int, j: int|
                0 <= i < self.queue@.len() && 0 <= j < self.in_progress@.len() implies (
            #[trigger] self.queue@[i]).0@ != (#[trigger] self.in_progress@[j])@ by {
                let other = self.in_progress@[j]@;
                assert(holds(self.in_progress@, other));
                assert(holds(running_before, other));
                let k = choose|k: int|
                    0 <= k < running_before.len() && (#[trigger] running_before[k])@ == other;
                assert(self.queue@[i].0@ != running_before[k]@);
            }
        }
        self.queue.len() == 0 && self.in_progress.len() == 0
    }

    /// Whether anything is queued or worked on.
    pub fn has_work(&self) -> (r: bool)
        ensures
            r == (self.queue@.len() > 0 || self.in_progress@.len() > 0),
    {
        self.queue.len() > 0 || self.in_progress.len() > 0
    }

    /// The number of tasks queued or worked on.
    pub fn outstanding(&self) -> (n: usize)
        ensures
            n == self.load(),
    {
        self.queue.len().saturating_add(self.in_progress.len())
    }

    /// Drops the queued tasks whose path lies under `prefix`, and tells how
    /// many they were. What is being worked on stays.
    pub fn trim_prefix(&mut self, prefix: &str) -> (removed: usize)
        requires
            old(self).wf(),
        ensures
            final(self).wf(),
            final(self).queue@ == outside(old(self).queue@, prefix@),
            final(self).in_progress == old(self).in_progress,
            final(self).started_workers == old(self).started_workers,
            removed == old(self).queue@.len() - final(self).queue@.len(),
    {
        let ghost before = self.queue@;
        let total: usize = self.queue.len();
        let mut kept: VecDeque<(String, T)> = VecDeque::new();
        let mut i: usize = 0;
        assert(before.take(0) =~= Seq::<(String, T)>::empty());
        while i < total
            invariant
                i <= total,
                total == before.len(),
                self.queue@ == before.subrange(i as int, total as int),
                kept@ == outside(before.take(i as int), prefix@),
                self.in_progress == old(self).in_progress,
                self.started_workers == old(self).started_workers,
            decreases total - i,
        {
            let task = self.queue.pop_front();
            proof {
                assert(before.take(i + 1).drop_last() =~= before.take(i as int));
                assert(before.take(i + 1).last() == before[i as int]);
                assert(self.queue@ =~= before.subrange(i + 1, total as int));
            }
            match task {
                Some(t) => {
                    if !starts_with(t.0.as_str(), prefix) {
                        kept.push_back(t);
                    }
                },
                None => {},
            }
            i += 1;
        }
        assert(before.take(total as int) =~= before);
        self.queue = kept;
        proof {
            lemma_outside(before, prefix@);
            let after = self.queue@;
            assert forall|a: int, b: int| 0 <= a < b < after.len() implies (
            #[trigger] after[a]).0@ != (#[trigger] after[b]).0@ by {
                assert(in_order(before, after[a], after[b]));
                let (x, y) = choose|x: int, y: int|
                    0 <= x < y < before.len() && #[trigger] before[x] == after[a]
                        && #[trigger] before[y] == after[b];
                assert(before[x].0@ != before[y].0@);
            }
            assert forall|i: int, j: int|
                0 <= i < after.len() && 0 <= j < self.in_progress@.len() implies (
            #[trigger] after[i]).0@ != (#[trigger] self.in_progress@[j])@ by {
                lemma_outside_member(before, prefix@, i);
                let a = choose|a: int| 0 <= a < before.len() && #[trigger] before[a] == after[i];
                assert(before[a].0@ != self.in_progress@[j]@);
            }
        }
        total - self.queue.len()
    }

    /// Forgets every task, queued or worked on.
    pub fn clear(&mut self)
        ensures
            final(self).wf(),
            final(self).queue@.len() == 0,
            final(self).in_progress@.len() == 0,
            final(self).started_workers == old(self).started_workers,
    {
        self.queue = VecDeque::new();
        self.in_progress = Vec::new();
    }

    /// Claims a place for one more worker, as long as fewer than `desired`
    /// were started; at least one worker is always wanted. Tells whether a
    /// worker is to be started.
    pub fn claim_worker(&mut self, desired: u32) -> (start: bool)
        ensures
            start == (old(self).started_workers < desired && old(self).started_workers
                < usize::MAX || old(self).started_workers == 0),
            final(self).started_workers == old(self).started_workers + (if start {
                1int
            } else {
                0int
            }),
            final(self).queue == old(self).queue,
            final(self).in_progress == old(self).in_progress,
    {
        let wanted: u32 = if desired < 1 {
            1
        } else {
            desired
        };
        if self.started_workers >= wanted as usize || self.started_workers == usize::MAX {
            return false;
        }
        self.started_workers = self.started_workers + 1;
        true
    }

    /// Whether any of `paths` is still queued or worked on: what a caller
    /// that waits for these paths goes on waiting for.
    pub fn awaits_any(&self, paths: &Vec<String>) -> (r: bool)
        ensures
            r == exists|i: int| 0 <= i < paths@.len() && self.known((#[trigger] paths@[i])@),
    {
        let mut i: usize = 0;
        while i < paths.len()
            invariant
                i <= paths.len(),
                forall|j: int| 0 <= j < i ==> !self.known((#[trigger] paths@[j])@),
            decreases paths.len() - i,
        {
            if self.is_tracked(paths[i].as_str()) {
                return true;
            }
            i += 1;
        }
        false
    }
}

/// The value that a list of records keeps for `path`, by its first record
/// from position `from` on.
pub open spec fn record_at<V>(records: Seq<(String, V)>, path: Seq<char>, from: int) -> Option<V>
    decreases records.len() - from,
{
    if from < 0 || from >= records.len() {
        None
    } else if records[from].0@ == path {
        Some(records[from].1)
    } else {
        record_at(records, path, from + 1)
    }
}

/// The value that a list of records keeps for `path`.
pub open spec fn record_of<V>(records: Seq<(String, V)>, path: Seq<char>) -> Option<V> {
    record_at(records, path, 0)
}

/// A record added at the end counts only for a path that had none.
pub proof fn lemma_record_push<V>(list: Seq<(String, V)>, item: (String, V), path: Seq<char>, from: int)
    requires
        0 <= from <= list.len(),
    ensures
        record_at(list.push(item), path, from) == (match record_at(list, path, from) {
            Some(t) => Some(t),
            None => if item.0@ == path {
                Some(item.1)
            } else {
                None
            },
        }),
    decreases list.len() - from,
{
    let grown = list.push(item);
    if from < list.len() {
        assert(grown[from] == list[from]);
        if list[from].0@ != path {
            lemma_record_push(list, item, path, from + 1);
        }
    } else {
        assert(grown[from] == item);
        assert(record_at(grown, path, from + 1) is None);
    }
}

/// The value kept for `path`.
pub fn lookup_record<V: Copy>(records: &Vec<(String, V)>, path: &str) -> (r: Option<V>)
    ensures
        r == record_of(records@, path@),
{
    let wanted = path.to_owned();
    let mut i: usize = 0;
    while i < records.len()
        invariant
            i <= records@.len(),
            wanted@ == path@,
            record_of(records@, path@) == record_at(records@, path@, i as int),
        decreases records@.len() - i,
    {
        if same_text(&records[i].0, &wanted) {
            return Some(records[i].1);
        }
        i += 1;
    }
    None
}

/// Drops every record of `path`; what is kept for other paths stays.
pub fn drop_record<V: Copy>(records: &mut Vec<(String, V)>, path: &str)
    ensures
        record_of(final(records)@, path@) is None,
        forall|other: Seq<char>|
            other != path@ ==> record_of(final(records)@, other) == record_of(old(records)@, other),
{
    let mut kept: Vec<(String, V)> = Vec::new();
    let ghost before = records@;
    let mut i: usize = 0;
    assert(before.take(0) =~= Seq::<(String, V)>::empty());
    while i < records.len()
        invariant
            i <= records@.len(),
            records@ == before,
            record_of(kept@, path@) is None,
            forall|other: Seq<char>|
                other != path@ ==> record_of(kept@, other) == record_of(before.take(i as int), other),
        decreases records@.len() - i,
    {
        let ghost kept_before = kept@;
        if !str_eq(records[i].0.as_str(), path) {
            kept.push((records[i].0.clone(), records[i].1));
        }
        proof {
            assert(before.take(i + 1) =~= before.take(i as int).push(before[i as int]));
            if before[i as int].0@ != path@ {
                lemma_record_push(kept_before, kept@[kept_before.len() as int], path@, 0);
            }
            assert forall|other: Seq<char>| other != path@ implies record_of(kept@, other)
                == record_of(before.take(i + 1), other) by {
                assert(record_of(kept_before, other) == record_of(before.take(i as int), other));
                lemma_record_push(before.take(i as int), before[i as int], other, 0);
                if before[i as int].0@ != path@ {
                    lemma_record_push(kept_before, kept@[kept_before.len() as int], other, 0);
                }
            }
        }
        i += 1;
    }
    assert(before.take(before.len() as int) =~= before);
    *records = kept;
}

/// Keeps `value` for `path`, in place of whatever was kept for it.
pub fn put_record<V: Copy>(records: &mut Vec<(String, V)>, path: &str, value: V)
    ensures
        record_of(final(records)@, path@) == Some(value),
        forall|other: Seq<char>|
            other != path@ ==> record_of(final(records)@, other) == record_of(old(records)@, other),
{
    drop_record(records, path);
    let ghost mid = records@;
    records.push((path.to_owned(), value));
    proof {
        lemma_record_push(mid, records@[mid.len() as int], path@, 0);
        assert forall|other: Seq<char>| other != path@ implies record_of(records@, other)
            == record_of(mid, other) by {
            lemma_record_push(mid, records@[mid.len() as int], other, 0);
        }
    }
}

} // verus!
