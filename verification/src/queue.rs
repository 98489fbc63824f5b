//! The cognitive processing queue: tasks waiting for background workers,
//! with committee evaluations gathered into batches by size or by age.
use vstd::prelude::*;
use crate::clock::now_millis;
use crate::text::{decimal, push_decimal};

verus! {

/// A point in time of the monotonic clock.
#[verifier::external_type_specification]
#[verifier::external_body]
pub struct ExInstant(std::time::Instant);

/// Calls `std::time::Instant::now`; nothing is promised of the value.
#[verifier::external_body]
fn instant_now() -> std::time::Instant {
    std::time::Instant::now()
}

/// Calls `Instant::elapsed` and gives the whole milliseconds elapsed since
/// `since`; nothing is promised of the value.
#[verifier::external_body]
fn elapsed_millis(since: &std::time::Instant) -> u128 {
    since.elapsed().as_millis()
}

/// Kinds of cognitive task.
#[derive(Debug, Clone, PartialEq, Eq)]
pub enum CognitiveTaskType {
    /// Evaluate memory quality with the model committee
    CommitteeEvaluation,
    /// Determine the routing strategy
    QuantumRouting,
    /// Discover entangled (related) memories
    EntanglementDiscovery,
    /// Evaluate several memories at once
    BatchProcessing(Vec<String>),
}

/// A cognitive task with its priority (0 lowest, 255 highest) and the time
/// it was created, in milliseconds since the Unix epoch.
#[derive(Debug)]
pub struct CognitiveTask {
    /// The memory the task is about
    pub memory_id: String,
    /// What to do
    pub task_type: CognitiveTaskType,
    /// Priority: 0 lowest, 255 highest
    pub priority: u8,
    /// Creation time
    pub created_at: i64,
}

impl CognitiveTask {
    /// A task created now.
    pub fn new(memory_id: String, task_type: CognitiveTaskType, priority: u8) -> (r: CognitiveTask)
        ensures
            r.memory_id == memory_id,
            r.task_type == task_type,
            r.priority == priority,
    {
        CognitiveTask { memory_id, task_type, priority, created_at: now_millis() }
    }
}

/// Gathers tasks into batches, released when the batch is full or when
/// the last release is old enough.
#[derive(Debug)]
pub struct BatchAccumulator {
    tasks: Vec<CognitiveTask>,
    max_batch_size: usize,
    max_wait_ms: u64,
    last_batch_time: std::time::Instant,
}

impl BatchAccumulator {
    /// The tasks gathered so far, in arrival order.
    pub closed spec fn pending(&self) -> Seq<CognitiveTask> {
        self.tasks@
    }

    /// The batch size at which a batch is released.
    pub closed spec fn capacity(&self) -> nat {
        self.max_batch_size as nat
    }

    /// The age (milliseconds) of the last release at which a batch is
    /// released whatever its size.
    pub closed spec fn max_wait(&self) -> nat {
        self.max_wait_ms as nat
    }

    /// An empty accumulator releasing batches of `max_batch_size` tasks, or
    /// older than `max_wait_ms` milliseconds.
    pub fn new(max_batch_size: usize, max_wait_ms: u64) -> (r: BatchAccumulator)
        ensures
            r.pending().len() == 0,
            r.capacity() == max_batch_size,
            r.max_wait() == max_wait_ms,
    {
        BatchAccumulator {
            tasks: Vec::new(),
            max_batch_size,
            max_wait_ms,
            last_batch_time: instant_now(),
        }
    }

    /// Whether the gathered tasks form a batch to release, `waited_ms`
    /// milliseconds after the last release: when there are at least as many
    /// as the batch size, or when some are waiting and the wait is over.
    pub fn batch_ready(&self, waited_ms: u128) -> (r: bool)
        ensures
            r == (self.pending().len() >= self.capacity() || (waited_ms >= self.max_wait()
                && self.pending().len() > 0)),
    {
        self.tasks.len() >= self.max_batch_size || (waited_ms >= self.max_wait_ms as u128
            && self.tasks.len() > 0)
    }

    /// Adds a task and releases the gathered tasks, oldest first, if they
    /// now form a batch (full, or the last release is old enough).
    pub fn add(&mut self, task: CognitiveTask) -> (r: Option<Vec<CognitiveTask>>)
        ensures
            final(self).capacity() == old(self).capacity(),
            final(self).max_wait() == old(self).max_wait(),
            match r {
                Some(batch) => batch@ == old(self).pending().push(task) && final(self).pending().len() == 0,
                None => final(self).pending() == old(self).pending().push(task),
            },
            old(self).pending().len() + 1 >= old(self).capacity() ==> r is Some,
    {
        let waited = elapsed_millis(&self.last_batch_time);
        self.add_waited(task, waited)
    }

    /// Adds a task `waited_ms` milliseconds after the last release, and
    /// releases the gathered tasks, oldest first, exactly when they now
    /// fill a batch or the wait is over; otherwise they are held back.
    pub fn add_waited(&mut self, task: CognitiveTask, waited_ms: u128) -> (r: Option<Vec<CognitiveTask>>)
        ensures
            final(self).capacity() == old(self).capacity(),
            final(self).max_wait() == old(self).max_wait(),
            (r is Some) == (old(self).pending().len() + 1 >= old(self).capacity() || waited_ms >= old(self).max_wait()),
            match r {
                Some(batch) => batch@ == old(self).pending().push(task) && final(self).pending().len() == 0,
                None => final(self).pending() == old(self).pending().push(task),
            },
    {
        self.tasks.push(task);
        if self.batch_ready(waited_ms) {
            let mut batch: Vec<CognitiveTask> = Vec::new();
            std::mem::swap(&mut batch, &mut self.tasks);
            self.last_batch_time = instant_now();
            Some(batch)
        } else {
            None
        }
    }

    /// Releases every gathered task, oldest first, if there is any.
    pub fn flush(&mut self) -> (r: Option<Vec<CognitiveTask>>)
        ensures
            final(self).capacity() == old(self).capacity(),
            final(self).max_wait() == old(self).max_wait(),
            old(self).pending().len() == 0 ==> r is None && final(self).pending() == old(self).pending(),
            old(self).pending().len() > 0 ==> (r matches Some(batch) && batch@ == old(self).pending()
                && final(self).pending().len() == 0),
    {
        if self.tasks.len() == 0 {
            None
        } else {
            let mut batch: Vec<CognitiveTask> = Vec::new();
            std::mem::swap(&mut batch, &mut self.tasks);
            self.last_batch_time = instant_now();
            Some(batch)
        }
    }
}

/// The memory IDs of a batch of tasks, in order.
pub open spec fn batch_ids(batch: Seq<CognitiveTask>) -> Seq<Seq<char>> {
    batch.map_values(|t: CognitiveTask| t.memory_id@)
}

/// Whether `t` is the batch task for `batch`, named `prefix` followed by the
/// number of tasks: medium priority (5), listing the batch's memory IDs.
pub open spec fn is_batch_task(t: CognitiveTask, prefix: Seq<char>, batch: Seq<CognitiveTask>) -> bool {
    &&& t.memory_id@ == prefix + decimal(batch.len())
    &&& t.priority == 5
    &&& t.task_type matches CognitiveTaskType::BatchProcessing(ids) && ids@.map_values(|s: String| s@)
        == batch_ids(batch)
}

/// A queue of cognitive tasks, served oldest first; committee evaluations
/// are gathered into batches (of 5, or every 2 seconds) before they enter
/// the queue.
#[derive(Debug)]
pub struct CognitiveProcessingQueue {
    queued: Vec<CognitiveTask>,
    batch_accumulator: BatchAccumulator,
}

/// Builds the batch task for `batch`, named `prefix` and the batch size.
fn batch_task_for(prefix: &str, batch: Vec<CognitiveTask>) -> (r: CognitiveTask)
    ensures
        is_batch_task(r, prefix@, batch@),
{
    let n = batch.len();
    let mut ids: Vec<String> = Vec::new();
    let mut i: usize = 0;
    while i < n
        invariant
            n == batch@.len(),
            i <= n,
            ids@.map_values(|s: String| s@) == batch_ids(batch@.take(i as int)),
        decreases n - i,
    {
        let id = String::from_str(batch[i].memory_id.as_str());
        let ghost before = ids@;
        ids.push(id);
        proof {
            assert(ids@ == before.push(id));
            assert(batch@.take(i + 1) =~= batch@.take(i as int).push(batch@[i as int]));
            assert(batch_ids(batch@.take(i + 1)) =~= batch_ids(batch@.take(i as int)).push(batch@[i as int].memory_id@));
            assert(ids@.map_values(|s: String| s@) =~= batch_ids(batch@.take(i + 1)));
        }
        i = i + 1;
    }
    assert(batch@.take(n as int) =~= batch@);
    let mut name = String::from_str(prefix);
    push_decimal(&mut name, n as u64);
    CognitiveTask::new(name, CognitiveTaskType::BatchProcessing(ids), 5)
}

impl CognitiveProcessingQueue {
    /// The tasks in the queue, oldest first.
    pub closed spec fn queued(&self) -> Seq<CognitiveTask> {
        self.queued@
    }

    /// The committee evaluations gathered but not yet batched.
    pub closed spec fn gathering(&self) -> Seq<CognitiveTask> {
        self.batch_accumulator.pending()
    }

    /// The size at which gathered evaluations are batched.
    pub closed spec fn batch_capacity(&self) -> nat {
        self.batch_accumulator.capacity()
    }

    /// An empty queue that batches committee evaluations by 5, or after 2
    /// seconds.
    pub fn new() -> (r: CognitiveProcessingQueue)
        ensures
            r.queued().len() == 0,
            r.gathering().len() == 0,
            r.batch_capacity() == 5,
    {
        CognitiveProcessingQueue { queued: Vec::new(), batch_accumulator: BatchAccumulator::new(5, 2000) }
    }

    /// Puts a task at the back of the queue.
    pub fn enqueue(&mut self, task: CognitiveTask) -> (r: Result<(), String>)
        ensures
            r is Ok,
            final(self).queued() == old(self).queued().push(task),
            final(self).gathering() == old(self).gathering(),
            final(self).batch_capacity() == old(self).batch_capacity(),
    {
        self.queued.push(task);
        Ok(())
    }

    /// Enqueues a task; a committee evaluation is gathered instead, and
    /// when that completes a batch, one batch task named "batch_<n>" with
    /// the batch's memory IDs enters the queue.
    pub fn enqueue_with_batching(&mut self, task: CognitiveTask) -> (r: Result<(), String>)
        ensures
            r is Ok,
            final(self).batch_capacity() == old(self).batch_capacity(),
            !(task.task_type is CommitteeEvaluation) ==> final(self).queued() == old(self).queued().push(task)
                && final(self).gathering() == old(self).gathering(),
            task.task_type is CommitteeEvaluation ==> ({
                let all = old(self).gathering().push(task);
                ||| (final(self).queued() == old(self).queued() && final(self).gathering() == all)
                ||| (final(self).gathering().len() == 0 && final(self).queued().len() == old(self).queued().len() + 1
                    && final(self).queued().drop_last() == old(self).queued()
                    && is_batch_task(final(self).queued().last(), "batch_"@, all))
            }),
            task.task_type is CommitteeEvaluation && old(self).gathering().len() + 1 >= old(self).batch_capacity()
                ==> final(self).gathering().len() == 0,
            old(self).gathering().len() < old(self).batch_capacity() ==> final(self).gathering().len()
                < final(self).batch_capacity(),
    {
        match task.task_type {
            CognitiveTaskType::CommitteeEvaluation => {
                let ghost all = self.batch_accumulator.pending().push(task);
                match self.batch_accumulator.add(task) {
                    Some(batch) => {
                        let t = batch_task_for("batch_", batch);
                        self.queued.push(t);
                    },
                    None => {},
                }
                Ok(())
            },
            _ => self.enqueue(task),
        }
    }

    /// Moves any gathered committee evaluations into the queue as one batch
    /// task named "batch_flush_<n>".
    pub fn flush_batches(&mut self) -> (r: Result<(), String>)
        ensures
            r is Ok,
            final(self).gathering().len() == 0,
            final(self).batch_capacity() == old(self).batch_capacity(),
            old(self).gathering().len() == 0 ==> final(self).queued() == old(self).queued(),
            old(self).gathering().len() > 0 ==> final(self).queued().len() == old(self).queued().len() + 1
                && final(self).queued().drop_last() == old(self).queued() && is_batch_task(
                final(self).queued().last(),
                "batch_flush_"@,
                old(self).gathering(),
            ),
    {
        match self.batch_accumulator.flush() {
            Some(batch) => {
                let t = batch_task_for("batch_flush_", batch);
                self.queued.push(t);
            },
            None => {},
        }
        Ok(())
    }

    /// Takes the oldest task, if any.
    pub fn try_dequeue(&mut self) -> (r: Option<CognitiveTask>)
        ensures
            old(self).queued().len() == 0 ==> r is None && final(self).queued() == old(self).queued(),
            old(self).queued().len() > 0 ==> r == Some(old(self).queued()[0]) && final(self).queued()
                == old(self).queued().drop_first(),
            final(self).gathering() == old(self).gathering(),
            final(self).batch_capacity() == old(self).batch_capacity(),
    {
        if self.queued.len() == 0 {
            None
        } else {
            Some(self.queued.remove(0))
        }
    }

    /// Takes up to `size` of the oldest tasks, oldest first.
    pub fn batch_dequeue(&mut self, size: usize) -> (r: Vec<CognitiveTask>)
        ensures
            ({
                let k = if size < old(self).queued().len() { size as int } else { old(self).queued().len() as int };
                r@ == old(self).queued().take(k) && final(self).queued() == old(self).queued().skip(k)
            }),
            final(self).gathering() == old(self).gathering(),
            final(self).batch_capacity() == old(self).batch_capacity(),
    {
        let ghost q = self.queued@;
        let mut batch: Vec<CognitiveTask> = Vec::new();
        let mut i: usize = 0;
        while i < size && self.queued.len() > 0
            invariant
                i <= size,
                i <= q.len(),
                batch@ == q.take(i as int),
                self.queued@ == q.skip(i as int),
                self.batch_accumulator == old(self).batch_accumulator,
                q == old(self).queued(),
            decreases size - i,
        {
            let t = self.queued.remove(0);
            proof {
                assert(q.skip(i as int)[0] == q[i as int]);
                assert(q.take(i + 1) =~= q.take(i as int).push(q[i as int]));
                assert(q.skip(i as int).drop_first() =~= q.skip(i + 1));
            }
            batch.push(t);
            i = i + 1;
        }
        batch
    }

    /// The number of tasks in the queue.
    pub fn get_depth(&self) -> (r: usize)
        ensures
            r == self.queued().len(),
    {
        self.queued.len()
    }
}

impl Default for CognitiveProcessingQueue {
    /// An empty queue (same as `new`).
    fn default() -> (r: CognitiveProcessingQueue)
        ensures
            r.queued().len() == 0,
            r.gathering().len() == 0,
            r.batch_capacity() == 5,
    {
        CognitiveProcessingQueue::new()
    }
}

} // verus!
