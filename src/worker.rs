//! The request worker: a request is a task holding its current subtask and a
//! priority; a scheduler mailbox admits tasks, a runner sends each to the
//! pool of its priority unless that pool is busy, and each finished subtask
//! either hands back the next subtask, which goes through the scheduler
//! again, or the task's final result.
//!
//! A task is never copied. Every function here that takes a task hands it
//! back or reports its final result under the task's id, so along every
//! path the result of a task is reported once.

use vstd::prelude::*;
use crate::dag::{DAGContext, Response, chunks_view, group_data, range_view, response_range};
use crate::errors::Error;
use crate::storage::{SnapshotStore, visible_value};

verus! {

/// The pool a task runs in.
#[derive(Debug, Clone, Copy, PartialEq, Eq, Structural)]
pub enum Priority {
    ReadCritical,
    ReadHigh,
    ReadNormal,
    ReadLow,
}

/// The priority a request carries on the wire.
#[derive(Debug, Clone, Copy, PartialEq, Eq, Structural)]
pub enum CommandPri {
    Low,
    Normal,
    High,
}

/// Wire priorities map to the read pools; `ReadCritical` is internal only.
pub fn map_pb_command_priority(priority: CommandPri) -> (r: Priority)
    ensures
        r == match priority {
            CommandPri::High => Priority::ReadHigh,
            CommandPri::Normal => Priority::ReadNormal,
            CommandPri::Low => Priority::ReadLow,
        },
{
    match priority {
        CommandPri::High => Priority::ReadHigh,
        CommandPri::Normal => Priority::ReadNormal,
        CommandPri::Low => Priority::ReadLow,
    }
}

/// The final result of a task.
#[derive(Debug, Clone, PartialEq, Eq)]
pub enum Value {
    /// The value of a point read, if the key has one.
    Storage(Option<Vec<u8>>),
    /// The response to a coprocessor request.
    Cop(Response),
    /// The frames of a streamed coprocessor request.
    CopStream(Vec<Response>),
}

/// Reads one key at `start_ts`.
pub struct KvGetSubTask {
    pub key: Vec<u8>,
    pub start_ts: u64,
}

/// Answers a coprocessor request in one response.
pub struct CopSubTask {
    pub dag: DAGContext,
}

/// Answers a coprocessor request in a stream: each hop produces one frame
/// and continues until the frame that ends the stream.
pub struct CopStreamSubTask {
    pub dag: DAGContext,
    pub frames: Vec<Response>,
}

/// One step of a request.
pub enum SubTask {
    KvGet(KvGetSubTask),
    Cop(CopSubTask),
    CopStream(CopStreamSubTask),
}

/// What a step produced: the next step, or the task's final result.
pub enum SubTaskResult {
    Continue(SubTask),
    Finish(Result<Value, Error>),
}

/// Per-thread limits of a pool's worker threads.
#[derive(Debug, Clone, Copy, PartialEq, Eq, Structural)]
pub struct WorkerThreadContext {
    pub end_point_batch_row_limit: usize,
    pub end_point_recursion_limit: u32,
}

impl SubTask {
    pub open spec fn wf(&self) -> bool {
        match self {
            SubTask::KvGet(_) => true,
            SubTask::Cop(c) => c.dag.wf(),
            SubTask::CopStream(c) => c.dag.wf(),
        }
    }

    /// Runs this step against the engine's snapshot `engine`; `now_ms` is
    /// the caller's clock reading, held against a request's deadline.
    pub fn async_work(self, _context: &WorkerThreadContext, engine: &SnapshotStore, now_ms: u64) -> (r: SubTaskResult)
        requires
            self.wf(),
        ensures
            self matches SubTask::KvGet(g) ==> (r matches SubTaskResult::Finish(Ok(Value::Storage(v)))
                && match v {
                Some(v) => visible_value(engine.versions(), g.start_ts, g.key@) == Some(v@),
                None => visible_value(engine.versions(), g.start_ts, g.key@) is None,
            }),
            self matches SubTask::Cop(c) ==> (c.dag.outdated(now_ms) ==> r == SubTaskResult::Finish(
                Err(Error::Outdated),
            )),
            self matches SubTask::Cop(c) ==> (!c.dag.outdated(now_ms) ==> (r matches SubTaskResult::Finish(res) && ({
                let d = c.dag;
                &&& d.frame_data(false) matches Err(e) ==> res == Err::<Value, Error>(e)
                &&& (d.frame_data(false) is Ok && d.executor().pending_error() is None) ==> (res
                    matches Ok(Value::Cop(resp)) && chunks_view(resp.chunks@) == group_data(
                    d.frame_data(false)->Ok_0,
                    d.batch_row_limit(),
                ) && range_view(resp.range) == response_range(
                    d.executor().remaining(),
                    d.executor().remaining().len(),
                ) && resp.other_error is None)
                &&& (d.frame_data(false) is Ok && d.executor().pending_error() is Some) ==> if d.executor().pending_error()->Some_0 is Other {
                    res matches Ok(Value::Cop(resp)) && resp.chunks@.len() == 0 && resp.range is None
                        && (resp.other_error matches Some(m) && m@ == d.executor().pending_error()->Some_0->Other_0@)
                } else {
                    res == Err::<Value, Error>(d.executor().pending_error()->Some_0)
                }
            }))),
            self matches SubTask::CopStream(c) ==> (c.dag.outdated(now_ms) ==> r
                == SubTaskResult::Finish(Err(Error::Outdated))),
            self matches SubTask::CopStream(c) ==> (!c.dag.outdated(now_ms) ==> {
                let d = c.dag;
                let rows = d.executor().remaining();
                &&& d.frame_data(true) matches Err(e) ==> r == SubTaskResult::Finish(Err(e))
                &&& (d.frame_data(true) is Ok && (d.frame_cut(true) is Some || (
                    d.executor().pending_error() is None && rows.len() > 0))) ==> (r matches SubTaskResult::Continue(
                    SubTask::CopStream(n),
                ) && n.dag.wf() && n.frames@.len() == c.frames@.len() + 1 && n.frames@.subrange(
                    0,
                    c.frames@.len() as int,
                ) == c.frames@ && chunks_view(n.frames@.last().chunks@) == group_data(
                    d.frame_data(true)->Ok_0,
                    d.batch_row_limit(),
                ) && range_view(n.frames@.last().range) == response_range(rows, d.frame_rows(true)))
                &&& (d.frame_data(true) is Ok && d.frame_cut(true) is None
                    && d.executor().pending_error() is None && rows.len() == 0) ==> (r matches SubTaskResult::Finish(
                    Ok(Value::CopStream(frames)),
                ) && frames@.len() == c.frames@.len() + 1 && frames@.subrange(0, c.frames@.len() as int)
                    == c.frames@ && frames@.last().chunks@.len() == 0 && frames@.last().range is None)
                &&& (d.frame_data(true) is Ok && d.frame_cut(true) is None
                    && d.executor().pending_error() is Some) ==> if d.executor().pending_error()->Some_0 is Other {
                    r matches SubTaskResult::Finish(Ok(Value::CopStream(frames))) && frames@.len()
                        == c.frames@.len() + 1 && frames@.last().other_error is Some
                } else {
                    r == SubTaskResult::Finish(Err(d.executor().pending_error()->Some_0))
                }
            }),
    {
        match self {
            SubTask::KvGet(g) => {
                let v = engine.get_at(g.key.as_slice(), g.start_ts);
                SubTaskResult::Finish(Ok(Value::Storage(v)))
            },
            SubTask::Cop(c) => {
                let mut dag = c.dag;
                match dag.handle_request(false, now_ms) {
                    Ok((resp, _)) => SubTaskResult::Finish(Ok(Value::Cop(resp))),
                    Err(e) => SubTaskResult::Finish(Err(e)),
                }
            },
            SubTask::CopStream(c) => {
                let mut dag = c.dag;
                let mut frames = c.frames;
                match dag.handle_request(true, now_ms) {
                    Ok((resp, remain)) => {
                        let ghost before = frames@;
                        frames.push(resp);
                        proof {
                            assert(frames@.subrange(0, before.len() as int) =~= before);
                        }
                        if remain {
                            SubTaskResult::Continue(SubTask::CopStream(CopStreamSubTask { dag, frames }))
                        } else {
                            SubTaskResult::Finish(Ok(Value::CopStream(frames)))
                        }
                    },
                    Err(e) => SubTaskResult::Finish(Err(e)),
                }
            },
        }
    }
}

/// A request in flight: its id, its current step and its priority.
pub struct Task {
    pub id: u64,
    pub subtask: Option<SubTask>,
    pub priority: Priority,
}

/// Why the scheduler turned a task away; the task comes back.
pub enum ScheduleError {
    Full(Task),
    Stopped(Task),
}

/// What became of a task handed on: it waits in a queue, or its final
/// result is to be delivered to its callback.
pub enum Dispatch {
    Queued(Task),
    Fired(u64, Result<Value, Error>),
}

/// The scheduler's mailbox: a bounded queue that stops taking tasks once
/// shut down.
pub struct Scheduler {
    pending: usize,
    capacity: usize,
    stopped: bool,
}

impl Scheduler {
    pub closed spec fn pending(&self) -> nat {
        self.pending as nat
    }

    pub closed spec fn capacity(&self) -> nat {
        self.capacity as nat
    }

    pub closed spec fn stopped(&self) -> bool {
        self.stopped
    }

    pub open spec fn wf(&self) -> bool {
        self.pending() <= self.capacity()
    }

    pub fn new(capacity: usize) -> (r: Scheduler)
        ensures
            r.wf(),
            r.pending() == 0,
            r.capacity() == capacity,
            !r.stopped(),
    {
        Scheduler { pending: 0, capacity, stopped: false }
    }

    /// Whether the scheduler was shut down.
    pub fn is_stopped(&self) -> (r: bool)
        ensures
            r == self.stopped(),
    {
        self.stopped
    }

    /// How many accepted tasks wait to be run.
    pub fn pending_tasks(&self) -> (r: usize)
        ensures
            r == self.pending(),
    {
        self.pending
    }

    /// Takes `t` into the queue, unless the scheduler is stopped or full.
    pub fn schedule(&mut self, t: Task) -> (r: Result<Task, ScheduleError>)
        requires
            old(self).wf(),
        ensures
            final(self).wf(),
            final(self).capacity() == old(self).capacity(),
            final(self).stopped() == old(self).stopped(),
            old(self).stopped() ==> (r matches Err(ScheduleError::Stopped(t2)) && t2 == t
                && final(self).pending() == old(self).pending()),
            (!old(self).stopped() && old(self).pending() >= old(self).capacity()) ==> (r matches Err(
                ScheduleError::Full(t2),
            ) && t2 == t && final(self).pending() == old(self).pending()),
            (!old(self).stopped() && old(self).pending() < old(self).capacity()) ==> (r matches Ok(
                t2,
            ) && t2 == t && final(self).pending() == old(self).pending() + 1),
    {
        if self.stopped {
            Err(ScheduleError::Stopped(t))
        } else if self.pending >= self.capacity {
            Err(ScheduleError::Full(t))
        } else {
            self.pending = self.pending + 1;
            Ok(t)
        }
    }

    /// A queued task was taken out to be run.
    pub fn on_dequeue(&mut self)
        requires
            old(self).wf(),
            old(self).pending() > 0,
        ensures
            final(self).wf(),
            final(self).pending() == old(self).pending() - 1,
            final(self).capacity() == old(self).capacity(),
            final(self).stopped() == old(self).stopped(),
    {
        self.pending = self.pending - 1;
    }

    /// Stops taking tasks.
    pub fn stop(&mut self)
        requires
            old(self).wf(),
        ensures
            final(self).wf(),
            final(self).stopped(),
            final(self).pending() == old(self).pending(),
            final(self).capacity() == old(self).capacity(),
    {
        self.stopped = true;
    }
}

/// Hands `t` to the scheduler. A task turned away gets its final result
/// at once: `SchedulerBusy` when the queue is full, `SchedulerStopped`
/// when the scheduler is shutting down.
pub fn schedule_task(scheduler: &mut Scheduler, t: Task) -> (r: Dispatch)
    requires
        old(scheduler).wf(),
    ensures
        final(scheduler).wf(),
        final(scheduler).capacity() == old(scheduler).capacity(),
        final(scheduler).stopped() == old(scheduler).stopped(),
        (old(scheduler).stopped() || old(scheduler).pending() >= old(scheduler).capacity()) ==> final(scheduler).pending() == old(scheduler).pending(),
        (!old(scheduler).stopped() && old(scheduler).pending() < old(scheduler).capacity()) ==> final(scheduler).pending() == old(scheduler).pending() + 1,
        old(scheduler).stopped() ==> r == Dispatch::Fired(t.id, Err(Error::SchedulerStopped(t.id))),
        (!old(scheduler).stopped() && old(scheduler).pending() >= old(scheduler).capacity()) ==> r
            == Dispatch::Fired(t.id, Err(Error::SchedulerBusy(t.id))),
        (!old(scheduler).stopped() && old(scheduler).pending() < old(scheduler).capacity()) ==> (r
            matches Dispatch::Queued(t2) && t2 == t && final(scheduler).pending() == old(scheduler).pending() + 1),
{
    match scheduler.schedule(t) {
        Err(ScheduleError::Full(t)) => Dispatch::Fired(t.id, Err(Error::SchedulerBusy(t.id))),
        Err(ScheduleError::Stopped(t)) => Dispatch::Fired(t.id, Err(Error::SchedulerStopped(t.id))),
        Ok(t) => Dispatch::Queued(t),
    }
}

/// A task that finished a step: the next step goes through the scheduler
/// again (and may be turned away there), a final result is reported.
pub fn finish_subtask(scheduler: &mut Scheduler, t: Task, result: SubTaskResult) -> (r: Dispatch)
    requires
        old(scheduler).wf(),
    ensures
        final(scheduler).wf(),
        final(scheduler).capacity() == old(scheduler).capacity(),
        final(scheduler).stopped() == old(scheduler).stopped(),
        (result is Finish || old(scheduler).stopped() || old(scheduler).pending() >= old(scheduler).capacity()) ==> final(scheduler).pending() == old(scheduler).pending(),
        (result is Continue && !old(scheduler).stopped() && old(scheduler).pending() < old(scheduler).capacity()) ==> final(scheduler).pending() == old(scheduler).pending() + 1,
        result matches SubTaskResult::Finish(res) ==> (r == Dispatch::Fired(t.id, res)
            && *final(scheduler) == *old(scheduler)),
        result matches SubTaskResult::Continue(next) ==> ({
            let t2 = Task { id: t.id, subtask: Some(next), priority: t.priority };
            &&& old(scheduler).stopped() ==> r == Dispatch::Fired(
                t.id,
                Err(Error::SchedulerStopped(t.id)),
            )
            &&& (!old(scheduler).stopped() && old(scheduler).pending() >= old(scheduler).capacity())
                ==> r == Dispatch::Fired(t.id, Err(Error::SchedulerBusy(t.id)))
            &&& (!old(scheduler).stopped() && old(scheduler).pending() < old(scheduler).capacity())
                ==> r == Dispatch::Queued(t2)
        }),
{
    match result {
        SubTaskResult::Continue(next) => {
            let mut t = t;
            t.subtask = Some(next);
            schedule_task(scheduler, t)
        },
        SubTaskResult::Finish(res) => Dispatch::Fired(t.id, res),
    }
}

/// A pool: its thread count and the tasks submitted to it and not yet done.
#[derive(Debug, Clone, Copy, PartialEq, Eq, Structural)]
pub struct PoolState {
    pub thread_count: usize,
    pub task_count: usize,
}

/// What the runner decided for a task.
pub enum RunDecision {
    /// Submit the task to the pool of its priority.
    Execute(Task),
    /// The task is done: deliver this result.
    Fired(u64, Result<Value, Error>),
}

/// The four read pools and their admission limit.
pub struct Runner {
    pub pool_read_critical: PoolState,
    pub pool_read_high: PoolState,
    pub pool_read_normal: PoolState,
    pub pool_read_low: PoolState,
    pub max_read_tasks: usize,
}

impl Runner {
    pub open spec fn pool(&self, p: Priority) -> PoolState {
        match p {
            Priority::ReadCritical => self.pool_read_critical,
            Priority::ReadHigh => self.pool_read_high,
            Priority::ReadNormal => self.pool_read_normal,
            Priority::ReadLow => self.pool_read_low,
        }
    }

    /// No pool holds more tasks than it admits.
    pub open spec fn wf(&self) -> bool {
        forall|p: Priority| #[trigger] self.pool(p).task_count <= self.max_read_tasks
    }

    /// The pool of a priority.
    pub fn get_pool_by_priority(&self, priority: Priority) -> (r: &PoolState)
        ensures
            *r == self.pool(priority),
    {
        match priority {
            Priority::ReadCritical => &self.pool_read_critical,
            Priority::ReadHigh => &self.pool_read_high,
            Priority::ReadNormal => &self.pool_read_normal,
            Priority::ReadLow => &self.pool_read_low,
        }
    }

    /// Whether the pool holds as many tasks as it admits.
    pub fn is_pool_busy(&self, pool: &PoolState) -> (r: bool)
        ensures
            r == (pool.task_count >= self.max_read_tasks),
    {
        pool.task_count >= self.max_read_tasks
    }

    fn pool_mut(&mut self, priority: Priority) -> (r: &mut PoolState)
        ensures
            *r == old(self).pool(priority),
            final(self).max_read_tasks == old(self).max_read_tasks,
            forall|p: Priority| p != priority ==> #[trigger] final(self).pool(p) == old(self).pool(p),
            final(self).pool(priority) == *final(r),
    {
        match priority {
            Priority::ReadCritical => &mut self.pool_read_critical,
            Priority::ReadHigh => &mut self.pool_read_high,
            Priority::ReadNormal => &mut self.pool_read_normal,
            Priority::ReadLow => &mut self.pool_read_low,
        }
    }

    /// Admits `t` to the pool of its priority, or, when that pool is busy,
    /// reports `PoolBusy` as the task's result; nothing is queued beyond
    /// the limit.
    pub fn run(&mut self, t: Task) -> (r: RunDecision)
        requires
            old(self).wf(),
        ensures
            final(self).wf(),
            final(self).max_read_tasks == old(self).max_read_tasks,
            old(self).pool(t.priority).task_count >= old(self).max_read_tasks ==> {
                &&& r == RunDecision::Fired(t.id, Err(Error::PoolBusy(t.id)))
                &&& forall|p: Priority| #[trigger] final(self).pool(p) == old(self).pool(p)
            },
            old(self).pool(t.priority).task_count < old(self).max_read_tasks ==> {
                &&& r matches RunDecision::Execute(t2) && t2 == t
                &&& final(self).pool(t.priority).task_count == old(self).pool(t.priority).task_count + 1
                &&& final(self).pool(t.priority).thread_count == old(self).pool(t.priority).thread_count
                &&& forall|p: Priority| p != t.priority ==> #[trigger] final(self).pool(p) == old(self).pool(p)
            },
    {
        let busy = {
            let pool = self.get_pool_by_priority(t.priority);
            self.is_pool_busy(pool)
        };
        if busy {
            let id = t.id;
            return RunDecision::Fired(id, Err(Error::PoolBusy(id)));
        }
        let priority = t.priority;
        let pool = self.pool_mut(priority);
        pool.task_count = pool.task_count + 1;
        proof {
            assert forall|p: Priority| #[trigger] self.pool(p).task_count <= self.max_read_tasks by {
                if p != priority {
                    assert(self.pool(p) == old(self).pool(p));
                }
            }
        }
        RunDecision::Execute(t)
    }

    /// A task of the pool of `priority` finished its step.
    pub fn on_task_done(&mut self, priority: Priority)
        requires
            old(self).wf(),
            old(self).pool(priority).task_count > 0,
        ensures
            final(self).wf(),
            final(self).max_read_tasks == old(self).max_read_tasks,
            final(self).pool(priority).task_count == old(self).pool(priority).task_count - 1,
            final(self).pool(priority).thread_count == old(self).pool(priority).thread_count,
            forall|p: Priority| p != priority ==> #[trigger] final(self).pool(p) == old(self).pool(p),
    {
        let pool = self.pool_mut(priority);
        pool.task_count = pool.task_count - 1;
        proof {
            assert forall|p: Priority| #[trigger] self.pool(p).task_count <= self.max_read_tasks by {
                if p != priority {
                    assert(self.pool(p) == old(self).pool(p));
                }
            }
        }
    }
}

/// The task count of one pool after `n` more tasks of its priority reach
/// `Runner::run` with none finishing, starting from `count`: each is admitted
/// exactly when the count is under `max`.
pub open spec fn count_after_admissions(count: nat, max: nat, n: nat) -> nat
    decreases n,
{
    if n == 0 {
        count
    } else {
        let c = count_after_admissions(count, max, (n - 1) as nat);
        if c < max {
            c + 1
        } else {
            c
        }
    }
}

/// Of `n` tasks that reach a pool holding `count <= max` tasks, with none
/// finishing meanwhile, exactly `min(n, max - count)` are admitted: the pool
/// never holds more than `max`, and the rest are turned away.
pub proof fn lemma_admission_bound(count: nat, max: nat, n: nat)
    requires
        count <= max,
    ensures
        count_after_admissions(count, max, n) <= max,
        count_after_admissions(count, max, n) == if count + n <= max {
            count + n
        } else {
            max
        },
    decreases n,
{
    if n > 0 {
        lemma_admission_bound(count, max, (n - 1) as nat);
    }
}

/// The worker's configuration.
#[derive(Debug, Clone, Copy, PartialEq, Eq, Structural)]
pub struct Config {
    pub read_critical_concurrency: usize,
    pub read_high_concurrency: usize,
    pub read_normal_concurrency: usize,
    pub read_low_concurrency: usize,
    pub max_read_tasks: usize,
    pub stack_size: usize,
    pub end_point_batch_row_limit: usize,
    pub end_point_recursion_limit: u32,
    /// How many tasks the scheduler's queue holds.
    pub scheduler_capacity: usize,
}

/// The worker's settings; the threads and queues that run it live outside.
pub struct GrpcRequestWorker {
    pub read_critical_concurrency: usize,
    pub read_high_concurrency: usize,
    pub read_normal_concurrency: usize,
    pub read_low_concurrency: usize,
    pub max_read_tasks: usize,
    pub stack_size: usize,
    pub end_point_batch_row_limit: usize,
    pub end_point_recursion_limit: u32,
    pub scheduler_capacity: usize,
}

impl GrpcRequestWorker {
    pub fn new(config: &Config) -> (r: GrpcRequestWorker)
        ensures
            r.read_critical_concurrency == config.read_critical_concurrency,
            r.read_high_concurrency == config.read_high_concurrency,
            r.read_normal_concurrency == config.read_normal_concurrency,
            r.read_low_concurrency == config.read_low_concurrency,
            r.max_read_tasks == config.max_read_tasks,
            r.stack_size == config.stack_size,
            r.end_point_batch_row_limit == config.end_point_batch_row_limit,
            r.end_point_recursion_limit == config.end_point_recursion_limit,
            r.scheduler_capacity == config.scheduler_capacity,
    {
        GrpcRequestWorker {
            read_critical_concurrency: config.read_critical_concurrency,
            read_high_concurrency: config.read_high_concurrency,
            read_normal_concurrency: config.read_normal_concurrency,
            read_low_concurrency: config.read_low_concurrency,
            max_read_tasks: config.max_read_tasks,
            stack_size: config.stack_size,
            end_point_batch_row_limit: config.end_point_batch_row_limit,
            end_point_recursion_limit: config.end_point_recursion_limit,
            scheduler_capacity: config.scheduler_capacity,
        }
    }

    /// The scheduler's mailbox, empty and open.
    pub fn build_scheduler(&self) -> (r: Scheduler)
        ensures
            r.wf(),
            r.pending() == 0,
            r.capacity() == self.scheduler_capacity,
            !r.stopped(),
    {
        Scheduler::new(self.scheduler_capacity)
    }

    /// The runner with its four pools, sized by the configuration, empty.
    pub fn build_runner(&self) -> (r: Runner)
        ensures
            r.wf(),
            r.max_read_tasks == self.max_read_tasks,
            r.pool(Priority::ReadCritical) == (PoolState { thread_count: self.read_critical_concurrency, task_count: 0 }),
            r.pool(Priority::ReadHigh) == (PoolState { thread_count: self.read_high_concurrency, task_count: 0 }),
            r.pool(Priority::ReadNormal) == (PoolState { thread_count: self.read_normal_concurrency, task_count: 0 }),
            r.pool(Priority::ReadLow) == (PoolState { thread_count: self.read_low_concurrency, task_count: 0 }),
    {
        Runner {
            pool_read_critical: PoolState { thread_count: self.read_critical_concurrency, task_count: 0 },
            pool_read_high: PoolState { thread_count: self.read_high_concurrency, task_count: 0 },
            pool_read_normal: PoolState { thread_count: self.read_normal_concurrency, task_count: 0 },
            pool_read_low: PoolState { thread_count: self.read_low_concurrency, task_count: 0 },
            max_read_tasks: self.max_read_tasks,
        }
    }

    /// The context each pool thread gets.
    pub fn thread_context(&self) -> (r: WorkerThreadContext)
        ensures
            r.end_point_batch_row_limit == self.end_point_batch_row_limit,
            r.end_point_recursion_limit == self.end_point_recursion_limit,
    {
        WorkerThreadContext {
            end_point_batch_row_limit: self.end_point_batch_row_limit,
            end_point_recursion_limit: self.end_point_recursion_limit,
        }
    }

    /// Wraps `begin_subtask` into task `id` and hands it to the scheduler.
    pub fn async_execute(&self, scheduler: &mut Scheduler, id: u64, begin_subtask: SubTask, priority: Priority) -> (r: Dispatch)
        requires
            old(scheduler).wf(),
        ensures
            final(scheduler).wf(),
            final(scheduler).capacity() == old(scheduler).capacity(),
            final(scheduler).stopped() == old(scheduler).stopped(),
            (old(scheduler).stopped() || old(scheduler).pending() >= old(scheduler).capacity()) ==> final(scheduler).pending() == old(scheduler).pending(),
            (!old(scheduler).stopped() && old(scheduler).pending() < old(scheduler).capacity()) ==> final(scheduler).pending() == old(scheduler).pending() + 1,
            old(scheduler).stopped() ==> r == Dispatch::Fired(id, Err(Error::SchedulerStopped(id))),
            (!old(scheduler).stopped() && old(scheduler).pending() >= old(scheduler).capacity())
                ==> r == Dispatch::Fired(id, Err(Error::SchedulerBusy(id))),
            (!old(scheduler).stopped() && old(scheduler).pending() < old(scheduler).capacity()) ==> r
                == Dispatch::Queued(Task { id, subtask: Some(begin_subtask), priority }),
    {
        let t = Task { id, subtask: Some(begin_subtask), priority };
        schedule_task(scheduler, t)
    }
}

} // verus!
