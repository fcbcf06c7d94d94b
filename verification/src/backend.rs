//! The backend: what it keeps in memory, and the tasks that it starts.

use crate::batch::{refuse_all, refused_batch, verdicts, BatchState, BatchTask, WriteResult};
use crate::expiry::{CollectState, CollectTask};
use crate::queue::{
    DequeueState, DequeueTask, NextReadyTask, QueueMessageId, RunningMessages, SingleState,
    DISPATCH_CONCURRENCY_LIMIT,
};
use crate::read::{ReadRange, SnapshotPhase, SnapshotState, SnapshotTask};
use crate::running::{
    finish_start, CleanupState, CleanupTask, FinishTask, KeepaliveState, KeepaliveTask,
};
use crate::schema::{MigrationState, MigrationTask};
use crate::views::seq_view;
use crate::write::AtomicWrite;
use vstd::prelude::*;

verus! {

/// What the backend keeps in memory.
#[derive(Debug)]
pub struct SqliteBackend {
    pub messages_running: RunningMessages,
    pub readonly: bool,
}

/// How a batch of writes begins.
pub enum BatchStart<'a> {
    /// It is refused, with a result for each write.
    Refused(Vec<WriteResult>),
    /// It is carried out by a task.
    Begun(BatchTask<'a>),
}

impl SqliteBackend {
    /// A backend on a connection. The schema is brought up to date by a task,
    /// unless the database is only read.
    pub fn new(force_readonly: bool, connection_readonly: bool) -> (opened: (
        SqliteBackend,
        Option<MigrationTask>,
    ))
        ensures
            opened.0.readonly == (force_readonly || connection_readonly),
            opened.0.messages_running@ == Seq::<Seq<char>>::empty(),
            opened.0.messages_running.wf(),
            opened.1 is None <==> opened.0.readonly,
            opened.1 matches Some(task) ==> task.fits() && task.state() == MigrationState::Fresh,
    {
        let readonly = force_readonly || connection_readonly;
        let task = if readonly {
            None
        } else {
            Some(MigrationTask::new())
        };
        (SqliteBackend { messages_running: RunningMessages::new(), readonly }, task)
    }

    /// Starts to read ranges, all of them at one version.
    pub fn snapshot_read<'a>(&self, requests: &'a Vec<ReadRange>) -> (task: SnapshotTask<'a>)
        ensures
            task.requests() == seq_view(requests@),
            task.state() == (SnapshotState { phase: SnapshotPhase::Fresh, ranges: seq![] }),
            task.fits(),
    {
        SnapshotTask::new(requests)
    }

    /// Starts to carry out writes, unless the database is only read.
    pub fn atomic_write_batched<'a>(&self, writes: &'a Vec<AtomicWrite>) -> (start: BatchStart<'a>)
        ensures
            match start {
                BatchStart::Refused(results) => self.readonly && verdicts(results@)
                    == refused_batch(writes@.len()),
                BatchStart::Begun(task) => !self.readonly && task.writes() == seq_view(writes@)
                    && task.state() == BatchState::Fresh && task.fits(),
            },
    {
        if self.readonly {
            BatchStart::Refused(refuse_all(writes.len()))
        } else {
            BatchStart::Begun(BatchTask::new(writes))
        }
    }

    /// Starts to put off the deadlines of the running messages.
    pub fn queue_running_keepalive(&self, now_ms: i64) -> (task: KeepaliveTask)
        ensures
            task.ids() == self.messages_running@,
            task.now_ms() == now_ms,
            task.state() == KeepaliveState::Fresh,
            task.fits(),
    {
        KeepaliveTask::new(now_ms, &self.messages_running)
    }

    /// Starts a round of requeueing the messages past their deadline. A round
    /// follows on each that does not end in `true`, at the same time.
    pub fn queue_cleanup(&self, now_ms: i64) -> (task: CleanupTask)
        ensures
            task.now_ms() == now_ms,
            task.state() == CleanupState::Fresh,
            task.fits(),
    {
        CleanupTask::new(now_ms)
    }

    /// Starts to take a message from the queue.
    pub fn queue_dequeue_message(&self, now_ms: i64) -> (task: DequeueTask)
        ensures
            task.now_ms() == now_ms,
            task.can_dispatch() == (self.messages_running@.len() < DISPATCH_CONCURRENCY_LIMIT),
            task.state() == DequeueState::Fresh,
            task.fits(),
    {
        DequeueTask::new(now_ms, &self.messages_running)
    }

    /// Starts to look when the next message is due.
    pub fn queue_next_ready(&self) -> (task: NextReadyTask)
        ensures
            task.state() == SingleState::Fresh,
    {
        NextReadyTask::new()
    }

    /// Starts to finish a message, after a delivery that succeeded or did not.
    pub fn queue_finish_message(&self, now_ms: i64, id: &QueueMessageId, success: bool) -> (task:
        FinishTask)
        ensures
            task.id() == id@,
            task.now_ms() == now_ms,
            task.state() == finish_start(success),
            task.fits(),
    {
        FinishTask::new(now_ms, id, success)
    }

    /// Starts to delete the values whose time is over.
    pub fn collect_expired(&self, now_ms: i64) -> (task: CollectTask)
        ensures
            task.now_ms() == now_ms,
            task.state() == CollectState::Fresh,
    {
        CollectTask::new(now_ms)
    }
}

} // verus!
