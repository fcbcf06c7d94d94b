//! The running messages: they are kept alive, they finish, or they are taken for
//! dead.

use crate::bytes::copy_text;
use crate::clock::{add_millis, later, to_unsigned, unsigned};
use crate::error::SqliteBackendError;
use crate::queue::{QueueMessageId, RunningMessages, MESSAGE_DEADLINE_TIMEOUT_MS};
use crate::request::{ask, failed, Action, Answer, Move, Reply, Request, Sql, Statement, Step};
use crate::requeue::{
    requeue_expects, requeue_message, requeue_step, texts_read_back, RequeueState, RequeueTask,
};
use crate::views::seq_view;
use vstd::prelude::*;

verus! {

/// What the task waits for that keeps messages alive.
#[derive(Debug, PartialEq, Eq, Clone, Copy)]
pub enum KeepaliveState {
    /// To begin.
    Fresh,
    /// For the deadline of a message to be put off.
    Updating { index: usize },
    /// For nothing any more.
    Finished,
}

/// The deadline of the message at `index` is put off; after the last one the task
/// is done.
pub open spec fn keep_alive_from(ids: Seq<Seq<char>>, now_ms: i64, index: usize) -> (
    KeepaliveState,
    Move<()>,
) {
    if index < ids.len() {
        match later(now_ms as int, MESSAGE_DEADLINE_TIMEOUT_MS as int) {
            Some(deadline) => (
                KeepaliveState::Updating { index },
                ask(
                    Sql::UpdateDeadline {
                        deadline: unsigned(deadline) as u64,
                        id: ids[index as int],
                    },
                ),
            ),
            None => (KeepaliveState::Finished, Move::ClockOverflow),
        }
    } else {
        (KeepaliveState::Finished, Move::Done(Ok(())))
    }
}

/// The task goes on with what it is told.
pub open spec fn keepalive_step(
    ids: Seq<Seq<char>>,
    now_ms: i64,
    state: KeepaliveState,
    answer: Answer,
) -> (KeepaliveState, Move<()>) {
    match (state, answer) {
        (_, Answer::Failed(failure)) => (KeepaliveState::Finished, failed(failure)),
        (KeepaliveState::Fresh, _) => keep_alive_from(ids, now_ms, 0),
        (KeepaliveState::Updating { index }, _) => keep_alive_from(
            ids,
            now_ms,
            (index + 1) as usize,
        ),
        _ => (state, Move::ClockOverflow),
    }
}

/// Whether the task can be told this.
pub open spec fn keepalive_expects(state: KeepaliveState, answer: Answer) -> bool {
    match (state, answer) {
        (KeepaliveState::Fresh, Answer::Begin) => true,
        (KeepaliveState::Updating { .. }, Answer::Changed(n)) => n <= 1,
        (KeepaliveState::Updating { .. }, Answer::Failed(_)) => true,
        _ => false,
    }
}

/// The task that keeps messages alive.
pub struct KeepaliveTask {
    ids: Vec<String>,
    now_ms: i64,
    state: KeepaliveState,
}

impl KeepaliveTask {
    /// The messages to keep alive.
    pub closed spec fn ids(&self) -> Seq<Seq<char>> {
        seq_view(self.ids@)
    }

    /// The time from which on they are kept alive.
    pub closed spec fn now_ms(&self) -> i64 {
        self.now_ms
    }

    /// Where the task stands.
    pub closed spec fn state(&self) -> KeepaliveState {
        self.state
    }

    /// Whether it can stand there.
    pub open spec fn fits(&self) -> bool {
        self.state() matches KeepaliveState::Updating { index } ==> index < self.ids().len()
    }

    /// Starts to keep those messages alive.
    pub fn new(now_ms: i64, running: &RunningMessages) -> (task: KeepaliveTask)
        ensures
            task.ids() == running@,
            task.now_ms() == now_ms,
            task.state() == KeepaliveState::Fresh,
            task.fits(),
    {
        KeepaliveTask { ids: running.texts(), now_ms, state: KeepaliveState::Fresh }
    }

    /// Whether the task can be told this.
    pub fn accepts(&self, reply: &Reply) -> (accepted: bool)
        ensures
            accepted == keepalive_expects(self.state(), reply@),
    {
        match (self.state, reply) {
            (KeepaliveState::Fresh, Reply::Begin) => true,
            (KeepaliveState::Updating { .. }, Reply::Changed(n)) => *n <= 1,
            (KeepaliveState::Updating { .. }, Reply::Failed(_)) => true,
            _ => false,
        }
    }

    fn keep_alive(&mut self, index: usize) -> (step: Step<()>)
        ensures
            final(self).ids() == old(self).ids(),
            final(self).now_ms() == old(self).now_ms(),
            final(self).fits(),
            (final(self).state(), step@) == keep_alive_from(
                old(self).ids(),
                old(self).now_ms(),
                index,
            ),
    {
        if index < self.ids.len() {
            match add_millis(self.now_ms, MESSAGE_DEADLINE_TIMEOUT_MS) {
                Some(deadline) => {
                    self.state = KeepaliveState::Updating { index };
                    Step::Ask(
                        Request::Sql(
                            Statement::UpdateDeadline {
                                deadline: to_unsigned(deadline),
                                id: copy_text(&self.ids[index]),
                            },
                        ),
                    )
                },
                None => {
                    self.state = KeepaliveState::Finished;
                    Step::ClockOverflow
                },
            }
        } else {
            self.state = KeepaliveState::Finished;
            Step::Done(Ok(()))
        }
    }

    /// Goes on with what it is told.
    pub fn resume(&mut self, reply: Reply) -> (step: Step<()>)
        requires
            old(self).fits(),
            keepalive_expects(old(self).state(), reply@),
        ensures
            final(self).ids() == old(self).ids(),
            final(self).now_ms() == old(self).now_ms(),
            final(self).fits(),
            (final(self).state(), step@) == keepalive_step(
                old(self).ids(),
                old(self).now_ms(),
                old(self).state(),
                reply@,
            ),
    {
        match (self.state, reply) {
            (_, Reply::Failed(e)) => {
                self.state = KeepaliveState::Finished;
                Step::Done(Err(SqliteBackendError::SqliteError(e)))
            },
            (KeepaliveState::Fresh, _) => self.keep_alive(0),
            (KeepaliveState::Updating { index }, _) => {
                assert(index < self.ids.len());
                self.keep_alive(index + 1)
            },
            _ => Step::ClockOverflow,
        }
    }
}

/// What the task waits for that finishes a message.
pub enum FinishPhase {
    /// To begin with the end of a delivery that succeeded.
    Fresh,
    /// For the message to leave the running ones.
    Removing,
    /// For the message to be requeued.
    Requeueing(RequeueTask),
    /// For nothing any more.
    Finished,
}

/// Where the task stands that finishes a message.
pub enum FinishState {
    Fresh,
    Removing,
    Requeueing(RequeueState),
    Finished,
}

/// Where the task begins.
pub open spec fn finish_start(success: bool) -> FinishState {
    if success {
        FinishState::Fresh
    } else {
        FinishState::Requeueing(RequeueState::Fresh)
    }
}

/// The task goes on with what it is told. A message whose delivery succeeded
/// leaves the running ones, another one is requeued.
pub open spec fn finish_step(
    id: Seq<char>,
    now_ms: i64,
    state: FinishState,
    answer: Answer,
) -> (FinishState, Move<bool>) {
    match state {
        FinishState::Requeueing(state) => {
            let (next, step) = requeue_step(id, now_ms, state, answer);
            (FinishState::Requeueing(next), step)
        },
        FinishState::Fresh => (FinishState::Removing, ask(Sql::RemoveRunning { id })),
        FinishState::Removing => (
            FinishState::Finished,
            match answer {
                Answer::Failed(failure) => failed(failure),
                _ => Move::Done(Ok(false)),
            },
        ),
        FinishState::Finished => (state, Move::ClockOverflow),
    }
}

/// Whether the task can be told this.
pub open spec fn finish_expects(state: FinishState, answer: Answer) -> bool {
    match (state, answer) {
        (FinishState::Requeueing(state), _) => requeue_expects(state, answer),
        (FinishState::Fresh, Answer::Begin) => true,
        (FinishState::Removing, Answer::Changed(n)) => n <= 1,
        (FinishState::Removing, Answer::Failed(_)) => true,
        _ => false,
    }
}

/// The task that finishes a message. It ends in whether the message was queued
/// again, which those who wait for messages are told after the commit.
pub struct FinishTask {
    id: String,
    now_ms: i64,
    phase: FinishPhase,
}

impl FinishTask {
    /// The name of the message.
    pub closed spec fn id(&self) -> Seq<char> {
        self.id@
    }

    /// The time at which it finishes.
    pub closed spec fn now_ms(&self) -> i64 {
        self.now_ms
    }

    /// Where the task stands.
    pub closed spec fn state(&self) -> FinishState {
        match self.phase {
            FinishPhase::Fresh => FinishState::Fresh,
            FinishPhase::Removing => FinishState::Removing,
            FinishPhase::Requeueing(task) => FinishState::Requeueing(task.state()),
            FinishPhase::Finished => FinishState::Finished,
        }
    }

    /// Whether it can stand there.
    pub closed spec fn fits(&self) -> bool {
        self.phase matches FinishPhase::Requeueing(task) ==> task.fits() && task.id() == self.id@
            && task.now_ms() == self.now_ms
    }

    /// Starts to finish a message, after a delivery that succeeded or did not.
    pub fn new(now_ms: i64, id: &QueueMessageId, success: bool) -> (task: FinishTask)
        ensures
            task.id() == id@,
            task.now_ms() == now_ms,
            task.state() == finish_start(success),
            task.fits(),
    {
        let phase = if success {
            FinishPhase::Fresh
        } else {
            FinishPhase::Requeueing(requeue_message(id.text(), now_ms))
        };
        FinishTask { id: id.text(), now_ms, phase }
    }

    /// Whether the task can be told this.
    pub fn accepts(&self, reply: &Reply) -> (accepted: bool)
        ensures
            accepted == finish_expects(self.state(), reply@),
    {
        match (&self.phase, reply) {
            (FinishPhase::Requeueing(task), _) => task.accepts(reply),
            (FinishPhase::Fresh, Reply::Begin) => true,
            (FinishPhase::Removing, Reply::Changed(n)) => *n <= 1,
            (FinishPhase::Removing, Reply::Failed(_)) => true,
            _ => false,
        }
    }

    /// Goes on with what it is told.
    pub fn resume(&mut self, reply: Reply) -> (step: Step<bool>)
        requires
            old(self).fits(),
            finish_expects(old(self).state(), reply@),
        ensures
            final(self).id() == old(self).id(),
            final(self).now_ms() == old(self).now_ms(),
            final(self).fits(),
            (final(self).state(), step@) == finish_step(
                old(self).id(),
                old(self).now_ms(),
                old(self).state(),
                reply@,
            ),
            old(self).state() matches FinishState::Requeueing(state) ==> texts_read_back(
                state,
                reply@,
            ),
    {
        let mut phase = FinishPhase::Finished;
        core::mem::swap(&mut phase, &mut self.phase);
        let (next, step) = match phase {
            FinishPhase::Requeueing(mut task) => {
                let step = task.resume(reply);
                (FinishPhase::Requeueing(task), step)
            },
            FinishPhase::Fresh => (
                FinishPhase::Removing,
                Step::Ask(Request::Sql(Statement::RemoveRunning { id: copy_text(&self.id) })),
            ),
            FinishPhase::Removing => (
                FinishPhase::Finished,
                match reply {
                    Reply::Failed(e) => Step::Done(Err(SqliteBackendError::SqliteError(e))),
                    _ => Step::Done(Ok(false)),
                },
            ),
            FinishPhase::Finished => (FinishPhase::Finished, Step::ClockOverflow),
        };
        self.phase = next;
        step
    }
}

/// What a round of the cleanup waits for.
pub enum CleanupPhase {
    /// To begin.
    Fresh,
    /// For the names of the messages past their deadline.
    Listing,
    /// For one of them to be requeued.
    Requeueing { ids: Vec<String>, index: usize, task: RequeueTask },
    /// For those who wait for messages to be told.
    Notifying { ids: Vec<String>, index: usize },
    /// For nothing any more.
    Finished,
}

/// Where a round of the cleanup stands.
pub enum CleanupState {
    Fresh,
    Listing,
    Requeueing { ids: Seq<Seq<char>>, index: int, state: RequeueState },
    Notifying { ids: Seq<Seq<char>>, index: int },
    Finished,
}

/// The message at `index` is requeued; after the last one the round is done. It
/// was the last round if there was none.
pub open spec fn cleanup_from(ids: Seq<Seq<char>>, now_ms: i64, index: int) -> (
    CleanupState,
    Move<bool>,
) {
    if index < ids.len() {
        (
            CleanupState::Requeueing { ids, index, state: RequeueState::Loading },
            ask(Sql::RunningById { id: ids[index] }),
        )
    } else {
        (CleanupState::Finished, Move::Done(Ok(ids.len() == 0)))
    }
}

/// A round of the cleanup goes on with what it is told: each message past its
/// deadline is requeued, and those who wait for messages are told of each that
/// was queued again.
pub open spec fn cleanup_step(now_ms: i64, state: CleanupState, answer: Answer) -> (
    CleanupState,
    Move<bool>,
) {
    match (state, answer) {
        (CleanupState::Fresh, _) => (
            CleanupState::Listing,
            ask(Sql::RunningPastDeadline { now_ms }),
        ),
        (CleanupState::Listing, Answer::Failed(failure)) => (
            CleanupState::Finished,
            failed(failure),
        ),
        (CleanupState::Listing, Answer::Ids(ids)) => cleanup_from(ids, now_ms, 0),
        (CleanupState::Requeueing { ids, index, state }, _) => {
            match requeue_step(ids[index], now_ms, state, answer) {
                (next, Move::Ask(action)) => (
                    CleanupState::Requeueing { ids, index, state: next },
                    Move::Ask(action),
                ),
                (_, Move::Done(Ok(true))) => (
                    CleanupState::Notifying { ids, index },
                    Move::Ask(Action::ScheduleDequeue),
                ),
                (_, Move::Done(Ok(false))) => cleanup_from(ids, now_ms, index + 1),
                (_, Move::Done(Err(fault))) => (CleanupState::Finished, Move::Done(Err(fault))),
                (_, Move::ClockOverflow) => (CleanupState::Finished, Move::ClockOverflow),
            }
        },
        (CleanupState::Notifying { ids, index }, _) => cleanup_from(ids, now_ms, index + 1),
        _ => (state, Move::ClockOverflow),
    }
}

/// Whether a round of the cleanup can be told this.
pub open spec fn cleanup_expects(state: CleanupState, answer: Answer) -> bool {
    match (state, answer) {
        (CleanupState::Fresh, Answer::Begin) => true,
        (CleanupState::Listing, Answer::Ids(_)) => true,
        (CleanupState::Listing, Answer::Failed(_)) => true,
        (CleanupState::Requeueing { state, .. }, _) => requeue_expects(state, answer),
        (CleanupState::Notifying { .. }, Answer::Performed) => true,
        _ => false,
    }
}

/// A round of the cleanup under way. It ends in whether it was the last one.
pub struct CleanupTask {
    now_ms: i64,
    phase: CleanupPhase,
}

fn go_on_cleaning(ids: Vec<String>, now_ms: i64, index: usize) -> (next: (CleanupPhase, Step<bool>))
    requires
        index <= ids@.len(),
    ensures
        (next.0.state(), next.1@) == cleanup_from(seq_view(ids@), now_ms, index as int),
        next.0.fits(now_ms),
{
    if index < ids.len() {
        let mut task = requeue_message(copy_text(&ids[index]), now_ms);
        let step = task.resume(Reply::Begin);
        (CleanupPhase::Requeueing { ids, index, task }, step)
    } else {
        let done = ids.len() == 0;
        (CleanupPhase::Finished, Step::Done(Ok(done)))
    }
}

impl CleanupPhase {
    /// What the phase stands for.
    pub closed spec fn state(&self) -> CleanupState {
        match self {
            CleanupPhase::Fresh => CleanupState::Fresh,
            CleanupPhase::Listing => CleanupState::Listing,
            CleanupPhase::Requeueing { ids, index, task } => CleanupState::Requeueing {
                ids: seq_view(ids@),
                index: *index as int,
                state: task.state(),
            },
            CleanupPhase::Notifying { ids, index } => CleanupState::Notifying {
                ids: seq_view(ids@),
                index: *index as int,
            },
            CleanupPhase::Finished => CleanupState::Finished,
        }
    }

    /// Whether a round at that time can be in this phase.
    pub closed spec fn fits(&self, now_ms: i64) -> bool {
        match self {
            CleanupPhase::Requeueing { ids, index, task } => {
                &&& *index < ids@.len()
                &&& task.fits()
                &&& task.id() == ids@[*index as int]@
                &&& task.now_ms() == now_ms
            },
            CleanupPhase::Notifying { ids, index } => *index < ids@.len(),
            _ => true,
        }
    }
}

impl CleanupTask {
    /// The time of the cleanup.
    pub closed spec fn now_ms(&self) -> i64 {
        self.now_ms
    }

    /// Where the round stands.
    pub closed spec fn state(&self) -> CleanupState {
        self.phase.state()
    }

    /// Whether it can stand there.
    pub closed spec fn fits(&self) -> bool {
        self.phase.fits(self.now_ms)
    }

    /// Starts a round of the cleanup.
    pub fn new(now_ms: i64) -> (task: CleanupTask)
        ensures
            task.now_ms() == now_ms,
            task.state() == CleanupState::Fresh,
            task.fits(),
    {
        CleanupTask { now_ms, phase: CleanupPhase::Fresh }
    }

    /// Whether the task can be told this.
    pub fn accepts(&self, reply: &Reply) -> (accepted: bool)
        ensures
            accepted == cleanup_expects(self.state(), reply@),
    {
        match (&self.phase, reply) {
            (CleanupPhase::Fresh, Reply::Begin) => true,
            (CleanupPhase::Listing, Reply::Ids(_)) => true,
            (CleanupPhase::Listing, Reply::Failed(_)) => true,
            (CleanupPhase::Requeueing { task, .. }, _) => task.accepts(reply),
            (CleanupPhase::Notifying { .. }, Reply::Performed) => true,
            _ => false,
        }
    }

    /// Goes on with what it is told.
    pub fn resume(&mut self, reply: Reply) -> (step: Step<bool>)
        requires
            old(self).fits(),
            cleanup_expects(old(self).state(), reply@),
        ensures
            final(self).now_ms() == old(self).now_ms(),
            final(self).fits(),
            (final(self).state(), step@) == cleanup_step(
                old(self).now_ms(),
                old(self).state(),
                reply@,
            ),
            old(self).state() matches CleanupState::Requeueing { state, .. } ==> texts_read_back(
                state,
                reply@,
            ),
    {
        let mut phase = CleanupPhase::Finished;
        core::mem::swap(&mut phase, &mut self.phase);
        let (next, step) = match (phase, reply) {
            (CleanupPhase::Fresh, _) => (
                CleanupPhase::Listing,
                Step::Ask(Request::Sql(Statement::RunningPastDeadline { now_ms: self.now_ms })),
            ),
            (CleanupPhase::Listing, Reply::Failed(e)) => (
                CleanupPhase::Finished,
                Step::Done(Err(SqliteBackendError::SqliteError(e))),
            ),
            (CleanupPhase::Listing, Reply::Ids(ids)) => go_on_cleaning(ids, self.now_ms, 0),
            (CleanupPhase::Requeueing { ids, index, mut task }, reply) => {
                assert(index < ids.len());
                match task.resume(reply) {
                    Step::Ask(request) => (
                        CleanupPhase::Requeueing { ids, index, task },
                        Step::Ask(request),
                    ),
                    Step::Done(Ok(true)) => (
                        CleanupPhase::Notifying { ids, index },
                        Step::Ask(Request::ScheduleDequeue),
                    ),
                    Step::Done(Ok(false)) => go_on_cleaning(ids, self.now_ms, index + 1),
                    Step::Done(Err(e)) => (CleanupPhase::Finished, Step::Done(Err(e))),
                    Step::ClockOverflow => (CleanupPhase::Finished, Step::ClockOverflow),
                }
            },
            (CleanupPhase::Notifying { ids, index }, _) => {
                assert(index < ids.len());
                go_on_cleaning(ids, self.now_ms, index + 1)
            },
            (phase, _) => (phase, Step::ClockOverflow),
        };
        self.phase = next;
        step
    }
}

} // verus!
