//! The queue: which message is delivered next, and how long it may run.

use crate::bytes::{copy_bytes, copy_text};
use crate::clock::{add_millis, later, to_unsigned, unsigned};
use crate::error::SqliteBackendError;
use crate::request::{
    ask, failed, Answer, Message, Move, QueuedMessage, Reply, Request, Sql, Statement, Step,
};
use crate::views::{opt_view, seq_view};
use vstd::prelude::*;

verus! {

/// No message is delivered while so many are running.
pub const DISPATCH_CONCURRENCY_LIMIT: usize = 100;

/// The milliseconds after which a running message is taken for dead, unless it
/// is kept alive.
pub const MESSAGE_DEADLINE_TIMEOUT_MS: u64 = 5000;

/// The name of a message.
#[derive(Debug)]
pub struct QueueMessageId(String);

impl View for QueueMessageId {
    type V = Seq<char>;

    closed spec fn view(&self) -> Seq<char> {
        self.0@
    }
}

impl QueueMessageId {
    /// The message of that name.
    pub fn new(id: String) -> (name: QueueMessageId)
        ensures
            name@ == id@,
    {
        QueueMessageId(id)
    }

    /// The name as a text.
    pub fn text(&self) -> (id: String)
        ensures
            id@ == self@,
    {
        copy_text(&self.0)
    }

    fn same(&self, other: &QueueMessageId) -> (same: bool)
        ensures
            same == (self@ == other@),
    {
        self.0 == other.0
    }
}

impl Clone for QueueMessageId {
    fn clone(&self) -> (name: QueueMessageId)
        ensures
            name@ == self@,
    {
        QueueMessageId(copy_text(&self.0))
    }
}

/// A message to deliver.
#[derive(Debug)]
pub struct DequeuedMessage {
    pub id: QueueMessageId,
    pub payload: Vec<u8>,
}

/// What a `DequeuedMessage` stands for.
pub struct Delivery {
    pub id: Seq<char>,
    pub payload: Seq<u8>,
}

impl View for DequeuedMessage {
    type V = Delivery;

    open spec fn view(&self) -> Delivery {
        Delivery { id: self.id@, payload: self.payload@ }
    }
}

/// The names of the messages that are running, each of them once.
#[derive(Debug)]
pub struct RunningMessages {
    ids: Vec<QueueMessageId>,
}

impl View for RunningMessages {
    type V = Seq<Seq<char>>;

    closed spec fn view(&self) -> Seq<Seq<char>> {
        seq_view(self.ids@)
    }
}

impl RunningMessages {
    /// That no name occurs twice.
    pub open spec fn wf(&self) -> bool {
        self@.no_duplicates()
    }

    /// No messages.
    pub fn new() -> (running: RunningMessages)
        ensures
            running@ == Seq::<Seq<char>>::empty(),
            running.wf(),
    {
        let ids: Vec<QueueMessageId> = Vec::new();
        assert(seq_view(ids@) =~= Seq::<Seq<char>>::empty());
        RunningMessages { ids }
    }

    /// How many messages are running.
    pub fn len(&self) -> (n: usize)
        ensures
            n == self@.len(),
    {
        self.ids.len()
    }

    fn position(&self, id: &QueueMessageId) -> (found: Option<usize>)
        requires
            self.wf(),
        ensures
            match found {
                Some(i) => i < self@.len() && self@[i as int] == id@,
                None => !self@.contains(id@),
            },
    {
        let mut i: usize = 0;
        while i < self.ids.len()
            invariant
                i <= self.ids@.len(),
                forall|j: int| 0 <= j < i ==> self@[j] != id@,
            decreases self.ids@.len() - i,
        {
            if self.ids[i].same(id) {
                assert(self@[i as int] == self.ids@[i as int]@);
                return Some(i);
            }
            assert(self@[i as int] == self.ids@[i as int]@);
            i = i + 1;
        }
        None
    }

    /// Whether a message is running.
    pub fn contains(&self, id: &QueueMessageId) -> (found: bool)
        requires
            self.wf(),
        ensures
            found == self@.contains(id@),
    {
        match self.position(id) {
            Some(_) => true,
            None => false,
        }
    }

    /// The names as texts.
    pub fn texts(&self) -> (ids: Vec<String>)
        ensures
            seq_view(ids@) == self@,
    {
        let mut ids: Vec<String> = Vec::new();
        let mut i: usize = 0;
        while i < self.ids.len()
            invariant
                i <= self.ids@.len(),
                ids@.len() == i,
                forall|j: int| 0 <= j < i ==> (#[trigger] ids@[j])@ == self.ids@[j]@,
            decreases self.ids@.len() - i,
        {
            ids.push(self.ids[i].text());
            i = i + 1;
        }
        assert(seq_view(ids@) =~= self@);
        ids
    }

    /// A message starts to run. Whether it was not running before.
    pub fn insert(&mut self, id: QueueMessageId) -> (added: bool)
        requires
            old(self).wf(),
        ensures
            final(self).wf(),
            added == !old(self)@.contains(id@),
            final(self)@ == if added {
                old(self)@.push(id@)
            } else {
                old(self)@
            },
    {
        if self.contains(&id) {
            return false;
        }
        self.ids.push(id);
        assert(self@ =~= old(self)@.push(id@));
        true
    }

    /// A message stops running. Whether it was running before.
    pub fn remove(&mut self, id: &QueueMessageId) -> (removed: bool)
        requires
            old(self).wf(),
        ensures
            final(self).wf(),
            removed == old(self)@.contains(id@),
            forall|other: Seq<char>| #[trigger]
                final(self)@.contains(other) <==> old(self)@.contains(other) && other != id@,
            final(self)@.len() == old(self)@.len() - if removed {
                1int
            } else {
                0int
            },
    {
        match self.position(id) {
            Some(i) => {
                let ghost before = self@;
                self.ids.remove(i);
                assert(self@ =~= before.remove(i as int));
                assert forall|other: Seq<char>| #[trigger]
                    self@.contains(other) <==> before.contains(other) && other != id@ by {
                    if self@.contains(other) {
                        let k = choose|k: int| 0 <= k < self@.len() && self@[k] == other;
                        if k < i {
                            assert(before[k] == other);
                        } else {
                            assert(before[k + 1] == other);
                        }
                    }
                    if before.contains(other) && other != id@ {
                        let k = choose|k: int| 0 <= k < before.len() && before[k] == other;
                        if k < i {
                            assert(self@[k] == other);
                        } else {
                            assert(self@[k - 1] == other);
                        }
                    }
                }
                true
            },
            None => false,
        }
    }
}

/// What a dequeueing comes to: the message to deliver, if there is one, and when
/// the next one is due.
#[derive(Debug)]
pub struct DequeueOutput {
    pub message: Option<DequeuedMessage>,
    pub next_ready_ms: Option<i64>,
}

/// What a `DequeueOutput` stands for.
pub struct Dequeued {
    pub message: Option<Delivery>,
    pub next_ready_ms: Option<i64>,
}

impl View for DequeueOutput {
    type V = Dequeued;

    open spec fn view(&self) -> Dequeued {
        Dequeued { message: opt_view(self.message), next_ready_ms: self.next_ready_ms }
    }
}

/// What a dequeueing waits for.
#[allow(inconsistent_fields)]
pub enum DequeuePhase {
    /// To begin.
    Fresh,
    /// For the message that is due.
    Choosing,
    /// For it to leave the queue.
    Removing { message: QueuedMessage },
    /// For it to join the running ones.
    Starting { message: DequeuedMessage },
    /// For the time at which the next message is due.
    Peeking { message: Option<DequeuedMessage> },
    /// For nothing any more.
    Finished,
}

/// What a `DequeuePhase` stands for.
#[allow(inconsistent_fields)]
pub enum DequeueState {
    Fresh,
    Choosing,
    Removing { message: Message },
    Starting { message: Delivery },
    Peeking { message: Option<Delivery> },
    Finished,
}

impl View for DequeuePhase {
    type V = DequeueState;

    open spec fn view(&self) -> DequeueState {
        match self {
            DequeuePhase::Fresh => DequeueState::Fresh,
            DequeuePhase::Choosing => DequeueState::Choosing,
            DequeuePhase::Removing { message } => DequeueState::Removing { message: message@ },
            DequeuePhase::Starting { message } => DequeueState::Starting { message: message@ },
            DequeuePhase::Peeking { message } => DequeueState::Peeking {
                message: opt_view(*message),
            },
            DequeuePhase::Finished => DequeueState::Finished,
        }
    }
}

/// The dequeueing ends with a look at the earliest message that is left.
pub open spec fn peek(message: Option<Delivery>) -> (DequeueState, Move<Dequeued>) {
    (DequeueState::Peeking { message }, ask(Sql::EarliestReady))
}

/// When the message is due that was found, if one was. `None`: that time is out
/// of the range of the clock.
pub open spec fn due(ms: Option<u64>) -> Option<Option<i64>> {
    match ms {
        Some(ms) => match later(0, ms as int) {
            Some(time) => Some(Some(time as i64)),
            None => None,
        },
        None => Some(None),
    }
}

/// A dequeueing goes on with what it is told. It takes the message that has been
/// due for the longest time, unless too many are running.
pub open spec fn dequeue_step(
    now_ms: i64,
    can_dispatch: bool,
    state: DequeueState,
    answer: Answer,
) -> (DequeueState, Move<Dequeued>) {
    match (state, answer) {
        (_, Answer::Failed(failure)) => (DequeueState::Finished, failed(failure)),
        (DequeueState::Fresh, _) => {
            if can_dispatch {
                (
                    DequeueState::Choosing,
                    ask(
                        Sql::NextReady { now_ms: unsigned(now_ms as int) as u64 },
                    ),
                )
            } else {
                peek(None)
            }
        },
        (DequeueState::Choosing, Answer::Message(None)) => peek(None),
        (DequeueState::Choosing, Answer::Message(Some(message))) => (
            DequeueState::Removing { message },
            ask(Sql::RemoveReady { id: message.id }),
        ),
        (DequeueState::Removing { message }, _) => (
            DequeueState::Starting {
                message: Delivery { id: message.id, payload: message.data },
            },
            ask(
                Sql::AddRunning {
                    deadline: (message.ts + MESSAGE_DEADLINE_TIMEOUT_MS) as u64,
                    id: message.id,
                    data: message.data,
                    backoff_schedule: message.backoff_schedule,
                    keys_if_undelivered: message.keys_if_undelivered,
                },
            ),
        ),
        (DequeueState::Starting { message }, _) => peek(Some(message)),
        (DequeueState::Peeking { message }, Answer::Time(ms)) => (
            DequeueState::Finished,
            match due(ms) {
                Some(next_ready_ms) => Move::Done(Ok(Dequeued { message, next_ready_ms })),
                None => Move::ClockOverflow,
            },
        ),
        _ => (state, Move::ClockOverflow),
    }
}

/// Whether a dequeueing can be told this.
pub open spec fn dequeue_expects(state: DequeueState, answer: Answer) -> bool {
    match (state, answer) {
        (DequeueState::Fresh, Answer::Begin) => true,
        (DequeueState::Choosing, Answer::Message(None)) => true,
        (DequeueState::Choosing, Answer::Message(Some(message))) => message.ts
            + MESSAGE_DEADLINE_TIMEOUT_MS <= u64::MAX,
        (DequeueState::Choosing, Answer::Failed(_)) => true,
        (DequeueState::Removing { .. }, Answer::Changed(n)) => n == 1,
        (DequeueState::Removing { .. }, Answer::Failed(_)) => true,
        (DequeueState::Starting { .. }, Answer::Changed(n)) => n == 1,
        (DequeueState::Starting { .. }, Answer::Failed(_)) => true,
        (DequeueState::Peeking { .. }, Answer::Time(_)) => true,
        (DequeueState::Peeking { .. }, Answer::Failed(_)) => true,
        _ => false,
    }
}

/// A dequeueing under way.
pub struct DequeueTask {
    now_ms: i64,
    can_dispatch: bool,
    phase: DequeuePhase,
}

fn peek_next(message: Option<DequeuedMessage>) -> (next: (DequeuePhase, Step<DequeueOutput>))
    ensures
        (next.0@, next.1@) == peek(opt_view(message)),
{
    (DequeuePhase::Peeking { message }, Step::Ask(Request::Sql(Statement::EarliestReady)))
}

/// The time that was found, if one was. `None`: it is out of the range of the
/// clock.
pub(crate) fn due_time(ms: Option<u64>) -> (time: Option<Option<i64>>)
    ensures
        time == due(ms),
{
    match ms {
        Some(ms) => match add_millis(0, ms) {
            Some(time) => Some(Some(time)),
            None => None,
        },
        None => Some(None),
    }
}

impl DequeueTask {
    /// The time of the dequeueing.
    pub closed spec fn now_ms(&self) -> i64 {
        self.now_ms
    }

    /// Whether a message may be delivered.
    pub closed spec fn can_dispatch(&self) -> bool {
        self.can_dispatch
    }

    /// Where the dequeueing stands.
    pub closed spec fn state(&self) -> DequeueState {
        self.phase@
    }

    /// Whether it can stand there.
    pub open spec fn fits(&self) -> bool {
        self.state() matches DequeueState::Removing { message } ==> message.ts
            + MESSAGE_DEADLINE_TIMEOUT_MS <= u64::MAX
    }

    /// Starts a dequeueing, with those messages running.
    pub fn new(now_ms: i64, running: &RunningMessages) -> (task: DequeueTask)
        ensures
            task.now_ms() == now_ms,
            task.can_dispatch() == (running@.len() < DISPATCH_CONCURRENCY_LIMIT),
            task.state() == DequeueState::Fresh,
            task.fits(),
    {
        DequeueTask {
            now_ms,
            can_dispatch: running.len() < DISPATCH_CONCURRENCY_LIMIT,
            phase: DequeuePhase::Fresh,
        }
    }

    /// Whether the task can be told this.
    pub fn accepts(&self, reply: &Reply) -> (accepted: bool)
        ensures
            accepted == dequeue_expects(self.state(), reply@),
    {
        match (&self.phase, reply) {
            (DequeuePhase::Fresh, Reply::Begin) => true,
            (DequeuePhase::Choosing, Reply::Message(None)) => true,
            (DequeuePhase::Choosing, Reply::Message(Some(message))) => message.ts <= u64::MAX
                - MESSAGE_DEADLINE_TIMEOUT_MS,
            (DequeuePhase::Choosing, Reply::Failed(_)) => true,
            (DequeuePhase::Removing { .. }, Reply::Changed(n)) => *n == 1,
            (DequeuePhase::Removing { .. }, Reply::Failed(_)) => true,
            (DequeuePhase::Starting { .. }, Reply::Changed(n)) => *n == 1,
            (DequeuePhase::Starting { .. }, Reply::Failed(_)) => true,
            (DequeuePhase::Peeking { .. }, Reply::Time(_)) => true,
            (DequeuePhase::Peeking { .. }, Reply::Failed(_)) => true,
            _ => false,
        }
    }

    /// Goes on with what it is told.
    pub fn resume(&mut self, reply: Reply) -> (step: Step<DequeueOutput>)
        requires
            old(self).fits(),
            dequeue_expects(old(self).state(), reply@),
        ensures
            final(self).now_ms() == old(self).now_ms(),
            final(self).can_dispatch() == old(self).can_dispatch(),
            final(self).fits(),
            (final(self).state(), step@) == dequeue_step(
                old(self).now_ms(),
                old(self).can_dispatch(),
                old(self).state(),
                reply@,
            ),
    {
        let mut phase = DequeuePhase::Finished;
        core::mem::swap(&mut phase, &mut self.phase);
        let (next, step) = match (phase, reply) {
            (_, Reply::Failed(e)) => (
                DequeuePhase::Finished,
                Step::Done(Err(SqliteBackendError::SqliteError(e))),
            ),
            (DequeuePhase::Fresh, _) => {
                if self.can_dispatch {
                    (
                        DequeuePhase::Choosing,
                        Step::Ask(
                            Request::Sql(Statement::NextReady { now_ms: to_unsigned(self.now_ms) }),
                        ),
                    )
                } else {
                    peek_next(None)
                }
            },
            (DequeuePhase::Choosing, Reply::Message(None)) => peek_next(None),
            (DequeuePhase::Choosing, Reply::Message(Some(message))) => {
                let id = copy_text(&message.id);
                (
                    DequeuePhase::Removing { message },
                    Step::Ask(Request::Sql(Statement::RemoveReady { id })),
                )
            },
            (DequeuePhase::Removing { message }, _) => {
                let delivery = DequeuedMessage {
                    id: QueueMessageId(copy_text(&message.id)),
                    payload: copy_bytes(&message.data),
                };
                (
                    DequeuePhase::Starting { message: delivery },
                    Step::Ask(
                        Request::Sql(
                            Statement::AddRunning {
                                deadline: message.ts + MESSAGE_DEADLINE_TIMEOUT_MS,
                                id: message.id,
                                data: message.data,
                                backoff_schedule: message.backoff_schedule,
                                keys_if_undelivered: message.keys_if_undelivered,
                            },
                        ),
                    ),
                )
            },
            (DequeuePhase::Starting { message }, _) => peek_next(Some(message)),
            (DequeuePhase::Peeking { message }, Reply::Time(ms)) => (
                DequeuePhase::Finished,
                match due_time(ms) {
                    Some(next_ready_ms) => Step::Done(Ok(DequeueOutput { message, next_ready_ms })),
                    None => Step::ClockOverflow,
                },
            ),
            (phase, _) => (phase, Step::ClockOverflow),
        };
        self.phase = next;
        step
    }
}

/// What a task that runs one statement waits for.
#[derive(Debug, PartialEq, Eq, Clone, Copy)]
pub enum SingleState {
    /// To begin.
    Fresh,
    /// For the statement.
    Asking,
    /// For nothing any more.
    Finished,
}

/// A look at the earliest message that is queued, under way.
pub struct NextReadyTask {
    state: SingleState,
}

/// The look goes on with what it is told.
pub open spec fn next_ready_step(state: SingleState, answer: Answer) -> (
    SingleState,
    Move<Option<i64>>,
) {
    match (state, answer) {
        (_, Answer::Failed(failure)) => (SingleState::Finished, failed(failure)),
        (SingleState::Fresh, _) => (SingleState::Asking, ask(Sql::EarliestReady)),
        (SingleState::Asking, Answer::Time(ms)) => (
            SingleState::Finished,
            match due(ms) {
                Some(next_ready_ms) => Move::Done(Ok(next_ready_ms)),
                None => Move::ClockOverflow,
            },
        ),
        _ => (state, Move::ClockOverflow),
    }
}

/// Whether the look can be told this.
pub open spec fn next_ready_expects(state: SingleState, answer: Answer) -> bool {
    match (state, answer) {
        (SingleState::Fresh, Answer::Begin) => true,
        (SingleState::Asking, Answer::Time(_)) => true,
        (SingleState::Asking, Answer::Failed(_)) => true,
        _ => false,
    }
}

impl NextReadyTask {
    /// Where the look stands.
    pub closed spec fn state(&self) -> SingleState {
        self.state
    }

    /// Starts a look.
    pub fn new() -> (task: NextReadyTask)
        ensures
            task.state() == SingleState::Fresh,
    {
        NextReadyTask { state: SingleState::Fresh }
    }

    /// Whether the task can be told this.
    pub fn accepts(&self, reply: &Reply) -> (accepted: bool)
        ensures
            accepted == next_ready_expects(self.state(), reply@),
    {
        match (self.state, reply) {
            (SingleState::Fresh, Reply::Begin) => true,
            (SingleState::Asking, Reply::Time(_)) => true,
            (SingleState::Asking, Reply::Failed(_)) => true,
            _ => false,
        }
    }

    /// Goes on with what it is told.
    pub fn resume(&mut self, reply: Reply) -> (step: Step<Option<i64>>)
        requires
            next_ready_expects(old(self).state(), reply@),
        ensures
            (final(self).state(), step@) == next_ready_step(old(self).state(), reply@),
    {
        match (self.state, reply) {
            (_, Reply::Failed(e)) => {
                self.state = SingleState::Finished;
                Step::Done(Err(SqliteBackendError::SqliteError(e)))
            },
            (SingleState::Fresh, _) => {
                self.state = SingleState::Asking;
                Step::Ask(Request::Sql(Statement::EarliestReady))
            },
            (SingleState::Asking, Reply::Time(ms)) => {
                self.state = SingleState::Finished;
                match due_time(ms) {
                    Some(next_ready_ms) => Step::Done(Ok(next_ready_ms)),
                    None => Step::ClockOverflow,
                }
            },
            _ => Step::ClockOverflow,
        }
    }
}

} // verus!
