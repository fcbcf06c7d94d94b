//! What becomes of a running message whose delivery failed.

use crate::bytes::{copy_bytes, copy_text};
use crate::clock::{add_millis, later};
use crate::error::{Fault, SqliteBackendError};
use crate::json::{
    json_schedule, keys_from_json, keys_in, keys_view, reads_back_keys, reads_back_schedule,
    schedule_from_json, schedule_in, schedule_to_json, schedule_view,
};
use crate::request::{
    ask, failed, Action, Answer, Message, Move, QueuedMessage, Reply, Request, Sql, SqlInteger,
    Statement, Step,
};
use crate::value::VALUE_ENCODING_V8;
use crate::views::seq_view;
use crate::write::{INCREMENT_END, INCREMENT_MIN, NEVER_EXPIRES};
use vstd::prelude::*;

verus! {

/// A message that no delivery was left for, and the keys that get its payload.
pub struct Undelivered {
    pub id: String,
    pub data: Vec<u8>,
    pub keys: Vec<Vec<u8>>,
}

/// What an `Undelivered` stands for.
pub struct UndeliveredModel {
    pub id: Seq<char>,
    pub data: Seq<u8>,
    pub keys: Seq<Seq<u8>>,
}

impl View for Undelivered {
    type V = UndeliveredModel;

    open spec fn view(&self) -> UndeliveredModel {
        UndeliveredModel { id: self.id@, data: self.data@, keys: seq_view(self.keys@) }
    }
}

/// What a requeueing waits for.
pub enum RequeuePhase {
    /// To begin.
    Fresh,
    /// For the message.
    Loading,
    /// For the message to be queued again.
    AddingReady { id: String },
    /// For a random number.
    Drawing { message: Undelivered },
    /// For the new data version.
    Incrementing { message: Undelivered },
    /// For the payload to be stored under a key.
    Storing { message: Undelivered, version: i64, index: usize },
    /// For the message to leave the running ones.
    Removing { requeued: bool },
    /// For nothing any more.
    Finished,
}

/// What a `RequeuePhase` stands for.
pub enum RequeueState {
    Fresh,
    Loading,
    AddingReady { id: Seq<char> },
    Drawing { message: UndeliveredModel },
    Incrementing { message: UndeliveredModel },
    Storing { message: UndeliveredModel, version: i64, index: int },
    Removing { requeued: bool },
    Finished,
}

impl View for RequeuePhase {
    type V = RequeueState;

    open spec fn view(&self) -> RequeueState {
        match self {
            RequeuePhase::Fresh => RequeueState::Fresh,
            RequeuePhase::Loading => RequeueState::Loading,
            RequeuePhase::AddingReady { id } => RequeueState::AddingReady { id: id@ },
            RequeuePhase::Drawing { message } => RequeueState::Drawing { message: message@ },
            RequeuePhase::Incrementing { message } => RequeueState::Incrementing {
                message: message@,
            },
            RequeuePhase::Storing { message, version, index } => RequeueState::Storing {
                message: message@,
                version: *version,
                index: *index as int,
            },
            RequeuePhase::Removing { requeued } => RequeueState::Removing { requeued: *requeued },
            RequeuePhase::Finished => RequeueState::Finished,
        }
    }
}

/// Where a requeueing stands and what it does next. It ends in whether the
/// message was queued again.
pub type RequeueMove = (RequeueState, Move<bool>);

/// The message leaves the running ones.
pub open spec fn remove_running(id: Seq<char>, requeued: bool) -> RequeueMove {
    (RequeueState::Removing { requeued }, ask(Sql::RemoveRunning { id }))
}

/// The waiting times that are left of a message.
pub open spec fn waiting_times(schedule: Option<Seq<u64>>) -> Seq<u64> {
    match schedule {
        Some(times) => times,
        None => seq![],
    }
}

/// What becomes of a message whose schedule was read so: it is queued again after
/// the first of its waiting times, with the others left. `None`: no waiting time
/// is left, and the keys are to be read that it names.
pub open spec fn reschedule_by(
    message: Message,
    now_ms: i64,
    schedule: Result<Option<Seq<u64>>, Seq<char>>,
) -> Option<RequeueMove> {
    match schedule {
        Err(text) => Some((RequeueState::Finished, Move::Done(Err(Fault::Generic(text))))),
        Ok(schedule) => {
            let times = waiting_times(schedule);
            if times.len() > 0 {
                match later(now_ms as int, times[0] as int) {
                    Some(ts) => Some(
                        (
                            RequeueState::AddingReady { id: message.id },
                            ask(
                                Sql::AddReady {
                                    ts: SqlInteger::Signed(ts as i64),
                                    id: message.id,
                                    data: message.data,
                                    backoff_schedule: json_schedule(times.skip(1)),
                                    keys_if_undelivered: message.keys_if_undelivered,
                                },
                            ),
                        ),
                    ),
                    None => Some((RequeueState::Finished, Move::ClockOverflow)),
                }
            } else if message.keys_if_undelivered.len() > 0 {
                None
            } else {
                Some(remove_running(message.id, false))
            }
        },
    }
}

/// What becomes of a message without a waiting time whose keys were read so: its
/// payload goes to them.
pub open spec fn give_up_to(
    message: Message,
    keys: Result<Seq<Seq<u8>>, Seq<char>>,
) -> RequeueMove {
    match keys {
        Ok(keys) => (
            RequeueState::Drawing {
                message: UndeliveredModel { id: message.id, data: message.data, keys },
            },
            Move::Ask(Action::DrawNumber { low: INCREMENT_MIN, high: INCREMENT_END }),
        ),
        Err(text) => (RequeueState::Finished, Move::Done(Err(Fault::Generic(text)))),
    }
}

/// What becomes of a message.
pub open spec fn reschedule(message: Message, now_ms: i64) -> RequeueMove {
    match reschedule_by(message, now_ms, schedule_in(message.backoff_schedule)) {
        Some(next) => next,
        None => give_up_to(message, keys_in(message.keys_if_undelivered)),
    }
}

/// The payload goes to the key at `index`; after the last one the message leaves
/// the running ones.
pub open spec fn store_from(message: UndeliveredModel, version: i64, index: int) -> RequeueMove {
    if index < message.keys.len() {
        (
            RequeueState::Storing { message, version, index },
            ask(
                Sql::SetRow {
                    key: message.keys[index],
                    value: message.data,
                    encoding: VALUE_ENCODING_V8,
                    version,
                    expiration_ms: NEVER_EXPIRES,
                },
            ),
        )
    } else {
        remove_running(message.id, false)
    }
}

/// A requeueing goes on with what it is told.
pub open spec fn requeue_step(
    id: Seq<char>,
    now_ms: i64,
    state: RequeueState,
    answer: Answer,
) -> RequeueMove {
    match (state, answer) {
        (_, Answer::Failed(failure)) => (RequeueState::Finished, failed(failure)),
        (RequeueState::Fresh, _) => (RequeueState::Loading, ask(Sql::RunningById { id })),
        (RequeueState::Loading, Answer::Message(None)) => (
            RequeueState::Finished,
            Move::Done(Ok(false)),
        ),
        (RequeueState::Loading, Answer::Message(Some(message))) => reschedule(message, now_ms),
        (RequeueState::AddingReady { id }, _) => remove_running(id, true),
        (RequeueState::Drawing { message }, Answer::Drawn(increment)) => (
            RequeueState::Incrementing { message },
            ask(Sql::IncrementDataVersion { increment }),
        ),
        (RequeueState::Incrementing { message }, Answer::Version(version)) => store_from(
            message,
            version,
            0,
        ),
        (RequeueState::Storing { message, version, index }, _) => store_from(
            message,
            version,
            index + 1,
        ),
        (RequeueState::Removing { requeued }, _) => (
            RequeueState::Finished,
            Move::Done(Ok(requeued)),
        ),
        _ => (state, Move::ClockOverflow),
    }
}

/// Whether a requeueing can be told this.
pub open spec fn requeue_expects(state: RequeueState, answer: Answer) -> bool {
    match (state, answer) {
        (RequeueState::Fresh, Answer::Begin) => true,
        (RequeueState::Loading, Answer::Message(_)) => true,
        (RequeueState::Loading, Answer::Failed(_)) => true,
        (RequeueState::AddingReady { .. }, Answer::Changed(n)) => n == 1,
        (RequeueState::AddingReady { .. }, Answer::Failed(_)) => true,
        (RequeueState::Drawing { .. }, Answer::Drawn(n)) => INCREMENT_MIN <= n < INCREMENT_END,
        (RequeueState::Incrementing { .. }, Answer::Version(_)) => true,
        (RequeueState::Incrementing { .. }, Answer::Failed(_)) => true,
        (RequeueState::Storing { .. }, Answer::Changed(n)) => n == 1,
        (RequeueState::Storing { .. }, Answer::Failed(_)) => true,
        (RequeueState::Removing { .. }, Answer::Changed(n)) => n == 1,
        (RequeueState::Removing { .. }, Answer::Failed(_)) => true,
        _ => false,
    }
}

/// That the texts of a message that was loaded read as what was written: its
/// schedule, and where no waiting time is left, its keys.
pub open spec fn texts_read_back(state: RequeueState, answer: Answer) -> bool {
    match (state, answer) {
        (RequeueState::Loading, Answer::Message(Some(message))) => {
            let schedule = schedule_in(message.backoff_schedule);
            &&& reads_back_schedule(message.backoff_schedule, schedule)
            &&& (schedule matches Ok(times) && waiting_times(times).len() == 0
                && message.keys_if_undelivered.len() > 0) ==> reads_back_keys(
                message.keys_if_undelivered,
                keys_in(message.keys_if_undelivered),
            )
        },
        _ => true,
    }
}

/// What was decided of a message.
pub enum Rescheduling {
    /// It goes on so.
    Decided(RequeuePhase, Step<bool>),
    /// The keys are to be read that it names.
    ReadKeys(QueuedMessage),
}

/// Decides on a message whose schedule was read, or could not be.
pub fn reschedule_with(
    message: QueuedMessage,
    now_ms: i64,
    schedule: Result<Option<Vec<u64>>, String>,
) -> (decision: Rescheduling)
    ensures
        match decision {
            Rescheduling::Decided(phase, step) => reschedule_by(
                message@,
                now_ms,
                schedule_view(schedule),
            ) == Some((phase@, step@)),
            Rescheduling::ReadKeys(same) => same == message && reschedule_by(
                message@,
                now_ms,
                schedule_view(schedule),
            ) is None,
        },
        decision matches Rescheduling::Decided(phase, _) ==> !(phase@ is Storing),
{
    let times = match schedule {
        Ok(Some(times)) => times,
        Ok(None) => Vec::new(),
        Err(text) => {
            return Rescheduling::Decided(
                RequeuePhase::Finished,
                Step::Done(Err(SqliteBackendError::GenericError(text))),
            );
        },
    };
    if times.len() > 0 {
        match add_millis(now_ms, times[0]) {
            Some(ts) => {
                let rest = rest_of(&times);
                Rescheduling::Decided(
                    RequeuePhase::AddingReady { id: copy_text(&message.id) },
                    Step::Ask(
                        Request::Sql(
                            Statement::AddReady {
                                ts: SqlInteger::Signed(ts),
                                id: message.id,
                                data: message.data,
                                backoff_schedule: schedule_to_json(&rest),
                                keys_if_undelivered: message.keys_if_undelivered,
                            },
                        ),
                    ),
                )
            },
            None => Rescheduling::Decided(RequeuePhase::Finished, Step::ClockOverflow),
        }
    } else if !message.keys_if_undelivered.as_str().is_empty() {
        Rescheduling::ReadKeys(message)
    } else {
        let (phase, step) = leave_running(message.id, false);
        Rescheduling::Decided(phase, step)
    }
}

/// Decides on a message without a waiting time, whose keys were read, or could
/// not be.
pub fn give_up_with(message: QueuedMessage, keys: Result<Vec<Vec<u8>>, String>) -> (next: (
    RequeuePhase,
    Step<bool>,
))
    ensures
        (next.0@, next.1@) == give_up_to(message@, keys_view(keys)),
        !(next.0@ is Storing),
{
    match keys {
        Ok(keys) => (
            RequeuePhase::Drawing {
                message: Undelivered { id: message.id, data: message.data, keys },
            },
            Step::Ask(Request::DrawNumber { low: INCREMENT_MIN, high: INCREMENT_END }),
        ),
        Err(text) => (
            RequeuePhase::Finished,
            Step::Done(Err(SqliteBackendError::GenericError(text))),
        ),
    }
}

/// Decides on a message.
fn reschedule_message(message: QueuedMessage, now_ms: i64) -> (next: (RequeuePhase, Step<bool>))
    ensures
        (next.0@, next.1@) == reschedule(message@, now_ms),
        texts_read_back(RequeueState::Loading, Answer::Message(Some(message@))),
        !(next.0@ is Storing),
{
    let schedule = schedule_from_json(&message.backoff_schedule);
    match reschedule_with(message, now_ms, schedule) {
        Rescheduling::Decided(phase, step) => (phase, step),
        Rescheduling::ReadKeys(message) => {
            let keys = keys_from_json(&message.keys_if_undelivered);
            give_up_with(message, keys)
        },
    }
}

/// The waiting times after the first one.
fn rest_of(times: &Vec<u64>) -> (rest: Vec<u64>)
    requires
        times@.len() > 0,
    ensures
        rest@ == times@.skip(1),
{
    let mut rest: Vec<u64> = Vec::new();
    let mut i: usize = 1;
    while i < times.len()
        invariant
            1 <= i <= times@.len(),
            rest@ == times@.subrange(1, i as int),
        decreases times@.len() - i,
    {
        rest.push(times[i]);
        i = i + 1;
        assert(rest@ =~= times@.subrange(1, i as int));
    }
    assert(rest@ =~= times@.skip(1));
    rest
}

fn leave_running(id: String, requeued: bool) -> (next: (RequeuePhase, Step<bool>))
    ensures
        (next.0@, next.1@) == remove_running(id@, requeued),
{
    (
        RequeuePhase::Removing { requeued },
        Step::Ask(Request::Sql(Statement::RemoveRunning { id })),
    )
}

fn store_undelivered(message: Undelivered, version: i64, index: usize) -> (next: (
    RequeuePhase,
    Step<bool>,
))
    requires
        index <= message.keys@.len(),
    ensures
        (next.0@, next.1@) == store_from(message@, version, index as int),
        next.0@ matches RequeueState::Storing { message: m, index: i, .. } ==> 0 <= i
            < m.keys.len(),
{
    if index < message.keys.len() {
        let statement = Statement::SetRow {
            key: copy_bytes(&message.keys[index]),
            value: copy_bytes(&message.data),
            encoding: VALUE_ENCODING_V8,
            version,
            expiration_ms: NEVER_EXPIRES,
        };
        (RequeuePhase::Storing { message, version, index }, Step::Ask(Request::Sql(statement)))
    } else {
        leave_running(message.id, false)
    }
}

/// The requeueing of a running message under way.
pub struct RequeueTask {
    id: String,
    now_ms: i64,
    phase: RequeuePhase,
}

/// Starts the requeueing of a running message.
pub fn requeue_message(id: String, now_ms: i64) -> (task: RequeueTask)
    ensures
        task.id() == id@,
        task.now_ms() == now_ms,
        task.state() == RequeueState::Fresh,
        task.fits(),
{
    RequeueTask { id, now_ms, phase: RequeuePhase::Fresh }
}

impl RequeueTask {
    /// The name of the message.
    pub closed spec fn id(&self) -> Seq<char> {
        self.id@
    }

    /// The time of the requeueing.
    pub closed spec fn now_ms(&self) -> i64 {
        self.now_ms
    }

    /// Where the requeueing stands.
    pub closed spec fn state(&self) -> RequeueState {
        self.phase@
    }

    /// Whether it can stand there.
    pub open spec fn fits(&self) -> bool {
        self.state() matches RequeueState::Storing { message, index, .. } ==> 0 <= index
            < message.keys.len()
    }

    /// Whether the task can be told this.
    pub fn accepts(&self, reply: &Reply) -> (accepted: bool)
        ensures
            accepted == requeue_expects(self.state(), reply@),
    {
        match (&self.phase, reply) {
            (RequeuePhase::Fresh, Reply::Begin) => true,
            (RequeuePhase::Loading, Reply::Message(_)) => true,
            (RequeuePhase::Loading, Reply::Failed(_)) => true,
            (RequeuePhase::AddingReady { .. }, Reply::Changed(n)) => *n == 1,
            (RequeuePhase::AddingReady { .. }, Reply::Failed(_)) => true,
            (RequeuePhase::Drawing { .. }, Reply::Drawn(n)) => INCREMENT_MIN <= *n && *n
                < INCREMENT_END,
            (RequeuePhase::Incrementing { .. }, Reply::Version(_)) => true,
            (RequeuePhase::Incrementing { .. }, Reply::Failed(_)) => true,
            (RequeuePhase::Storing { .. }, Reply::Changed(n)) => *n == 1,
            (RequeuePhase::Storing { .. }, Reply::Failed(_)) => true,
            (RequeuePhase::Removing { .. }, Reply::Changed(n)) => *n == 1,
            (RequeuePhase::Removing { .. }, Reply::Failed(_)) => true,
            _ => false,
        }
    }

    /// Goes on with what it is told.
    pub fn resume(&mut self, reply: Reply) -> (step: Step<bool>)
        requires
            old(self).fits(),
            requeue_expects(old(self).state(), reply@),
        ensures
            final(self).id() == old(self).id(),
            final(self).now_ms() == old(self).now_ms(),
            final(self).fits(),
            (final(self).state(), step@) == requeue_step(
                old(self).id(),
                old(self).now_ms(),
                old(self).state(),
                reply@,
            ),
            texts_read_back(old(self).state(), reply@),
    {
        let mut phase = RequeuePhase::Finished;
        core::mem::swap(&mut phase, &mut self.phase);
        let (next, step) = match (phase, reply) {
            (_, Reply::Failed(e)) => (
                RequeuePhase::Finished,
                Step::Done(Err(SqliteBackendError::SqliteError(e))),
            ),
            (RequeuePhase::Fresh, _) => (
                RequeuePhase::Loading,
                Step::Ask(Request::Sql(Statement::RunningById { id: copy_text(&self.id) })),
            ),
            (RequeuePhase::Loading, Reply::Message(None)) => (
                RequeuePhase::Finished,
                Step::Done(Ok(false)),
            ),
            (RequeuePhase::Loading, Reply::Message(Some(message))) => {
                reschedule_message(message, self.now_ms)
            },
            (RequeuePhase::AddingReady { id }, _) => leave_running(id, true),
            (RequeuePhase::Drawing { message }, Reply::Drawn(increment)) => (
                RequeuePhase::Incrementing { message },
                Step::Ask(Request::Sql(Statement::IncrementDataVersion { increment })),
            ),
            (RequeuePhase::Incrementing { message }, Reply::Version(version)) => {
                store_undelivered(message, version, 0)
            },
            (RequeuePhase::Storing { message, version, index }, _) => {
                assert(index < message.keys.len());
                store_undelivered(message, version, index + 1)
            },
            (RequeuePhase::Removing { requeued }, _) => (
                RequeuePhase::Finished,
                Step::Done(Ok(requeued)),
            ),
            (phase, _) => (phase, Step::ClockOverflow),
        };
        self.phase = next;
        step
    }
}

} // verus!
