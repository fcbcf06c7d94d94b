//! The values whose time is over.

use crate::error::SqliteBackendError;
use crate::notify::{key_updates, updates_of, KeyUpdate, Update};
use crate::queue::{due, due_time};
use crate::request::{ask, failed, Answer, Move, Reply, Request, Sql, Statement, Step};
use crate::versionstamp::{version_to_versionstamp, versionstamp_of};
use crate::views::seq_view;
use vstd::prelude::*;

verus! {

/// What a collection comes to: when the next value expires, if one does, and
/// which keys have lost their value.
#[derive(Debug)]
pub struct CollectOutput {
    pub earliest_expiration_ms: Option<i64>,
    pub updates: Vec<KeyUpdate>,
}

/// What a `CollectOutput` stands for.
pub struct Collected {
    pub earliest_expiration_ms: Option<i64>,
    pub updates: Seq<Update>,
}

impl View for CollectOutput {
    type V = Collected;

    open spec fn view(&self) -> Collected {
        Collected {
            earliest_expiration_ms: self.earliest_expiration_ms,
            updates: seq_view(self.updates@),
        }
    }
}

/// What a collection waits for.
pub enum CollectPhase {
    /// To begin.
    Fresh,
    /// For the expired values to be deleted.
    Deleting,
    /// For the new data version.
    Incrementing { keys: Vec<Vec<u8>> },
    /// For the time at which the next value expires.
    Peeking { updates: Vec<KeyUpdate> },
    /// For nothing any more.
    Finished,
}

/// What a `CollectPhase` stands for.
pub enum CollectState {
    Fresh,
    Deleting,
    Incrementing { keys: Seq<Seq<u8>> },
    Peeking { updates: Seq<Update> },
    Finished,
}

impl View for CollectPhase {
    type V = CollectState;

    open spec fn view(&self) -> CollectState {
        match self {
            CollectPhase::Fresh => CollectState::Fresh,
            CollectPhase::Deleting => CollectState::Deleting,
            CollectPhase::Incrementing { keys } => CollectState::Incrementing {
                keys: seq_view(keys@),
            },
            CollectPhase::Peeking { updates } => CollectState::Peeking {
                updates: seq_view(updates@),
            },
            CollectPhase::Finished => CollectState::Finished,
        }
    }
}

/// By how much the data version grows where values have expired.
pub const EXPIRY_INCREMENT: i64 = 1;

/// The collection goes on with what it is told. Where it deletes a value it
/// makes a new version of the data.
pub open spec fn collect_step(now_ms: i64, state: CollectState, answer: Answer) -> (
    CollectState,
    Move<Collected>,
) {
    match (state, answer) {
        (_, Answer::Failed(failure)) => (CollectState::Finished, failed(failure)),
        (CollectState::Fresh, _) => (CollectState::Deleting, ask(Sql::DeleteExpired { now_ms })),
        (CollectState::Deleting, Answer::Keys(keys)) => {
            if keys.len() > 0 {
                (
                    CollectState::Incrementing { keys },
                    ask(Sql::IncrementDataVersion { increment: EXPIRY_INCREMENT }),
                )
            } else {
                (CollectState::Peeking { updates: seq![] }, ask(Sql::EarliestExpiration))
            }
        },
        (CollectState::Incrementing { keys }, Answer::Version(version)) => (
            CollectState::Peeking { updates: updates_of(keys, versionstamp_of(version as int)) },
            ask(Sql::EarliestExpiration),
        ),
        (CollectState::Peeking { updates }, Answer::Time(ms)) => (
            CollectState::Finished,
            match due(ms) {
                Some(earliest_expiration_ms) => Move::Done(
                    Ok(Collected { earliest_expiration_ms, updates }),
                ),
                None => Move::ClockOverflow,
            },
        ),
        _ => (state, Move::ClockOverflow),
    }
}

/// Whether a collection can be told this.
pub open spec fn collect_expects(state: CollectState, answer: Answer) -> bool {
    match (state, answer) {
        (CollectState::Fresh, Answer::Begin) => true,
        (CollectState::Deleting, Answer::Keys(_)) => true,
        (CollectState::Deleting, Answer::Failed(_)) => true,
        (CollectState::Incrementing { .. }, Answer::Version(_)) => true,
        (CollectState::Incrementing { .. }, Answer::Failed(_)) => true,
        (CollectState::Peeking { .. }, Answer::Time(_)) => true,
        (CollectState::Peeking { .. }, Answer::Failed(_)) => true,
        _ => false,
    }
}

/// A collection under way.
pub struct CollectTask {
    now_ms: i64,
    phase: CollectPhase,
}

fn peek_earliest(updates: Vec<KeyUpdate>) -> (next: (CollectPhase, Step<CollectOutput>))
    ensures
        next.0@ == (CollectState::Peeking { updates: seq_view(updates@) }),
        next.1@ == ask::<Collected>(Sql::EarliestExpiration),
{
    (
        CollectPhase::Peeking { updates },
        Step::Ask(Request::Sql(Statement::EarliestExpiration)),
    )
}

impl CollectTask {
    /// The time of the collection.
    pub closed spec fn now_ms(&self) -> i64 {
        self.now_ms
    }

    /// Where the collection stands.
    pub closed spec fn state(&self) -> CollectState {
        self.phase@
    }

    /// Starts a collection.
    pub fn new(now_ms: i64) -> (task: CollectTask)
        ensures
            task.now_ms() == now_ms,
            task.state() == CollectState::Fresh,
    {
        CollectTask { now_ms, phase: CollectPhase::Fresh }
    }

    /// Whether the task can be told this.
    pub fn accepts(&self, reply: &Reply) -> (accepted: bool)
        ensures
            accepted == collect_expects(self.state(), reply@),
    {
        match (&self.phase, reply) {
            (CollectPhase::Fresh, Reply::Begin) => true,
            (CollectPhase::Deleting, Reply::Keys(_)) => true,
            (CollectPhase::Deleting, Reply::Failed(_)) => true,
            (CollectPhase::Incrementing { .. }, Reply::Version(_)) => true,
            (CollectPhase::Incrementing { .. }, Reply::Failed(_)) => true,
            (CollectPhase::Peeking { .. }, Reply::Time(_)) => true,
            (CollectPhase::Peeking { .. }, Reply::Failed(_)) => true,
            _ => false,
        }
    }

    /// Goes on with what it is told.
    pub fn resume(&mut self, reply: Reply) -> (step: Step<CollectOutput>)
        requires
            collect_expects(old(self).state(), reply@),
        ensures
            final(self).now_ms() == old(self).now_ms(),
            (final(self).state(), step@) == collect_step(
                old(self).now_ms(),
                old(self).state(),
                reply@,
            ),
    {
        let mut phase = CollectPhase::Finished;
        core::mem::swap(&mut phase, &mut self.phase);
        let (next, step) = match (phase, reply) {
            (_, Reply::Failed(e)) => (
                CollectPhase::Finished,
                Step::Done(Err(SqliteBackendError::SqliteError(e))),
            ),
            (CollectPhase::Fresh, _) => (
                CollectPhase::Deleting,
                Step::Ask(Request::Sql(Statement::DeleteExpired { now_ms: self.now_ms })),
            ),
            (CollectPhase::Deleting, Reply::Keys(keys)) => {
                if keys.len() > 0 {
                    (
                        CollectPhase::Incrementing { keys },
                        Step::Ask(
                            Request::Sql(
                                Statement::IncrementDataVersion { increment: EXPIRY_INCREMENT },
                            ),
                        ),
                    )
                } else {
                    let updates: Vec<KeyUpdate> = Vec::new();
                    assert(seq_view(updates@) =~= seq![]);
                    peek_earliest(updates)
                }
            },
            (CollectPhase::Incrementing { keys }, Reply::Version(version)) => {
                peek_earliest(key_updates(&keys, version_to_versionstamp(version)))
            },
            (CollectPhase::Peeking { updates }, Reply::Time(ms)) => (
                CollectPhase::Finished,
                match due_time(ms) {
                    Some(earliest_expiration_ms) => Step::Done(
                        Ok(CollectOutput { earliest_expiration_ms, updates }),
                    ),
                    None => Step::ClockOverflow,
                },
            ),
            (phase, _) => (phase, Step::ClockOverflow),
        };
        self.phase = next;
        step
    }
}

} // verus!
