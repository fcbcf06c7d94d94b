//! The task that carries out an atomic write.

use crate::bytes::copy_bytes;
use crate::clock::to_unsigned;
use crate::error::SqliteBackendError;
use crate::json::{keys_to_json, schedule_to_json};
use crate::le64::{mutate_le64, number_operand, stored_view, Le64Op};
use crate::request::{Action, Reply, Request, SqlInteger, Statement, Step};
use crate::sum::{check_parameters, limit_numbers, sum_values, SumStep};
use crate::value::{
    decode_value, encode_value, encode_value_owned, well_encoded, KvValue, VALUE_ENCODING_LE64,
};
use crate::versionstamp::{same_versionstamp, version_to_versionstamp, versionstamped_key};
use crate::write::{
    after_sum, backoff_schedule_of, begin_mutation, check_from, clamps, combine_numbers,
    enqueue_from, expiration, mutate_from, mutation_at, mutation_step, phase_fits, ready_message,
    set_row, stage_expects, write_expects, write_fails, write_step, AtomicWrite, CommitResult,
    Enqueue, Mutation, MutationKind, MutationStage, PhaseModel, WriteModel, WriteOutput, WritePhase,
    INCREMENT_END, INCREMENT_MIN, NEVER_EXPIRES,
};
use vstd::prelude::*;

verus! {

/// Whether `c` is a lower-case hexadecimal digit.
pub open spec fn is_hex_char(c: char) -> bool {
    '0' <= c <= '9' || 'a' <= c <= 'f'
}

/// Whether `id` is written like a random UUID: 32 lower-case hexadecimal digits in
/// groups of 8, 4, 4, 4 and 12, with hyphens between them. The third group begins
/// with the version, which is 4, and the fourth one with the variant.
pub open spec fn is_uuid(id: Seq<char>) -> bool {
    &&& id.len() == 36
    &&& forall|i: int|
        0 <= i < 36 ==> if i == 8 || i == 13 || i == 18 || i == 23 {
            #[trigger] id[i] == '-'
        } else {
            is_hex_char(id[i])
        }
    &&& id[14] == '4'
    &&& id[19] == '8' || id[19] == '9' || id[19] == 'a' || id[19] == 'b'
}

/// `uuid::Uuid::new_v4` and its `to_string`: a random name, written as a UUID of
/// version 4 and of the variant of RFC 9562. Which one is left to chance.
#[verifier::external_body]
fn fresh_message_id() -> (id: String)
    ensures
        is_uuid(id@),
{
    uuid::Uuid::new_v4().to_string()
}

/// Some text is written like a UUID.
pub(crate) proof fn lemma_uuid_exists() -> (id: Seq<char>)
    ensures
        is_uuid(id),
{
    Seq::new(
        36,
        |i: int|
            if i == 8 || i == 13 || i == 18 || i == 23 {
                '-'
            } else if i == 14 {
                '4'
            } else {
                '8'
            },
    )
}

/// The waiting times of a message.
fn backoff_schedule(enqueue: &Enqueue) -> (schedule: Vec<u64>)
    ensures
        schedule@ == backoff_schedule_of(enqueue@),
{
    let mut schedule: Vec<u64> = Vec::new();
    match &enqueue.backoff_schedule {
        Some(given) => {
            let mut i: usize = 0;
            while i < given.len()
                invariant
                    i <= given@.len(),
                    schedule@ == Seq::new(i as nat, |j: int| given@[j] as u64),
                decreases given@.len() - i,
            {
                schedule.push(given[i] as u64);
                i = i + 1;
                assert(schedule@ =~= Seq::new(i as nat, |j: int| given@[j] as u64));
            }
        },
        None => {
            schedule.push(100);
            schedule.push(1000);
            schedule.push(5000);
            schedule.push(30000);
            schedule.push(60000);
        },
    }
    assert(schedule@ =~= backoff_schedule_of(enqueue@));
    schedule
}

/// The statement that queues a message under a name.
pub fn queue_message(enqueue: &Enqueue, id: String) -> (statement: Statement)
    ensures
        statement@ == ready_message(enqueue@, id@),
{
    let schedule = backoff_schedule(enqueue);
    Statement::AddReady {
        ts: SqlInteger::Unsigned(to_unsigned(enqueue.deadline)),
        id,
        data: copy_bytes(&enqueue.payload),
        backoff_schedule: schedule_to_json(&schedule),
        keys_if_undelivered: keys_to_json(&enqueue.keys_if_undelivered),
    }
}

/// The statement that stores a value.
fn store(key: Vec<u8>, value: &KvValue, version: i64, expiration_ms: i64) -> (request: Request)
    ensures
        request@ == Action::Sql(set_row(key@, value@, version, expiration_ms)),
{
    let (bytes, encoding) = encode_value(value);
    Request::Sql(Statement::SetRow { key, value: bytes, encoding, version, expiration_ms })
}

fn fail(e: SqliteBackendError) -> (next: (WritePhase, Step<WriteOutput>))
    ensures
        (next.0@, next.1@) == write_fails(e@),
{
    (WritePhase::Finished, Step::Done(Err(e)))
}

fn mutating(index: usize, version: i64, stage: MutationStage, request: Request) -> (next: (
    WritePhase,
    Step<WriteOutput>,
))
    ensures
        (next.0@, next.1@) == mutation_at(index as int, version, stage@, request@),
{
    (WritePhase::Mutating { index, version, stage }, Step::Ask(request))
}

fn go_on_checking(write: &AtomicWrite, index: usize) -> (next: (WritePhase, Step<WriteOutput>))
    requires
        index <= write.checks@.len(),
    ensures
        (next.0@, next.1@) == check_from(write@, index as int),
        phase_fits(write@, next.0@),
{
    if index < write.checks.len() {
        let key = copy_bytes(&write.checks[index].key);
        (WritePhase::Checking { index }, Step::Ask(Request::Sql(Statement::GetVersion { key })))
    } else {
        (
            WritePhase::Drawing,
            Step::Ask(Request::DrawNumber { low: INCREMENT_MIN, high: INCREMENT_END }),
        )
    }
}

fn go_on_enqueueing(write: &AtomicWrite, version: i64, index: usize) -> (next: (
    WritePhase,
    Step<WriteOutput>,
))
    requires
        index <= write.enqueues@.len(),
    ensures
        exists|id: Seq<char>|
            is_uuid(id) && (next.0@, next.1@) == #[trigger] enqueue_from(
                write@,
                version,
                index as int,
                id,
            ),
        phase_fits(write@, next.0@),
{
    if index < write.enqueues.len() {
        let id = fresh_message_id();
        let ghost name = id@;
        let statement = queue_message(&write.enqueues[index], id);
        let next = (
            WritePhase::Enqueueing { index, version },
            Step::Ask(Request::Sql(statement)),
        );
        assert((next.0@, next.1@) == enqueue_from(write@, version, index as int, name));
        next
    } else {
        let has_enqueues = write.enqueues.len() > 0;
        let commit = Some(CommitResult { versionstamp: version_to_versionstamp(version) });
        let next: (WritePhase, Step<WriteOutput>) = (
            WritePhase::Finished,
            Step::Done(Ok(WriteOutput { has_enqueues, commit })),
        );
        proof {
            let id = lemma_uuid_exists();
            assert((next.0@, next.1@) == enqueue_from(write@, version, index as int, id));
        }
        next
    }
}

fn begin_combining(
    op: Le64Op,
    key: &Vec<u8>,
    operand: &KvValue,
    version: i64,
    index: usize,
) -> (next: (WritePhase, Step<WriteOutput>))
    ensures
        (next.0@, next.1@) == combine_numbers(op, key@, operand@, version, index as int),
{
    match number_operand(op, operand) {
        Ok(n) => mutating(
            index,
            version,
            MutationStage::CombiningNumbers { op, operand: n },
            Request::Sql(Statement::GetValue { key: copy_bytes(key) }),
        ),
        Err(e) => fail(e),
    }
}

fn expiration_ms(mutation: &Mutation) -> (ms: i64)
    ensures
        ms == expiration(mutation@.expire_at),
{
    match mutation.expire_at {
        Some(ms) => ms,
        None => NEVER_EXPIRES,
    }
}

fn begin(mutation: &Mutation, version: i64, index: usize) -> (next: (
    WritePhase,
    Step<WriteOutput>,
))
    ensures
        (next.0@, next.1@) == begin_mutation(mutation@, version, index as int),
        next.0@ is Finished || (next.0@ matches PhaseModel::Mutating {
            index: i,
            ..
        } && i == index),
{
    match &mutation.kind {
        MutationKind::SetValue(value) => {
            let request = store(
                copy_bytes(&mutation.key),
                value,
                version,
                expiration_ms(mutation),
            );
            mutating(index, version, MutationStage::Storing, request)
        },
        MutationKind::Delete => mutating(
            index,
            version,
            MutationStage::Deleting,
            Request::Sql(Statement::DeleteRow { key: copy_bytes(&mutation.key) }),
        ),
        MutationKind::Sum { value, min_v8, max_v8, clamp: _ } => {
            if let KvValue::U64(_) = value {
                begin_combining(Le64Op::Sum, &mutation.key, value, version, index)
            } else {
                mutating(
                    index,
                    version,
                    MutationStage::ReadingSum,
                    Request::ReadSum {
                        operand: value.copy(),
                        min_v8: copy_bytes(min_v8),
                        max_v8: copy_bytes(max_v8),
                    },
                )
            }
        },
        MutationKind::Min(value) => begin_combining(
            Le64Op::Min,
            &mutation.key,
            value,
            version,
            index,
        ),
        MutationKind::Max(value) => begin_combining(
            Le64Op::Max,
            &mutation.key,
            value,
            version,
            index,
        ),
        MutationKind::SetSuffixVersionstampedKey(value) => {
            let request = store(
                versionstamped_key(&mutation.key, version),
                value,
                version,
                expiration_ms(mutation),
            );
            mutating(index, version, MutationStage::Storing, request)
        },
    }
}

fn go_on_mutating(write: &AtomicWrite, version: i64, index: usize) -> (next: (
    WritePhase,
    Step<WriteOutput>,
))
    requires
        index <= write.mutations@.len(),
    ensures
        exists|id: Seq<char>|
            is_uuid(id) && (next.0@, next.1@) == #[trigger] mutate_from(
                write@,
                version,
                index as int,
                id,
            ),
        phase_fits(write@, next.0@),
{
    if index < write.mutations.len() {
        let next = begin(&write.mutations[index], version, index);
        proof {
            let id = lemma_uuid_exists();
            assert((next.0@, next.1@) == mutate_from(write@, version, index as int, id));
        }
        next
    } else {
        let next = go_on_enqueueing(write, version, 0);
        proof {
            let id = choose|id: Seq<char>|
                is_uuid(id) && (next.0@, next.1@) == #[trigger] enqueue_from(
                    write@,
                    version,
                    0,
                    id,
                );
            assert((next.0@, next.1@) == mutate_from(write@, version, index as int, id));
        }
        next
    }
}

/// A mutation goes on with what it is told. `None`: it is complete.
fn go_on_with(
    mutation: &Mutation,
    version: i64,
    index: usize,
    stage: MutationStage,
    reply: Reply,
) -> (next: Option<(WritePhase, Step<WriteOutput>)>)
    requires
        stage_expects(stage@, reply@),
    ensures
        match (
            next,
            mutation_step(mutation@, version, index as int, stage@, reply@),
        ) {
            (Some(next), Some(model)) => (next.0@, next.1@) == model && (next.0@ is Finished || (
            next.0@ matches PhaseModel::Mutating { index: i, .. } && i == index)),
            (None, None) => true,
            _ => false,
        },
{
    match (stage, reply) {
        (_, Reply::Failed(e)) => Some(fail(SqliteBackendError::SqliteError(e))),
        (MutationStage::CombiningNumbers { op, operand }, Reply::RowValue(old)) => {
            match mutate_le64(op, operand, old) {
                Ok((value, encoding)) => Some(
                    mutating(
                        index,
                        version,
                        MutationStage::Storing,
                        Request::Sql(
                            Statement::SetRow {
                                key: copy_bytes(&mutation.key),
                                value,
                                encoding,
                                version,
                                expiration_ms: NEVER_EXPIRES,
                            },
                        ),
                    ),
                ),
                Err(e) => Some(fail(e)),
            }
        },
        (MutationStage::ReadingSum, Reply::SumRead { operand, min, max }) => {
            match check_parameters(operand, min, max) {
                Ok(parameters) => Some(
                    mutating(
                        index,
                        version,
                        MutationStage::LoadingStored { parameters },
                        Request::Sql(Statement::GetValue { key: copy_bytes(&mutation.key) }),
                    ),
                ),
                Err(e) => Some(fail(e)),
            }
        },
        (MutationStage::LoadingStored { parameters }, Reply::RowValue(None)) => Some(
            mutating(
                index,
                version,
                MutationStage::WritingSum,
                Request::WriteSum { operand: parameters.operand },
            ),
        ),
        (MutationStage::LoadingStored { parameters }, Reply::RowValue(Some((bytes, encoding)))) => {
            match decode_value(bytes, encoding) {
                Some(value) => Some(
                    mutating(
                        index,
                        version,
                        MutationStage::ReadingStored { parameters },
                        Request::ReadStored { value },
                    ),
                ),
                None => Some(
                    fail(SqliteBackendError::TypeMismatch("Invalid sum operand".to_owned())),
                ),
            }
        },
        (MutationStage::ReadingStored { parameters }, Reply::StoredRead(stored)) => {
            match stored {
                Ok(old) => {
                    let step = sum_values(&old, &parameters, is_clamped(mutation));
                    Some(go_on_summing(step, version, index))
                },
                Err(text) => Some(fail(SqliteBackendError::TypeMismatch(text))),
            }
        },
        (MutationStage::AddingNumbers { min, max }, Reply::NumbersAdded(numbers)) => {
            let result = limit_numbers(numbers, min, max, is_clamped(mutation));
            Some(go_on_summing(SumStep::Done(result), version, index))
        },
        (MutationStage::WritingSum, Reply::SumWritten(value)) => {
            let (value, encoding) = encode_value_owned(value);
            Some(
                mutating(
                    index,
                    version,
                    MutationStage::Storing,
                    Request::Sql(
                        Statement::SetRow {
                            key: copy_bytes(&mutation.key),
                            value,
                            encoding,
                            version,
                            expiration_ms: NEVER_EXPIRES,
                        },
                    ),
                ),
            )
        },
        _ => None,
    }
}

fn is_clamped(mutation: &Mutation) -> (clamped: bool)
    ensures
        clamped == clamps(mutation@),
{
    match &mutation.kind {
        MutationKind::Sum { clamp, .. } => *clamp,
        _ => false,
    }
}

fn go_on_summing(step: SumStep, version: i64, index: usize) -> (next: (
    WritePhase,
    Step<WriteOutput>,
))
    ensures
        (next.0@, next.1@) == after_sum(step@, version, index as int),
{
    match step {
        SumStep::Done(Ok(operand)) => mutating(
            index,
            version,
            MutationStage::WritingSum,
            Request::WriteSum { operand },
        ),
        SumStep::Done(Err(e)) => fail(e),
        SumStep::AddNumbers { current, operand, min, max } => mutating(
            index,
            version,
            MutationStage::AddingNumbers { min, max },
            Request::AddNumbers { current, operand, min, max },
        ),
    }
}

/// Whether a reply can be read as a stored number if it claims to be one.
pub(crate) fn is_well_encoded(stored: &Option<(Vec<u8>, i64)>) -> (well: bool)
    ensures
        well == (stored_view(*stored) matches Some((bytes, encoding))
            ==> well_encoded(bytes, encoding)),
{
    match stored {
        Some((bytes, encoding)) => *encoding != VALUE_ENCODING_LE64 || bytes.len() == 8,
        None => true,
    }
}

/// An atomic write under way.
pub struct WriteTask<'a> {
    write: &'a AtomicWrite,
    phase: WritePhase,
}

/// Starts an atomic write.
pub fn atomic_write_once<'a>(write: &'a AtomicWrite) -> (task: WriteTask<'a>)
    ensures
        task.write() == write@,
        task.phase() == PhaseModel::Fresh,
        task.fits(),
{
    WriteTask { write, phase: WritePhase::Fresh }
}

impl<'a> WriteTask<'a> {
    /// The write.
    pub closed spec fn write(&self) -> WriteModel {
        self.write@
    }

    /// What the task waits for.
    pub closed spec fn phase(&self) -> PhaseModel {
        self.phase@
    }

    /// Whether the write can wait for that.
    pub open spec fn fits(&self) -> bool {
        phase_fits(self.write(), self.phase())
    }

    /// Whether the task can be told this.
    pub fn accepts(&self, reply: &Reply) -> (accepted: bool)
        ensures
            accepted == write_expects(self.phase(), reply@),
    {
        match (&self.phase, reply) {
            (WritePhase::Fresh, Reply::Begin) => true,
            (WritePhase::Checking { .. }, Reply::RowVersion(_)) => true,
            (WritePhase::Checking { .. }, Reply::Failed(_)) => true,
            (WritePhase::Drawing, Reply::Drawn(n)) => INCREMENT_MIN <= *n && *n < INCREMENT_END,
            (WritePhase::Incrementing, Reply::Version(_)) => true,
            (WritePhase::Incrementing, Reply::Failed(_)) => true,
            (WritePhase::Mutating { stage, .. }, _) => stage_accepts(stage, reply),
            (WritePhase::Enqueueing { .. }, Reply::Changed(n)) => *n == 1,
            (WritePhase::Enqueueing { .. }, Reply::Failed(_)) => true,
            _ => false,
        }
    }

    /// Goes on with what it is told.
    pub fn resume(&mut self, reply: Reply) -> (step: Step<WriteOutput>)
        requires
            old(self).fits(),
            write_expects(old(self).phase(), reply@),
        ensures
            final(self).write() == old(self).write(),
            final(self).fits(),
            exists|id: Seq<char>|
                is_uuid(id) && (final(self).phase(), step@) == #[trigger] write_step(
                    old(self).write(),
                    old(self).phase(),
                    reply@,
                    id,
                ),
    {
        let mut phase = WritePhase::Finished;
        core::mem::swap(&mut phase, &mut self.phase);
        let ghost model = phase@;
        let ghost answer = reply@;
        let ghost mut id = lemma_uuid_exists();
        let (next, step) = match (phase, reply) {
            (_, Reply::Failed(e)) => fail(SqliteBackendError::SqliteError(e)),
            (WritePhase::Fresh, _) => go_on_checking(self.write, 0),
            (WritePhase::Checking { index }, Reply::RowVersion(version)) => {
                let matched = match (version, &self.write.checks[index].versionstamp) {
                    (Some(version), Some(expected)) => {
                        same_versionstamp(&version_to_versionstamp(version), expected)
                    },
                    (None, None) => true,
                    _ => false,
                };
                assert(index < self.write.checks.len());
                if matched {
                    go_on_checking(self.write, index + 1)
                } else {
                    (
                        WritePhase::Finished,
                        Step::Done(Ok(WriteOutput { has_enqueues: false, commit: None })),
                    )
                }
            },
            (WritePhase::Drawing, Reply::Drawn(increment)) => (
                WritePhase::Incrementing,
                Step::Ask(Request::Sql(Statement::IncrementDataVersion { increment })),
            ),
            (WritePhase::Incrementing, Reply::Version(version)) => {
                let next = go_on_mutating(self.write, version, 0);
                proof {
                    id = choose|id: Seq<char>|
                        is_uuid(id) && (next.0@, next.1@) == #[trigger] mutate_from(
                            self.write@,
                            version,
                            0,
                            id,
                        );
                }
                next
            },
            (WritePhase::Mutating { index, version, stage }, reply) => {
                match go_on_with(&self.write.mutations[index], version, index, stage, reply) {
                    Some(next) => next,
                    None => {
                        assert(index < self.write.mutations.len());
                        let next = go_on_mutating(self.write, version, index + 1);
                        proof {
                            id = choose|id: Seq<char>|
                                is_uuid(id) && (next.0@, next.1@)
                                    == #[trigger] mutate_from(
                                    self.write@,
                                    version,
                                    index + 1,
                                    id,
                                );
                        }
                        next
                    },
                }
            },
            (WritePhase::Enqueueing { index, version }, _) => {
                assert(index < self.write.enqueues.len());
                let next = go_on_enqueueing(self.write, version, index + 1);
                proof {
                    id = choose|id: Seq<char>|
                        is_uuid(id) && (next.0@, next.1@) == #[trigger] enqueue_from(
                            self.write@,
                            version,
                            index + 1,
                            id,
                        );
                }
                next
            },
            (phase, _) => (phase, Step::ClockOverflow),
        };
        self.phase = next;
        assert((self.phase@, step@) == write_step(self.write@, model, answer, id));
        step
    }
}

fn stage_accepts(stage: &MutationStage, reply: &Reply) -> (accepted: bool)
    ensures
        accepted == stage_expects(stage@, reply@),
{
    match (stage, reply) {
        (MutationStage::Storing, Reply::Changed(n)) => *n == 1,
        (MutationStage::Deleting, Reply::Changed(n)) => *n <= 1,
        (MutationStage::CombiningNumbers { .. }, Reply::RowValue(old)) => is_well_encoded(old),
        (MutationStage::LoadingStored { .. }, Reply::RowValue(old)) => is_well_encoded(old),
        (MutationStage::ReadingSum, Reply::SumRead { .. }) => true,
        (MutationStage::ReadingStored { .. }, Reply::StoredRead(_)) => true,
        (MutationStage::AddingNumbers { .. }, Reply::NumbersAdded(_)) => true,
        (MutationStage::WritingSum, Reply::SumWritten(_)) => true,
        (MutationStage::Storing, Reply::Failed(_)) => true,
        (MutationStage::Deleting, Reply::Failed(_)) => true,
        (MutationStage::CombiningNumbers { .. }, Reply::Failed(_)) => true,
        (MutationStage::LoadingStored { .. }, Reply::Failed(_)) => true,
        _ => false,
    }
}

} // verus!
