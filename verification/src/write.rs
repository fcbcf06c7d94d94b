//! An atomic write: its checks, its mutations and the messages that it queues.

use crate::clock::unsigned;
use crate::error::Fault;
use crate::json::{json_keys, json_schedule};
use crate::le64::{le64_operand, le64_stored, Le64Op};
use crate::request::{ask, Action, Answer, Move, Sql, SqlInteger};
use crate::sum::{
    checked_parameters, limited_number, sum_step, Parameters, SumParameters, SumStepModel,
};
use crate::value::{decoded, encoded, well_encoded, KvValue, Value};
use crate::versionstamp::{suffixed_key, versionstamp_of, Versionstamp};
use crate::views::{opt_view, seq_view};
use vstd::prelude::*;

verus! {

/// That a key has a certain version, or none.
#[derive(Debug, PartialEq, Eq)]
pub struct Check {
    pub key: Vec<u8>,
    pub versionstamp: Option<Versionstamp>,
}

/// What a `Check` stands for.
pub struct CheckModel {
    pub key: Seq<u8>,
    pub versionstamp: Option<Seq<u8>>,
}

impl View for Check {
    type V = CheckModel;

    open spec fn view(&self) -> CheckModel {
        CheckModel { key: self.key@, versionstamp: opt_view(self.versionstamp) }
    }
}

/// What a mutation does to its key.
#[derive(Debug, PartialEq, Eq)]
pub enum MutationKind {
    /// Sets the value.
    SetValue(KvValue),
    /// Deletes the value.
    Delete,
    /// Adds to the value. An empty limit is none.
    Sum { value: KvValue, min_v8: Vec<u8>, max_v8: Vec<u8>, clamp: bool },
    /// Sets the value to the smaller of it and the operand.
    Min(KvValue),
    /// Sets the value to the greater of it and the operand.
    Max(KvValue),
    /// Sets the value of the key that ends in the versionstamp of the write.
    SetSuffixVersionstampedKey(KvValue),
}

/// What a `MutationKind` stands for.
pub enum KindModel {
    SetValue(Value),
    Delete,
    Sum { value: Value, min_v8: Seq<u8>, max_v8: Seq<u8>, clamp: bool },
    Min(Value),
    Max(Value),
    SetSuffixVersionstampedKey(Value),
}

impl View for MutationKind {
    type V = KindModel;

    open spec fn view(&self) -> KindModel {
        match self {
            MutationKind::SetValue(value) => KindModel::SetValue(value@),
            MutationKind::Delete => KindModel::Delete,
            MutationKind::Sum { value, min_v8, max_v8, clamp } => KindModel::Sum {
                value: value@,
                min_v8: min_v8@,
                max_v8: max_v8@,
                clamp: *clamp,
            },
            MutationKind::Min(value) => KindModel::Min(value@),
            MutationKind::Max(value) => KindModel::Max(value@),
            MutationKind::SetSuffixVersionstampedKey(value) => {
                KindModel::SetSuffixVersionstampedKey(value@)
            },
        }
    }
}

/// A change to the value of a key.
#[derive(Debug, PartialEq, Eq)]
pub struct Mutation {
    pub key: Vec<u8>,
    pub kind: MutationKind,
    /// When a value that is set expires, in milliseconds since the epoch.
    pub expire_at: Option<i64>,
}

/// What a `Mutation` stands for.
pub struct MutationModel {
    pub key: Seq<u8>,
    pub kind: KindModel,
    pub expire_at: Option<i64>,
}

impl View for Mutation {
    type V = MutationModel;

    open spec fn view(&self) -> MutationModel {
        MutationModel { key: self.key@, kind: self.kind@, expire_at: self.expire_at }
    }
}

/// A message to queue.
#[derive(Debug, PartialEq, Eq)]
pub struct Enqueue {
    pub payload: Vec<u8>,
    /// When the message is due, in milliseconds since the epoch.
    pub deadline: i64,
    /// The keys that get the payload if no delivery succeeds.
    pub keys_if_undelivered: Vec<Vec<u8>>,
    /// How long to wait before each further delivery, in milliseconds.
    pub backoff_schedule: Option<Vec<u32>>,
}

/// What an `Enqueue` stands for.
pub struct EnqueueModel {
    pub payload: Seq<u8>,
    pub deadline: i64,
    pub keys_if_undelivered: Seq<Seq<u8>>,
    pub backoff_schedule: Option<Seq<u32>>,
}

impl View for Enqueue {
    type V = EnqueueModel;

    open spec fn view(&self) -> EnqueueModel {
        EnqueueModel {
            payload: self.payload@,
            deadline: self.deadline,
            keys_if_undelivered: seq_view(self.keys_if_undelivered@),
            backoff_schedule: opt_view(self.backoff_schedule),
        }
    }
}

/// Checks, and what is done where all of them pass.
#[derive(Debug, PartialEq, Eq)]
pub struct AtomicWrite {
    pub checks: Vec<Check>,
    pub mutations: Vec<Mutation>,
    pub enqueues: Vec<Enqueue>,
}

/// What an `AtomicWrite` stands for.
pub struct WriteModel {
    pub checks: Seq<CheckModel>,
    pub mutations: Seq<MutationModel>,
    pub enqueues: Seq<EnqueueModel>,
}

impl View for AtomicWrite {
    type V = WriteModel;

    open spec fn view(&self) -> WriteModel {
        WriteModel {
            checks: seq_view(self.checks@),
            mutations: seq_view(self.mutations@),
            enqueues: seq_view(self.enqueues@),
        }
    }
}

/// The result of a write whose checks passed.
#[derive(Debug, PartialEq, Eq)]
pub struct CommitResult {
    pub versionstamp: Versionstamp,
}

impl View for CommitResult {
    type V = Seq<u8>;

    open spec fn view(&self) -> Seq<u8> {
        self.versionstamp@
    }
}

/// What a write comes to: whether it queued messages, and its versionstamp if
/// its checks passed.
#[derive(Debug, PartialEq, Eq)]
pub struct WriteOutput {
    pub has_enqueues: bool,
    pub commit: Option<CommitResult>,
}

/// What a `WriteOutput` stands for.
pub struct WriteOutcome {
    pub has_enqueues: bool,
    pub commit: Option<Seq<u8>>,
}

impl View for WriteOutput {
    type V = WriteOutcome;

    open spec fn view(&self) -> WriteOutcome {
        WriteOutcome { has_enqueues: self.has_enqueues, commit: opt_view(self.commit) }
    }
}

/// A write raises the data version by at least this.
pub const INCREMENT_MIN: i64 = 1;

/// A write raises the data version by less than this.
pub const INCREMENT_END: i64 = 10;

/// The expiration of a value that does not expire.
pub const NEVER_EXPIRES: i64 = -1;

/// The waiting times of a message that comes without any.
pub open spec fn default_backoff_schedule() -> Seq<u64> {
    seq![100u64, 1000, 5000, 30000, 60000]
}

/// The expiration that a value is stored with.
pub open spec fn expiration(expire_at: Option<i64>) -> i64 {
    match expire_at {
        Some(ms) => ms,
        None => NEVER_EXPIRES,
    }
}

/// The waiting times of a message.
pub open spec fn backoff_schedule_of(enqueue: EnqueueModel) -> Seq<u64> {
    match enqueue.backoff_schedule {
        Some(schedule) => Seq::new(schedule.len(), |i: int| schedule[i] as u64),
        None => default_backoff_schedule(),
    }
}

/// The statement that queues a message under a name.
pub open spec fn ready_message(enqueue: EnqueueModel, id: Seq<char>) -> Sql {
    Sql::AddReady {
        ts: SqlInteger::Unsigned(unsigned(enqueue.deadline as int) as u64),
        id,
        data: enqueue.payload,
        backoff_schedule: json_schedule(backoff_schedule_of(enqueue)),
        keys_if_undelivered: json_keys(enqueue.keys_if_undelivered),
    }
}

/// The statement that stores a value.
pub open spec fn set_row(key: Seq<u8>, value: Value, version: i64, expiration_ms: i64) -> Sql {
    Sql::SetRow {
        key,
        value: encoded(value).0,
        encoding: encoded(value).1,
        version,
        expiration_ms,
    }
}

/// What the task that carries out a mutation waits for.
pub enum MutationStage {
    /// For a value to be stored.
    Storing,
    /// For a value to be deleted.
    Deleting,
    /// For the stored number to combine with the operand.
    CombiningNumbers { op: Le64Op, operand: u64 },
    /// For the parameters of a sum to be read.
    ReadingSum,
    /// For the value to add to.
    LoadingStored { parameters: SumParameters },
    /// For that value to be read.
    ReadingStored { parameters: SumParameters },
    /// For two doubles to be added.
    AddingNumbers { min: Option<u64>, max: Option<u64> },
    /// For the sum to be written as a value.
    WritingSum,
}

/// What a `MutationStage` stands for.
pub enum StageModel {
    Storing,
    Deleting,
    CombiningNumbers { op: Le64Op, operand: u64 },
    ReadingSum,
    LoadingStored { parameters: Parameters },
    ReadingStored { parameters: Parameters },
    AddingNumbers { min: Option<u64>, max: Option<u64> },
    WritingSum,
}

impl View for MutationStage {
    type V = StageModel;

    open spec fn view(&self) -> StageModel {
        match self {
            MutationStage::Storing => StageModel::Storing,
            MutationStage::Deleting => StageModel::Deleting,
            MutationStage::CombiningNumbers { op, operand } => StageModel::CombiningNumbers {
                op: *op,
                operand: *operand,
            },
            MutationStage::ReadingSum => StageModel::ReadingSum,
            MutationStage::LoadingStored { parameters } => StageModel::LoadingStored {
                parameters: parameters@,
            },
            MutationStage::ReadingStored { parameters } => StageModel::ReadingStored {
                parameters: parameters@,
            },
            MutationStage::AddingNumbers { min, max } => StageModel::AddingNumbers {
                min: *min,
                max: *max,
            },
            MutationStage::WritingSum => StageModel::WritingSum,
        }
    }
}

/// What the task that carries out a write waits for.
pub enum WritePhase {
    /// To begin.
    Fresh,
    /// For the version of a checked key.
    Checking { index: usize },
    /// For a random number.
    Drawing,
    /// For the new data version.
    Incrementing,
    /// For the next thing that a mutation needs.
    Mutating { index: usize, version: i64, stage: MutationStage },
    /// For a message to be queued.
    Enqueueing { index: usize, version: i64 },
    /// For nothing any more.
    Finished,
}

/// What a `WritePhase` stands for.
pub enum PhaseModel {
    Fresh,
    Checking { index: int },
    Drawing,
    Incrementing,
    Mutating { index: int, version: i64, stage: StageModel },
    Enqueueing { index: int, version: i64 },
    Finished,
}

impl View for WritePhase {
    type V = PhaseModel;

    open spec fn view(&self) -> PhaseModel {
        match self {
            WritePhase::Fresh => PhaseModel::Fresh,
            WritePhase::Checking { index } => PhaseModel::Checking { index: *index as int },
            WritePhase::Drawing => PhaseModel::Drawing,
            WritePhase::Incrementing => PhaseModel::Incrementing,
            WritePhase::Mutating { index, version, stage } => PhaseModel::Mutating {
                index: *index as int,
                version: *version,
                stage: stage@,
            },
            WritePhase::Enqueueing { index, version } => PhaseModel::Enqueueing {
                index: *index as int,
                version: *version,
            },
            WritePhase::Finished => PhaseModel::Finished,
        }
    }
}

/// Where a write stands and what it does next.
pub type WriteMove = (PhaseModel, Move<WriteOutcome>);

/// The end of a write in an error.
pub open spec fn write_fails(fault: Fault) -> WriteMove {
    (PhaseModel::Finished, Move::Done(Err(fault)))
}

/// The write goes on with the check at `index`; after the last one it draws the
/// number by which the data version grows.
pub open spec fn check_from(write: WriteModel, index: int) -> WriteMove {
    if index < write.checks.len() {
        (
            PhaseModel::Checking { index },
            ask(Sql::GetVersion { key: write.checks[index].key }),
        )
    } else {
        (
            PhaseModel::Drawing,
            Move::Ask(Action::DrawNumber { low: INCREMENT_MIN, high: INCREMENT_END }),
        )
    }
}

/// The write goes on with the message at `index`; after the last one it is done.
pub open spec fn enqueue_from(
    write: WriteModel,
    version: i64,
    index: int,
    id: Seq<char>,
) -> WriteMove {
    if index < write.enqueues.len() {
        (
            PhaseModel::Enqueueing { index, version },
            ask(ready_message(write.enqueues[index], id)),
        )
    } else {
        (
            PhaseModel::Finished,
            Move::Done(
                Ok(
                    WriteOutcome {
                        has_enqueues: write.enqueues.len() > 0,
                        commit: Some(versionstamp_of(version as int)),
                    },
                ),
            ),
        )
    }
}

/// The mutation at `index` waits for `stage`, having made a move.
pub open spec fn mutation_at(
    index: int,
    version: i64,
    stage: StageModel,
    action: Action,
) -> WriteMove {
    (PhaseModel::Mutating { index, version, stage }, Move::Ask(action))
}

/// A mutation that combines two numbers begins by reading the stored one.
pub open spec fn combine_numbers(
    op: Le64Op,
    key: Seq<u8>,
    operand: Value,
    version: i64,
    index: int,
) -> WriteMove {
    match le64_operand(op, operand) {
        Ok(n) => mutation_at(
            index,
            version,
            StageModel::CombiningNumbers { op, operand: n },
            Action::Sql(Sql::GetValue { key }),
        ),
        Err(fault) => write_fails(fault),
    }
}

/// A mutation begins.
pub open spec fn begin_mutation(mutation: MutationModel, version: i64, index: int) -> WriteMove {
    match mutation.kind {
        KindModel::SetValue(value) => mutation_at(
            index,
            version,
            StageModel::Storing,
            Action::Sql(set_row(mutation.key, value, version, expiration(mutation.expire_at))),
        ),
        KindModel::Delete => mutation_at(
            index,
            version,
            StageModel::Deleting,
            Action::Sql(Sql::DeleteRow { key: mutation.key }),
        ),
        KindModel::Sum { value, min_v8, max_v8, clamp } => {
            if value is U64 {
                combine_numbers(Le64Op::Sum, mutation.key, value, version, index)
            } else {
                mutation_at(
                    index,
                    version,
                    StageModel::ReadingSum,
                    Action::ReadSum { operand: value, min_v8, max_v8 },
                )
            }
        },
        KindModel::Min(value) => combine_numbers(
            Le64Op::Min,
            mutation.key,
            value,
            version,
            index,
        ),
        KindModel::Max(value) => combine_numbers(
            Le64Op::Max,
            mutation.key,
            value,
            version,
            index,
        ),
        KindModel::SetSuffixVersionstampedKey(value) => mutation_at(
            index,
            version,
            StageModel::Storing,
            Action::Sql(
                set_row(
                    suffixed_key(mutation.key, version as int),
                    value,
                    version,
                    expiration(mutation.expire_at),
                ),
            ),
        ),
    }
}

/// The write goes on with the mutation at `index`; after the last one come the
/// messages.
pub open spec fn mutate_from(
    write: WriteModel,
    version: i64,
    index: int,
    id: Seq<char>,
) -> WriteMove {
    if index < write.mutations.len() {
        begin_mutation(write.mutations[index], version, index)
    } else {
        enqueue_from(write, version, 0, id)
    }
}

/// A sum goes on with what the addition came to.
pub open spec fn after_sum(step: SumStepModel, version: i64, index: int) -> WriteMove {
    match step {
        SumStepModel::Done(Ok(operand)) => mutation_at(
            index,
            version,
            StageModel::WritingSum,
            Action::WriteSum { operand },
        ),
        SumStepModel::Done(Err(fault)) => write_fails(fault),
        SumStepModel::AddNumbers { current, operand, min, max } => mutation_at(
            index,
            version,
            StageModel::AddingNumbers { min, max },
            Action::AddNumbers { current, operand, min, max },
        ),
    }
}

/// Whether a sum brings its result to the limits.
pub open spec fn clamps(mutation: MutationModel) -> bool {
    mutation.kind matches KindModel::Sum { clamp, .. } && clamp
}

/// A mutation goes on with what it is told. `None`: it is complete.
pub open spec fn mutation_step(
    mutation: MutationModel,
    version: i64,
    index: int,
    stage: StageModel,
    answer: Answer,
) -> Option<WriteMove> {
    match (stage, answer) {
        (_, Answer::Failed(failure)) => Some(write_fails(Fault::Sqlite(failure))),
        (StageModel::CombiningNumbers { op, operand }, Answer::RowValue(old)) => Some(
            match le64_stored(op, operand, old) {
                Ok(n) => mutation_at(
                    index,
                    version,
                    StageModel::Storing,
                    Action::Sql(set_row(mutation.key, Value::U64(n), version, NEVER_EXPIRES)),
                ),
                Err(fault) => write_fails(fault),
            },
        ),
        (StageModel::ReadingSum, Answer::SumRead { operand, min, max }) => Some(
            match checked_parameters(operand, min, max) {
                Ok(parameters) => mutation_at(
                    index,
                    version,
                    StageModel::LoadingStored { parameters },
                    Action::Sql(Sql::GetValue { key: mutation.key }),
                ),
                Err(fault) => write_fails(fault),
            },
        ),
        (StageModel::LoadingStored { parameters }, Answer::RowValue(None)) => Some(
            mutation_at(
                index,
                version,
                StageModel::WritingSum,
                Action::WriteSum { operand: parameters.operand },
            ),
        ),
        (StageModel::LoadingStored { parameters }, Answer::RowValue(Some((bytes, encoding)))) =>
        Some(
            match decoded(bytes, encoding) {
                Some(value) => mutation_at(
                    index,
                    version,
                    StageModel::ReadingStored { parameters },
                    Action::ReadStored { value },
                ),
                None => write_fails(Fault::TypeMismatch("Invalid sum operand"@)),
            },
        ),
        (StageModel::ReadingStored { parameters }, Answer::StoredRead(stored)) => Some(
            match stored {
                Ok(old) => after_sum(
                    sum_step(old, parameters, clamps(mutation)),
                    version,
                    index,
                ),
                Err(text) => write_fails(Fault::TypeMismatch(text)),
            },
        ),
        (StageModel::AddingNumbers { min, max }, Answer::NumbersAdded(numbers)) => Some(
            after_sum(
                SumStepModel::Done(limited_number(numbers, min, max, clamps(mutation))),
                version,
                index,
            ),
        ),
        (StageModel::WritingSum, Answer::SumWritten(value)) => Some(
            mutation_at(
                index,
                version,
                StageModel::Storing,
                Action::Sql(set_row(mutation.key, value, version, NEVER_EXPIRES)),
            ),
        ),
        _ => None,
    }
}

/// The versionstamp of a row, if there is one.
pub open spec fn row_versionstamp(version: Option<i64>) -> Option<Seq<u8>> {
    match version {
        Some(v) => Some(versionstamp_of(v as int)),
        None => None,
    }
}

/// The write goes on with what it is told. `id` names the message that it queues
/// next.
pub open spec fn write_step(
    write: WriteModel,
    phase: PhaseModel,
    answer: Answer,
    id: Seq<char>,
) -> WriteMove {
    match (phase, answer) {
        (_, Answer::Failed(failure)) => write_fails(Fault::Sqlite(failure)),
        (PhaseModel::Fresh, _) => check_from(write, 0),
        (PhaseModel::Checking { index }, Answer::RowVersion(version)) => {
            if row_versionstamp(version) == write.checks[index].versionstamp {
                check_from(write, index + 1)
            } else {
                (
                    PhaseModel::Finished,
                    Move::Done(Ok(WriteOutcome { has_enqueues: false, commit: None })),
                )
            }
        },
        (PhaseModel::Drawing, Answer::Drawn(increment)) => (
            PhaseModel::Incrementing,
            ask(Sql::IncrementDataVersion { increment }),
        ),
        (PhaseModel::Incrementing, Answer::Version(version)) => mutate_from(
            write,
            version,
            0,
            id,
        ),
        (PhaseModel::Mutating { index, version, stage }, _) => {
            match mutation_step(write.mutations[index], version, index, stage, answer) {
                Some(next) => next,
                None => mutate_from(write, version, index + 1, id),
            }
        },
        (PhaseModel::Enqueueing { index, version }, _) => enqueue_from(
            write,
            version,
            index + 1,
            id,
        ),
        _ => (phase, Move::ClockOverflow),
    }
}

/// Whether a stage can be told this.
pub open spec fn stage_expects(stage: StageModel, answer: Answer) -> bool {
    match (stage, answer) {
        (StageModel::Storing, Answer::Changed(n)) => n == 1,
        (StageModel::Deleting, Answer::Changed(n)) => n <= 1,
        (StageModel::CombiningNumbers { .. }, Answer::RowValue(old)) => old matches Some(
            (bytes, encoding),
        ) ==> well_encoded(bytes, encoding),
        (StageModel::LoadingStored { .. }, Answer::RowValue(old)) => old matches Some(
            (bytes, encoding),
        ) ==> well_encoded(bytes, encoding),
        (StageModel::ReadingSum, Answer::SumRead { .. }) => true,
        (StageModel::ReadingStored { .. }, Answer::StoredRead(_)) => true,
        (StageModel::AddingNumbers { .. }, Answer::NumbersAdded(_)) => true,
        (StageModel::WritingSum, Answer::SumWritten(_)) => true,
        (StageModel::Storing, Answer::Failed(_)) => true,
        (StageModel::Deleting, Answer::Failed(_)) => true,
        (StageModel::CombiningNumbers { .. }, Answer::Failed(_)) => true,
        (StageModel::LoadingStored { .. }, Answer::Failed(_)) => true,
        _ => false,
    }
}

/// Whether a write that waits in `phase` can be told this: the reply has to be
/// one to its request, a stored row has to have changed, and a stored number has
/// to have eight bytes.
pub open spec fn write_expects(phase: PhaseModel, answer: Answer) -> bool {
    match (phase, answer) {
        (PhaseModel::Fresh, Answer::Begin) => true,
        (PhaseModel::Checking { .. }, Answer::RowVersion(_)) => true,
        (PhaseModel::Checking { .. }, Answer::Failed(_)) => true,
        (PhaseModel::Drawing, Answer::Drawn(n)) => INCREMENT_MIN <= n < INCREMENT_END,
        (PhaseModel::Incrementing, Answer::Version(_)) => true,
        (PhaseModel::Incrementing, Answer::Failed(_)) => true,
        (PhaseModel::Mutating { stage, .. }, _) => stage_expects(stage, answer),
        (PhaseModel::Enqueueing { .. }, Answer::Changed(n)) => n == 1,
        (PhaseModel::Enqueueing { .. }, Answer::Failed(_)) => true,
        _ => false,
    }
}

/// Whether a write can be in `phase`.
pub open spec fn phase_fits(write: WriteModel, phase: PhaseModel) -> bool {
    match phase {
        PhaseModel::Checking { index } => 0 <= index < write.checks.len(),
        PhaseModel::Mutating { index, .. } => 0 <= index < write.mutations.len(),
        PhaseModel::Enqueueing { index, .. } => 0 <= index < write.enqueues.len(),
        _ => true,
    }
}

} // verus!
