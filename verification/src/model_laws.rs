//! That the models of what goes in and out leave nothing out.

use crate::batch::BatchOutput;
use crate::bigint::signed_number;
use crate::error::{Failure, Fault, SqliteBackendError};
use crate::expiry::CollectOutput;
use crate::queue::DequeueOutput;
use crate::read::{ReadRange, SnapshotOutput};
use crate::request::{Action, Answer, Move, Reply, Request, Sql, Statement, Step};
use crate::sum::{Operand, SumOperand};
use crate::value::{KvValue, Value};
use crate::views::{opt_view, result_view, seq_view};
use crate::write::{AtomicWrite, KindModel, MutationKind, WriteOutput};
use vstd::prelude::*;

verus! {

/// A list stands for what each of its items stands for, in their order, an optional
/// value for what its value does, and a result for what its two sides do.
pub proof fn containers_stand_for_their_contents<T: View, E: View>(
    values: Seq<T>,
    value: T,
    error: E,
)
    ensures
        seq_view(values).len() == values.len(),
        forall|i: int| 0 <= i < values.len() ==> #[trigger] seq_view(values)[i] == values[i]@,
        opt_view(Some(value)) == Some(value@),
        opt_view(None::<T>) is None,
        result_view(Ok::<T, E>(value)) == Ok::<T::V, E::V>(value@),
        result_view(Err::<T, E>(error)) == Err::<T::V, E::V>(error@),
{
}

/// A write stands for its checks, mutations and messages, with all that each of them
/// holds.
pub proof fn a_write_stands_for_its_parts(write: AtomicWrite, i: int)
    ensures
        write@.checks.len() == write.checks@.len(),
        write@.mutations.len() == write.mutations@.len(),
        write@.enqueues.len() == write.enqueues@.len(),
        0 <= i < write.checks@.len() ==> {
            let check = write.checks@[i];
            &&& write@.checks[i].key == check.key@
            &&& match check.versionstamp {
                Some(stamp) => write@.checks[i].versionstamp == Some(stamp@),
                None => write@.checks[i].versionstamp is None,
            }
        },
        0 <= i < write.mutations@.len() ==> {
            let mutation = write.mutations@[i];
            let model = write@.mutations[i];
            &&& model.key == mutation.key@
            &&& model.expire_at == mutation.expire_at
            &&& match mutation.kind {
                MutationKind::SetValue(value) => model.kind == KindModel::SetValue(value@),
                MutationKind::Delete => model.kind == KindModel::Delete,
                MutationKind::Sum { value, min_v8, max_v8, clamp } => model.kind == (
                KindModel::Sum { value: value@, min_v8: min_v8@, max_v8: max_v8@, clamp }),
                MutationKind::Min(value) => model.kind == KindModel::Min(value@),
                MutationKind::Max(value) => model.kind == KindModel::Max(value@),
                MutationKind::SetSuffixVersionstampedKey(value) => model.kind
                    == KindModel::SetSuffixVersionstampedKey(value@),
            }
        },
        0 <= i < write.enqueues@.len() ==> {
            let enqueue = write.enqueues@[i];
            let model = write@.enqueues[i];
            &&& model.payload == enqueue.payload@
            &&& model.deadline == enqueue.deadline
            &&& model.keys_if_undelivered.len() == enqueue.keys_if_undelivered@.len()
            &&& forall|j: int|
                0 <= j < enqueue.keys_if_undelivered@.len()
                    ==> #[trigger] model.keys_if_undelivered[j]
                    == enqueue.keys_if_undelivered@[j]@
            &&& match enqueue.backoff_schedule {
                Some(times) => model.backoff_schedule == Some(times@),
                None => model.backoff_schedule is None,
            }
        },
{
}

/// Values, and the operands of sums, stand for what they hold.
pub proof fn values_stand_for_what_they_hold(value: KvValue, operand: SumOperand)
    ensures
        match value {
            KvValue::V8(bytes) => value@ == Value::V8(bytes@),
            KvValue::Bytes(bytes) => value@ == Value::Bytes(bytes@),
            KvValue::U64(n) => value@ == Value::U64(n),
        },
        match operand {
            SumOperand::BigInt(bytes) => operand@ == Operand::BigInt(signed_number(bytes@)),
            SumOperand::Number(bits) => operand@ == Operand::Number(bits),
            SumOperand::KvU64(n) => operand@ == Operand::KvU64(n),
        },
{
}

/// A range and what is read of it stand for what they hold.
pub proof fn reads_stand_for_what_they_hold(
    range: ReadRange,
    output: SnapshotOutput,
    i: int,
    j: int,
)
    ensures
        range@.start == range.start@,
        range@.end == range.end@,
        range@.limit == range.limit,
        range@.reverse == range.reverse,
        output@.versionstamp == output.versionstamp@,
        output@.ranges.len() == output.ranges@.len(),
        0 <= i < output.ranges@.len() ==> output@.ranges[i].len()
            == output.ranges@[i].entries@.len(),
        0 <= i < output.ranges@.len() && 0 <= j < output.ranges@[i].entries@.len() ==> {
            let entry = output.ranges@[i].entries@[j];
            &&& output@.ranges[i][j].key == entry.key@
            &&& output@.ranges[i][j].value == entry.value@
            &&& output@.ranges[i][j].versionstamp == entry.versionstamp@
        },
{
}

/// What the other tasks hand out stands for what it holds.
pub proof fn outputs_stand_for_what_they_hold(
    write: WriteOutput,
    batch: BatchOutput,
    dequeued: DequeueOutput,
    collected: CollectOutput,
    i: int,
)
    ensures
        write@.has_enqueues == write.has_enqueues,
        match write.commit {
            Some(commit) => write@.commit == Some(commit.versionstamp@),
            None => write@.commit is None,
        },
        batch@.has_enqueues == batch.has_enqueues,
        batch@.results.len() == batch.results@.len(),
        0 <= i < batch.results@.len() ==> match batch.results@[i] {
            Ok(Some(commit)) => batch@.results[i] == Ok::<Option<Seq<u8>>, Fault>(
                Some(commit.versionstamp@),
            ),
            Ok(None) => batch@.results[i] == Ok::<Option<Seq<u8>>, Fault>(None),
            Err(e) => batch@.results[i] == Err::<Option<Seq<u8>>, Fault>(e@),
        },
        dequeued@.next_ready_ms == dequeued.next_ready_ms,
        match dequeued.message {
            Some(message) => dequeued@.message matches Some(delivery) && delivery.id == message.id@
                && delivery.payload == message.payload@,
            None => dequeued@.message is None,
        },
        collected@.earliest_expiration_ms == collected.earliest_expiration_ms,
        collected@.updates.len() == collected.updates@.len(),
        0 <= i < collected.updates@.len() ==> {
            &&& collected@.updates[i].key == collected.updates@[i].key@
            &&& collected@.updates[i].versionstamp == collected.updates@[i].versionstamp@
        },
{
}

/// An error stands for what it tells.
pub proof fn errors_stand_for_what_they_tell(e: SqliteBackendError)
    ensures
        match e {
            SqliteBackendError::SqliteError(failure) => e@ == Fault::Sqlite(
                Failure { code: failure.code, message: failure.message@ },
            ),
            SqliteBackendError::GenericError(text) => e@ == Fault::Generic(text@),
            SqliteBackendError::DatabaseClosed => e@ == Fault::DatabaseClosed,
            SqliteBackendError::WriteDisabled => e@ == Fault::WriteDisabled,
            SqliteBackendError::UnknownValueEncoding(n) => e@ == Fault::UnknownValueEncoding(n),
            SqliteBackendError::TypeMismatch(text) => e@ == Fault::TypeMismatch(text@),
            SqliteBackendError::SumOutOfRange => e@ == Fault::SumOutOfRange,
        },
{
}

/// A statement stands for its parameters.
pub proof fn a_statement_stands_for_its_parameters(statement: Statement)
    ensures
        match statement {
            Statement::IncrementDataVersion { increment } => statement@
                == (Sql::IncrementDataVersion { increment }),
            Statement::GetDataVersion => statement@ == Sql::GetDataVersion,
            Statement::ScanRange { start, end, limit, reverse } => statement@ == (Sql::ScanRange {
                start: start@,
                end: end@,
                limit,
                reverse,
            }),
            Statement::GetValue { key } => statement@ == (Sql::GetValue { key: key@ }),
            Statement::GetVersion { key } => statement@ == (Sql::GetVersion { key: key@ }),
            Statement::SetRow { key, value, encoding, version, expiration_ms } => statement@
                == (Sql::SetRow {
                key: key@,
                value: value@,
                encoding,
                version,
                expiration_ms,
            }),
            Statement::DeleteRow { key } => statement@ == (Sql::DeleteRow { key: key@ }),
            Statement::DeleteExpired { now_ms } => statement@ == (Sql::DeleteExpired { now_ms }),
            Statement::EarliestExpiration => statement@ == Sql::EarliestExpiration,
            Statement::AddReady { ts, id, data, backoff_schedule, keys_if_undelivered } =>
            statement@ == (Sql::AddReady {
                ts,
                id: id@,
                data: data@,
                backoff_schedule: backoff_schedule@,
                keys_if_undelivered: keys_if_undelivered@,
            }),
            Statement::NextReady { now_ms } => statement@ == (Sql::NextReady { now_ms }),
            Statement::EarliestReady => statement@ == Sql::EarliestReady,
            Statement::RemoveReady { id } => statement@ == (Sql::RemoveReady { id: id@ }),
            Statement::AddRunning { deadline, id, data, backoff_schedule, keys_if_undelivered } =>
            statement@ == (Sql::AddRunning {
                deadline,
                id: id@,
                data: data@,
                backoff_schedule: backoff_schedule@,
                keys_if_undelivered: keys_if_undelivered@,
            }),
            Statement::UpdateDeadline { deadline, id } => statement@ == (Sql::UpdateDeadline {
                deadline,
                id: id@,
            }),
            Statement::RemoveRunning { id } => statement@ == (Sql::RemoveRunning { id: id@ }),
            Statement::RunningById { id } => statement@ == (Sql::RunningById { id: id@ }),
            Statement::RunningPastDeadline { now_ms } => statement@
                == (Sql::RunningPastDeadline { now_ms }),
            Statement::CreateMigrationTable => statement@ == Sql::CreateMigrationTable,
            Statement::GetMigrationVersion => statement@ == Sql::GetMigrationVersion,
            Statement::RunMigration { index } => statement@ == (Sql::RunMigration { index }),
            Statement::SaveMigrationVersion { version } => statement@
                == (Sql::SaveMigrationVersion { version }),
        },
{
}

/// A request stands for what it asks for.
pub proof fn a_request_stands_for_what_it_asks(request: Request)
    ensures
        match request {
            Request::Sql(x) => request@ == Action::Sql(x@),
            Request::DrawNumber { low, high } => request@ == (Action::DrawNumber {
                low,
                high,
            }),
            Request::ReadSum { operand, min_v8, max_v8 } => request@ == (Action::ReadSum {
                operand: operand@,
                min_v8: min_v8@,
                max_v8: max_v8@,
            }),
            Request::ReadStored { value } => request@ == (Action::ReadStored { value: value@ }),
            Request::AddNumbers { current, operand, min, max } => request@ == (Action::AddNumbers {
                current,
                operand,
                min,
                max,
            }),
            Request::WriteSum { operand } => request@ == (Action::WriteSum { operand: operand@ }),
            Request::ScheduleDequeue => request@ == Action::ScheduleDequeue,
        },
{
}

/// A reply stands for what it tells.
pub proof fn a_reply_stands_for_what_it_tells(reply: Reply)
    ensures
        match reply {
            Reply::Begin => reply@ == Answer::Begin,
            Reply::Failed(e) => reply@ == Answer::Failed(
                Failure { code: e.code, message: e.message@ },
            ),
            Reply::Performed => reply@ == Answer::Performed,
            Reply::Changed(n) => reply@ == Answer::Changed(n),
            Reply::Version(version) => reply@ == Answer::Version(version),
            Reply::RowVersion(version) => reply@ == Answer::RowVersion(version),
            Reply::RowValue(Some((value, encoding))) => reply@ == Answer::RowValue(
                Some((value@, encoding)),
            ),
            Reply::RowValue(None) => reply@ == Answer::RowValue(None),
            Reply::Rows(rows, failure) => reply@ matches Answer::Rows(models, told) && models.len()
                == rows@.len() && (failure is Some == told is Some) && forall|i: int|
                0 <= i < rows@.len() ==> {
                    &&& (#[trigger] models[i]).key == rows@[i].key@
                    &&& models[i].value == rows@[i].value@
                    &&& models[i].encoding == rows@[i].encoding
                    &&& models[i].version == rows@[i].version
                },
            Reply::Keys(keys) => reply@ matches Answer::Keys(models) && models.len() == keys@.len()
                && forall|i: int| 0 <= i < keys@.len() ==> #[trigger] models[i] == keys@[i]@,
            Reply::Ids(ids) => reply@ matches Answer::Ids(models) && models.len() == ids@.len()
                && forall|i: int| 0 <= i < ids@.len() ==> #[trigger] models[i] == ids@[i]@,
            Reply::Message(Some(message)) => reply@ matches Answer::Message(Some(model)) && model.ts
                == message.ts && model.id == message.id@ && model.data == message.data@
                && model.backoff_schedule == message.backoff_schedule@ && model.keys_if_undelivered
                == message.keys_if_undelivered@,
            Reply::Message(None) => reply@ == Answer::Message(None),
            Reply::Time(ms) => reply@ == Answer::Time(ms),
            Reply::SchemaVersion(version) => reply@ == Answer::SchemaVersion(version),
            Reply::Drawn(n) => reply@ == Answer::Drawn(n),
            Reply::SumRead { operand, min, max } => reply@ matches Answer::SumRead {
                operand: o,
                min: low,
                max: high,
            } && is_read_operand(operand, o) && is_read_limit(min, low) && is_read_limit(max, high),
            Reply::StoredRead(operand) => reply@ matches Answer::StoredRead(o) && is_read_operand(
                operand,
                o,
            ),
            Reply::NumbersAdded(sum) => reply@ == Answer::NumbersAdded(sum),
            Reply::SumWritten(value) => reply@ == Answer::SumWritten(value@),
        },
{
}

/// Whether an operand that was read stands for this.
pub open spec fn is_read_operand(
    read: Result<SumOperand, String>,
    model: Result<Operand, Seq<char>>,
) -> bool {
    match read {
        Ok(operand) => model == Ok::<Operand, Seq<char>>(operand@),
        Err(text) => model == Err::<Operand, Seq<char>>(text@),
    }
}

/// Whether a limit that was read stands for this.
pub open spec fn is_read_limit(
    read: Result<Option<SumOperand>, String>,
    model: Result<Option<Operand>, Seq<char>>,
) -> bool {
    match read {
        Ok(Some(limit)) => model == Ok::<Option<Operand>, Seq<char>>(Some(limit@)),
        Ok(None) => model == Ok::<Option<Operand>, Seq<char>>(None),
        Err(text) => model == Err::<Option<Operand>, Seq<char>>(text@),
    }
}

/// A step stands for what it asks for, or ends in.
pub proof fn a_step_stands_for_what_it_is<T: View>(step: Step<T>)
    ensures
        match step {
            Step::Ask(request) => step@ == Move::<T::V>::Ask(request@),
            Step::Done(Ok(value)) => step@ == Move::Done(Ok::<T::V, Fault>(value@)),
            Step::Done(Err(e)) => step@ == Move::Done(Err::<T::V, Fault>(e@)),
            Step::ClockOverflow => step@ == Move::<T::V>::ClockOverflow,
        },
{
}

} // verus!
