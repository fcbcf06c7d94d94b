//! What an atomic write does to the tables, whatever it is told.

use crate::le64::le64_stored;
use crate::protocol::{
    carries_out, end_of, is_run, lemma_no_exchange, tables_after, Codec, Exchange,
};
use crate::read_laws::row_fits;
use crate::request::{Action, Answer, Move, Sql};
use crate::store_laws::{row_at, touched};
use crate::tables::{StoredRow, Tables};
use crate::value::{decoding_undoes_encoding, Value};
use crate::write::{
    begin_mutation, check_from, expiration, mutate_from, mutation_step, phase_fits, set_row,
    write_expects, write_step, KindModel, MutationModel, PhaseModel, StageModel, WriteModel,
    WriteMove, WriteOutcome, INCREMENT_END, INCREMENT_MIN, NEVER_EXPIRES,
};
use crate::write_laws::{passes, row_with, WriteRun};
use vstd::prelude::*;

verus! {

/// Whether a mutation changes the value of a key.
pub open spec fn is_touched(mutations: Seq<MutationModel>, version: i64, key: Seq<u8>) -> bool {
    exists|j: int| 0 <= j < mutations.len() && touched(#[trigger] mutations[j], version) == key
}

/// Whether a key can be left so by a write that makes a version of the data.
pub open spec fn is_new_row(row: Option<StoredRow>, version: i64) -> bool {
    row matches Some(row) ==> row.version == version && row_fits(row)
}

/// Whether a write that has gone on for some time, or has come to its end, can
/// have taken the tables from `before` to `after`: nothing changes but together
/// with the version of the data, of which every new value is; only keys change
/// that a mutation touches; and no message is lost.
pub open spec fn is_partly_written(write: WriteModel, before: Tables, after: Tables) -> bool {
    &&& before.data_version <= after.data_version < before.data_version + INCREMENT_END
    &&& after.data_version == before.data_version ==> after == before
    &&& after.schema_version == before.schema_version
    &&& after.migrations == before.migrations
    &&& after.running == before.running
    &&& before.ready.subset_of(after.ready)
    &&& forall|key: Seq<u8>| #[trigger]
        row_at(after.kv, key) == row_at(before.kv, key) || (is_new_row(
            row_at(after.kv, key),
            after.data_version,
        ) && is_touched(write.mutations, after.data_version, key))
}

/// Whether a mutation can ask for this while it waits for `stage`.
spec fn stage_asks(
    mutation: MutationModel,
    version: i64,
    stage: StageModel,
    action: Action,
) -> bool {
    let key = touched(mutation, version);
    match stage {
        StageModel::Storing => exists|value: Value, expiration_ms: i64|
            action == Action::Sql(#[trigger] set_row(key, value, version, expiration_ms)),
        StageModel::Deleting => action == Action::Sql(Sql::DeleteRow { key }),
        _ => {
            &&& key == mutation.key
            &&& action matches Action::Sql(sql) ==> sql is GetValue
            &&& !(action is DrawNumber)
            &&& !(action is ScheduleDequeue)
        },
    }
}

/// Whether a write can make this move on the tables.
spec fn can_move(write: WriteModel, before: Tables, tables: Tables, at: WriteMove) -> bool {
    at.1 matches Move::Ask(action) ==> phase_fits(write, at.0) && match at.0 {
        PhaseModel::Checking { .. } => tables == before && action is Sql && action->Sql_0
            is GetVersion,
        PhaseModel::Drawing => tables == before && action == (Action::DrawNumber {
            low: INCREMENT_MIN,
            high: INCREMENT_END,
        }),
        PhaseModel::Incrementing => tables == before && (action matches Action::Sql(
            Sql::IncrementDataVersion { increment },
        ) && INCREMENT_MIN <= increment < INCREMENT_END),
        PhaseModel::Mutating { index, version, stage } => before.data_version < version
            && tables.data_version == version && stage_asks(
            write.mutations[index],
            version,
            stage,
            action,
        ),
        PhaseModel::Enqueueing { version, .. } => before.data_version < version
            && tables.data_version == version && action is Sql && action->Sql_0 is AddReady,
        _ => false,
    }
}

/// A mutation that begins.
proof fn lemma_begins(
    write: WriteModel,
    before: Tables,
    tables: Tables,
    version: i64,
    index: int,
    id: Seq<char>,
)
    requires
        0 <= index <= write.mutations.len(),
        before.data_version < version,
        tables.data_version == version,
    ensures
        can_move(write, before, tables, mutate_from(write, version, index, id)),
{
    if index < write.mutations.len() {
        let mutation = write.mutations[index];
        let key = touched(mutation, version);
        match mutation.kind {
            KindModel::SetValue(value) => {
                let sql = set_row(key, value, version, expiration(mutation.expire_at));
                assert(begin_mutation(mutation, version, index).1 == Move::<WriteOutcome>::Ask(
                    Action::Sql(sql),
                ));
            },
            KindModel::SetSuffixVersionstampedKey(value) => {
                let sql = set_row(key, value, version, expiration(mutation.expire_at));
                assert(begin_mutation(mutation, version, index).1 == Move::<WriteOutcome>::Ask(
                    Action::Sql(sql),
                ));
            },
            _ => {},
        }
    }
}

/// The next move of a mutation under way.
proof fn lemma_stage_moves(
    write: WriteModel,
    before: Tables,
    tables: Tables,
    version: i64,
    index: int,
    stage: StageModel,
    action: Action,
    answer: Answer,
)
    requires
        0 <= index < write.mutations.len(),
        before.data_version < version,
        tables.data_version == version,
        stage_asks(write.mutations[index], version, stage, action),
    ensures
        mutation_step(write.mutations[index], version, index, stage, answer) matches Some(next)
            ==> can_move(write, before, tables, next),
{
    let mutation = write.mutations[index];
    match (stage, answer) {
        (StageModel::CombiningNumbers { op, operand }, Answer::RowValue(old)) => {
            if let Ok(n) = le64_stored(op, operand, old) {
                let sql = set_row(mutation.key, Value::U64(n), version, NEVER_EXPIRES);
                assert(stage_asks(mutation, version, StageModel::Storing, Action::Sql(sql)));
            }
        },
        (StageModel::WritingSum, Answer::SumWritten(value)) => {
            let sql = set_row(mutation.key, value, version, NEVER_EXPIRES);
            assert(stage_asks(mutation, version, StageModel::Storing, Action::Sql(sql)));
        },
        _ => {},
    }
}

/// One exchange of a write: what it does to the tables.
proof fn lemma_exchange(
    codec: Codec,
    write: WriteModel,
    before: Tables,
    tables: Tables,
    at: WriteMove,
    e: Exchange,
)
    requires
        is_partly_written(write, before, tables),
        can_move(write, before, tables, at),
        at.1 is Ask,
        carries_out(codec, tables, at.1->Ask_0, e.answer, e.tables),
    ensures
        is_partly_written(write, before, e.tables),
        !(at.0 is Incrementing) ==> e.tables.data_version == tables.data_version,
        at.0 is Checking || at.0 is Drawing ==> e.tables == tables,
        at.0 is Incrementing && !(e.answer is Failed) ==> e.answer == Answer::Version(
            e.tables.data_version,
        ) && e.tables.data_version > before.data_version,
{
    let action = at.1->Ask_0;
    let after = e.tables;
    if let PhaseModel::Mutating { index, version, stage } = at.0 {
        let mutation = write.mutations[index];
        let key = touched(mutation, version);
        if after != tables {
            assert(is_touched(write.mutations, version, key));
            if stage is Storing {
                let (value, expiration_ms) = choose|value: Value, expiration_ms: i64|
                    action == Action::Sql(#[trigger] set_row(key, value, version, expiration_ms));
                decoding_undoes_encoding(value);
                assert(row_at(after.kv, key) == Some(row_with(value, version, expiration_ms)));
            }
            assert forall|other: Seq<u8>| #[trigger]
                row_at(after.kv, other) == row_at(before.kv, other) || (is_new_row(
                    row_at(after.kv, other),
                    after.data_version,
                ) && is_touched(write.mutations, after.data_version, other)) by {
                if other != key {
                    assert(row_at(after.kv, other) == row_at(tables.kv, other));
                }
            }
        }
    } else if at.0 is Enqueueing {
        assert(after.kv == tables.kv);
    }
}

/// One exchange of a write: the move that follows on it.
proof fn lemma_follows(
    codec: Codec,
    write: WriteModel,
    before: Tables,
    tables: Tables,
    at: WriteMove,
    e: Exchange,
)
    requires
        is_partly_written(write, before, tables),
        can_move(write, before, tables, at),
        at.1 is Ask,
        write_expects(at.0, e.answer),
        carries_out(codec, tables, at.1->Ask_0, e.answer, e.tables),
    ensures
        can_move(write, before, e.tables, write_step(write, at.0, e.answer, e.id)),
{
    lemma_exchange(codec, write, before, tables, at, e);
    if !(e.answer is Failed) {
        match at.0 {
            PhaseModel::Incrementing => {
                lemma_begins(write, before, e.tables, e.tables.data_version, 0, e.id);
            },
            PhaseModel::Mutating { index, version, stage } => {
                lemma_stage_moves(
                    write,
                    before,
                    e.tables,
                    version,
                    index,
                    stage,
                    at.1->Ask_0,
                    e.answer,
                );
                lemma_begins(write, before, e.tables, version, index + 1, e.id);
            },
            _ => {},
        }
    }
}

/// The rest of a write.
proof fn lemma_rest(
    codec: Codec,
    write: WriteModel,
    before: Tables,
    tables: Tables,
    at: WriteMove,
    trace: Seq<Exchange>,
)
    requires
        is_run(codec, WriteRun { write }, at, tables, trace),
        is_partly_written(write, before, tables),
        can_move(write, before, tables, at),
    ensures
        is_partly_written(write, before, tables_after(tables, trace)),
    decreases trace.len(),
{
    if at.1 is Ask {
        let e = trace[0];
        lemma_exchange(codec, write, before, tables, at, e);
        lemma_follows(codec, write, before, tables, at, e);
        let next = write_step(write, at.0, e.answer, e.id);
        lemma_rest(codec, write, before, e.tables, next, trace.skip(1));
    }
}

/// Whatever a write is told, failures among it, it changes nothing but together
/// with the version of the data, and only keys that its mutations touch, and it
/// loses no message.
pub proof fn a_write_keeps_to_its_part(
    codec: Codec,
    write: WriteModel,
    before: Tables,
    trace: Seq<Exchange>,
)
    requires
        is_run(codec, WriteRun { write }, check_from(write, 0), before, trace),
    ensures
        is_partly_written(write, before, tables_after(before, trace)),
{
    lemma_rest(codec, write, before, before, check_from(write, 0), trace);
}

/// The checks of a write from `index` on, of which one does not pass.
proof fn lemma_stops_at_check(
    codec: Codec,
    write: WriteModel,
    index: int,
    failing: int,
    tables: Tables,
    trace: Seq<Exchange>,
)
    requires
        0 <= index <= failing < write.checks.len(),
        !passes(tables.kv, write.checks[failing]),
        is_run(codec, WriteRun { write }, check_from(write, index), tables, trace),
    ensures
        tables_after(tables, trace) == tables,
        match end_of(WriteRun { write }, check_from(write, index), trace) {
            Move::Done(Ok(outcome)) => outcome.commit is None && !outcome.has_enqueues,
            Move::Done(Err(fault)) => fault is Sqlite,
            _ => false,
        },
    decreases write.checks.len() - index,
{
    let task = WriteRun { write };
    let at = check_from(write, index);
    let e = trace[0];
    let next = write_step(write, at.0, e.answer, e.id);
    assert(is_run(codec, task, next, e.tables, trace.skip(1)));
    if next.1 is Ask {
        lemma_stops_at_check(codec, write, index + 1, failing, tables, trace.skip(1));
    } else {
        lemma_no_exchange(codec, task, next, e.tables, trace.skip(1));
    }
    assert(end_of(task, at, trace) == end_of(task, next, trace.skip(1)));
}

/// A write of which a check does not pass changes nothing and commits nothing,
/// whatever it is told.
pub proof fn a_failed_check_stops_a_write(
    codec: Codec,
    write: WriteModel,
    before: Tables,
    trace: Seq<Exchange>,
    index: int,
)
    requires
        0 <= index < write.checks.len(),
        !passes(before.kv, write.checks[index]),
        is_run(codec, WriteRun { write }, check_from(write, 0), before, trace),
    ensures
        tables_after(before, trace) == before,
        match end_of(WriteRun { write }, check_from(write, 0), trace) {
            Move::Done(Ok(outcome)) => outcome.commit is None && !outcome.has_enqueues,
            Move::Done(Err(fault)) => fault is Sqlite,
            _ => false,
        },
{
    lemma_stops_at_check(codec, write, 0, index, before, trace);
}

} // verus!
