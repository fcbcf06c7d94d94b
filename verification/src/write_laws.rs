//! What an atomic write does to the tables.

use crate::error::Fault;
use crate::json::{json_keys, json_schedule};
use crate::le64::{le64_operand, le64_stored, Le64Op};
use crate::protocol::{
    end_of, is_run, leads_to, lemma_first_exchange, lemma_leads_on, lemma_next_exchange,
    lemma_no_exchange, lemma_start, no_failure, tables_after, Codec, Exchange, Protocol,
};
use crate::request::{Action, Answer, Move, Sql};
use crate::sum::{checked_parameters, limited_number, sum_step, Operand, SumStepModel};
use crate::tables::{value_at, version_at, QueueRow, StoredRow, Tables};
use crate::value::{decoded, encoded, Value};
use crate::versionstamp::{suffixed_key, versionstamp_of};
use crate::write::{
    backoff_schedule_of, begin_mutation, check_from, combine_numbers, enqueue_from, expiration,
    mutate_from, mutation_at, phase_fits, row_versionstamp, set_row, write_expects, write_fails,
    write_step, CheckModel, EnqueueModel, KindModel, MutationModel, PhaseModel, StageModel,
    WriteModel, WriteMove, WriteOutcome, INCREMENT_END, INCREMENT_MIN, NEVER_EXPIRES,
};
use vstd::prelude::*;

verus! {

/// The moves of an atomic write.
pub struct WriteRun {
    pub write: WriteModel,
}

impl Protocol for WriteRun {
    type State = PhaseModel;

    type Output = WriteOutcome;

    open spec fn next(self, state: PhaseModel, answer: Answer, id: Seq<char>) -> WriteMove {
        write_step(self.write, state, answer, id)
    }

    open spec fn expects(self, state: PhaseModel, answer: Answer) -> bool {
        write_expects(state, answer)
    }
}

/// The row of a value.
pub open spec fn row_with(value: Value, version: i64, expiration_ms: i64) -> StoredRow {
    StoredRow { value: encoded(value).0, encoding: encoded(value).1, version, expiration_ms }
}

/// The value that a mutation of numbers stores.
pub open spec fn combined_value(op: Le64Op, operand: Value, old: Option<(Seq<u8>, i64)>) -> Result<
    Value,
    Fault,
> {
    match le64_operand(op, operand) {
        Ok(n) => match le64_stored(op, n, old) {
            Ok(stored) => Ok(Value::U64(stored)),
            Err(fault) => Err(fault),
        },
        Err(fault) => Err(fault),
    }
}

/// The value that a sum of operands stores.
pub open spec fn summed_value(
    codec: Codec,
    operand: Value,
    min_v8: Seq<u8>,
    max_v8: Seq<u8>,
    clamp: bool,
    old: Option<(Seq<u8>, i64)>,
) -> Result<Value, Fault> {
    match checked_parameters(
        (codec.read)(operand),
        (codec.read_limit)(min_v8),
        (codec.read_limit)(max_v8),
    ) {
        Err(fault) => Err(fault),
        Ok(parameters) => match old {
            None => Ok((codec.write)(parameters.operand)),
            Some((bytes, encoding)) => match decoded(bytes, encoding) {
                None => Err(Fault::TypeMismatch("Invalid sum operand"@)),
                Some(value) => match (codec.read)(value) {
                    Err(text) => Err(Fault::TypeMismatch(text)),
                    Ok(stored) => {
                        let sum = match sum_step(stored, parameters, clamp) {
                            SumStepModel::Done(result) => result,
                            SumStepModel::AddNumbers { current, operand, min, max } => {
                                limited_number(
                                    (codec.add_numbers)(current, operand, min, max),
                                    min,
                                    max,
                                    clamp,
                                )
                            },
                        };
                        match sum {
                            Ok(operand) => Ok((codec.write)(operand)),
                            Err(fault) => Err(fault),
                        }
                    },
                },
            },
        },
    }
}

/// The values with that of a key replaced, unless there is an error.
pub open spec fn kv_with(
    kv: Map<Seq<u8>, StoredRow>,
    key: Seq<u8>,
    value: Result<Value, Fault>,
    version: i64,
) -> Result<Map<Seq<u8>, StoredRow>, Fault> {
    match value {
        Ok(value) => Ok(kv.insert(key, row_with(value, version, NEVER_EXPIRES))),
        Err(fault) => Err(fault),
    }
}

/// The values after a mutation.
pub open spec fn mutated(
    codec: Codec,
    kv: Map<Seq<u8>, StoredRow>,
    mutation: MutationModel,
    version: i64,
) -> Result<Map<Seq<u8>, StoredRow>, Fault> {
    let key = mutation.key;
    let old = value_at(kv, key);
    match mutation.kind {
        KindModel::SetValue(value) => Ok(
            kv.insert(key, row_with(value, version, expiration(mutation.expire_at))),
        ),
        KindModel::Delete => Ok(kv.remove(key)),
        KindModel::Sum { value, min_v8, max_v8, clamp } => kv_with(
            kv,
            key,
            if value is U64 {
                combined_value(Le64Op::Sum, value, old)
            } else {
                summed_value(codec, value, min_v8, max_v8, clamp, old)
            },
            version,
        ),
        KindModel::Min(value) => kv_with(kv, key, combined_value(Le64Op::Min, value, old), version),
        KindModel::Max(value) => kv_with(kv, key, combined_value(Le64Op::Max, value, old), version),
        KindModel::SetSuffixVersionstampedKey(value) => Ok(
            kv.insert(
                suffixed_key(key, version as int),
                row_with(value, version, expiration(mutation.expire_at)),
            ),
        ),
    }
}

/// The values after the mutations from `index` on, and the error that stopped
/// them, if one did.
pub open spec fn mutated_from(
    codec: Codec,
    kv: Map<Seq<u8>, StoredRow>,
    mutations: Seq<MutationModel>,
    version: i64,
    index: int,
) -> (Map<Seq<u8>, StoredRow>, Option<Fault>)
    decreases mutations.len() - index,
{
    if index < mutations.len() {
        match mutated(codec, kv, mutations[index], version) {
            Ok(next) => mutated_from(codec, next, mutations, version, index + 1),
            Err(fault) => (kv, Some(fault)),
        }
    } else {
        (kv, None)
    }
}

/// The row of a queued message.
pub open spec fn enqueued_row(enqueue: EnqueueModel, id: Seq<char>) -> QueueRow {
    QueueRow {
        ts: enqueue.deadline,
        id,
        data: enqueue.payload,
        backoff_schedule: json_schedule(backoff_schedule_of(enqueue)),
        keys_if_undelivered: json_keys(enqueue.keys_if_undelivered),
    }
}

/// The queue with the first messages of a list, under names.
pub open spec fn enqueued(
    ready: Set<QueueRow>,
    enqueues: Seq<EnqueueModel>,
    ids: Seq<Seq<char>>,
) -> Set<QueueRow> {
    Set::new(
        |row: QueueRow|
            ready.contains(row) || exists|i: int|
                0 <= i < ids.len() && row == enqueued_row(#[trigger] enqueues[i], ids[i]),
    )
}

/// Whether a check passes.
pub open spec fn passes(kv: Map<Seq<u8>, StoredRow>, check: CheckModel) -> bool {
    row_versionstamp(version_at(kv, check.key)) == check.versionstamp
}

/// Whether every check passes.
pub open spec fn checks_pass(kv: Map<Seq<u8>, StoredRow>, checks: Seq<CheckModel>) -> bool {
    forall|i: int| 0 <= i < checks.len() ==> passes(kv, #[trigger] checks[i])
}

/// What a write comes to whose checks pass, in which the data version grows by
/// `increment` and messages are queued under `ids`. A mutation that fails keeps
/// the messages from being queued; those before it have been carried out.
pub open spec fn committed(
    codec: Codec,
    write: WriteModel,
    before: Tables,
    increment: i64,
    ids: Seq<Seq<char>>,
) -> (Tables, Move<WriteOutcome>) {
    let version = (before.data_version + increment) as i64;
    let (kv, fault) = mutated_from(codec, before.kv, write.mutations, version, 0);
    match fault {
        Some(fault) => (
            Tables { data_version: version, kv, ..before },
            Move::Done(Err(fault)),
        ),
        None => (
            Tables {
                data_version: version,
                kv,
                ready: enqueued(before.ready, write.enqueues, ids),
                ..before
            },
            Move::Done(
                Ok(
                    WriteOutcome {
                        has_enqueues: write.enqueues.len() > 0,
                        commit: Some(versionstamp_of(version as int)),
                    },
                ),
            ),
        ),
    }
}

/// Whether a write that finds the tables `before` can end so and leave the
/// tables `after`.
pub open spec fn is_written(
    codec: Codec,
    write: WriteModel,
    before: Tables,
    end: Move<WriteOutcome>,
    after: Tables,
) -> bool {
    if checks_pass(before.kv, write.checks) {
        exists|increment: i64, ids: Seq<Seq<char>>|
            INCREMENT_MIN <= increment < INCREMENT_END && before.data_version + increment
                <= i64::MAX && ids.len() == write.enqueues.len() && (after, end)
                == #[trigger] committed(codec, write, before, increment, ids)
    } else {
        after == before && end == Move::Done(
            Ok::<WriteOutcome, Fault>(WriteOutcome { has_enqueues: false, commit: None }),
        )
    }
}

/// The messages from `index` on are queued.
proof fn lemma_enqueues(
    codec: Codec,
    write: WriteModel,
    version: i64,
    index: int,
    id: Seq<char>,
    tables: Tables,
    trace: Seq<Exchange>,
) -> (ids: Seq<Seq<char>>)
    requires
        0 <= index <= write.enqueues.len(),
        is_run(codec, WriteRun { write }, enqueue_from(write, version, index, id), tables, trace),
        no_failure(trace),
    ensures
        ids.len() == write.enqueues.len() - index,
        tables_after(tables, trace) == (Tables {
            ready: enqueued(tables.ready, write.enqueues.skip(index), ids),
            ..tables
        }),
        end_of(WriteRun { write }, enqueue_from(write, version, index, id), trace) == Move::Done(
            Ok::<WriteOutcome, Fault>(
                WriteOutcome {
                    has_enqueues: write.enqueues.len() > 0,
                    commit: Some(versionstamp_of(version as int)),
                },
            ),
        ),
    decreases write.enqueues.len() - index,
{
    let task = WriteRun { write };
    let at = enqueue_from(write, version, index, id);
    if index < write.enqueues.len() {
        lemma_first_exchange(codec, task, at, tables, trace);
        let rest = lemma_enqueues(
            codec,
            write,
            version,
            index + 1,
            trace[0].id,
            trace[0].tables,
            trace.skip(1),
        );
        let ids = seq![id] + rest;
        let enqueues = write.enqueues.skip(index);
        let row = enqueued_row(write.enqueues[index], id);
        assert(trace[0].tables.ready == tables.ready.insert(row));
        assert(enqueued(tables.ready, enqueues, ids) =~= enqueued(
            trace[0].tables.ready,
            write.enqueues.skip(index + 1),
            rest,
        )) by {
            let later = write.enqueues.skip(index + 1);
            assert forall|r: QueueRow|
                enqueued(tables.ready, enqueues, ids).contains(r) <==> #[trigger] enqueued(
                    trace[0].tables.ready,
                    later,
                    rest,
                ).contains(r) by {
                if exists|i: int|
                    0 <= i < ids.len() && r == enqueued_row(#[trigger] enqueues[i], ids[i]) {
                    let i = choose|i: int|
                        0 <= i < ids.len() && r == enqueued_row(#[trigger] enqueues[i], ids[i]);
                    if i > 0 {
                        assert(later[i - 1] == enqueues[i]);
                    }
                }
                if exists|i: int|
                    0 <= i < rest.len() && r == enqueued_row(#[trigger] later[i], rest[i]) {
                    let i = choose|i: int|
                        0 <= i < rest.len() && r == enqueued_row(#[trigger] later[i], rest[i]);
                    assert(enqueues[i + 1] == later[i]);
                }
                if r == row {
                    assert(enqueues[0] == write.enqueues[index]);
                }
            }
        }
        ids
    } else {
        lemma_no_exchange(codec, task, at, tables, trace);
        assert(enqueued(tables.ready, write.enqueues.skip(index), seq![]) =~= tables.ready);
        seq![]
    }
}

/// The move that stores a value.
spec fn storing(
    index: int,
    version: i64,
    key: Seq<u8>,
    value: Value,
    expiration_ms: i64,
) -> WriteMove {
    mutation_at(
        index,
        version,
        StageModel::Storing,
        Action::Sql(set_row(key, value, version, expiration_ms)),
    )
}

/// The move that writes a sum as a value.
spec fn writing(index: int, version: i64, operand: Operand) -> WriteMove {
    mutation_at(index, version, StageModel::WritingSum, Action::WriteSum { operand })
}

/// Whether a mutation that begins with a move ends as its result says: in the
/// next mutation, with the values that it leaves, or in an error.
spec fn after_mutation(
    codec: Codec,
    write: WriteModel,
    version: i64,
    index: int,
    at: WriteMove,
    result: Result<Map<Seq<u8>, StoredRow>, Fault>,
    tables: Tables,
    trace: Seq<Exchange>,
    k: int,
) -> bool {
    match result {
        Ok(kv) => 0 < k <= trace.len() && leads_to(
            codec,
            WriteRun { write },
            at,
            tables,
            trace,
            k,
            mutate_from(write, version, index + 1, trace[k - 1].id),
            Tables { kv, ..tables },
        ),
        Err(fault) => leads_to(
            codec,
            WriteRun { write },
            at,
            tables,
            trace,
            k,
            write_fails(fault),
            tables,
        ),
    }
}

/// A mutation that combines numbers.
proof fn lemma_combining(
    codec: Codec,
    write: WriteModel,
    version: i64,
    index: int,
    op: Le64Op,
    operand: Value,
    tables: Tables,
    trace: Seq<Exchange>,
) -> (k: int)
    requires
        0 <= index < write.mutations.len(),
        is_run(
            codec,
            WriteRun { write },
            combine_numbers(op, write.mutations[index].key, operand, version, index),
            tables,
            trace,
        ),
        no_failure(trace),
    ensures
        after_mutation(
            codec,
            write,
            version,
            index,
            combine_numbers(op, write.mutations[index].key, operand, version, index),
            kv_with(
                tables.kv,
                write.mutations[index].key,
                combined_value(op, operand, value_at(tables.kv, write.mutations[index].key)),
                version,
            ),
            tables,
            trace,
            k,
        ),
{
    let task = WriteRun { write };
    let key = write.mutations[index].key;
    let at = combine_numbers(op, key, operand, version, index);
    lemma_start(codec, task, at, tables, trace);
    match le64_operand(op, operand) {
        Ok(n) => {
            lemma_next_exchange(codec, task, at, tables, trace, 0, at, tables);
            match le64_stored(op, n, value_at(tables.kv, key)) {
                Ok(stored) => {
                    let store = storing(index, version, key, Value::U64(stored), NEVER_EXPIRES);
                    lemma_next_exchange(codec, task, at, tables, trace, 1, store, tables);
                    2
                },
                Err(fault) => 1,
            }
        },
        Err(fault) => 0,
    }
}

/// A sum of operands, once it has come to an operand.
proof fn lemma_writing(
    codec: Codec,
    write: WriteModel,
    version: i64,
    index: int,
    at: WriteMove,
    operand: Operand,
    tables: Tables,
    trace: Seq<Exchange>,
    k: int,
)
    requires
        0 <= index < write.mutations.len(),
        leads_to(
            codec,
            WriteRun { write },
            at,
            tables,
            trace,
            k,
            writing(index, version, operand),
            tables,
        ),
    ensures
        after_mutation(
            codec,
            write,
            version,
            index,
            at,
            kv_with(
                tables.kv,
                write.mutations[index].key,
                Ok((codec.write)(operand)),
                version,
            ),
            tables,
            trace,
            k + 2,
        ),
{
    let task = WriteRun { write };
    let key = write.mutations[index].key;
    let value = (codec.write)(operand);
    let asked = writing(index, version, operand);
    lemma_next_exchange(codec, task, at, tables, trace, k, asked, tables);
    let store = storing(index, version, key, value, NEVER_EXPIRES);
    lemma_next_exchange(codec, task, at, tables, trace, k + 1, store, tables);
}

/// A sum of operands.
proof fn lemma_summing(
    codec: Codec,
    write: WriteModel,
    version: i64,
    index: int,
    tables: Tables,
    trace: Seq<Exchange>,
) -> (k: int)
    requires
        0 <= index < write.mutations.len(),
        write.mutations[index].kind matches KindModel::Sum { value, .. } && !(value is U64),
        is_run(
            codec,
            WriteRun { write },
            begin_mutation(write.mutations[index], version, index),
            tables,
            trace,
        ),
        no_failure(trace),
    ensures
        after_mutation(
            codec,
            write,
            version,
            index,
            begin_mutation(write.mutations[index], version, index),
            mutated(codec, tables.kv, write.mutations[index], version),
            tables,
            trace,
            k,
        ),
{
    let task = WriteRun { write };
    let mutation = write.mutations[index];
    let key = mutation.key;
    let at = begin_mutation(mutation, version, index);
    lemma_start(codec, task, at, tables, trace);
    lemma_next_exchange(codec, task, at, tables, trace, 0, at, tables);
    let operand = (codec.read)(mutation.kind->Sum_value);
    let min = (codec.read_limit)(mutation.kind->Sum_min_v8);
    let max = (codec.read_limit)(mutation.kind->Sum_max_v8);
    let clamp = mutation.kind->Sum_clamp;
    match checked_parameters(operand, min, max) {
        Err(fault) => 1,
        Ok(parameters) => {
            let load = mutation_at(
                index,
                version,
                StageModel::LoadingStored { parameters },
                Action::Sql(Sql::GetValue { key }),
            );
            lemma_next_exchange(codec, task, at, tables, trace, 1, load, tables);
            match value_at(tables.kv, key) {
                None => {
                    lemma_writing(
                        codec,
                        write,
                        version,
                        index,
                        at,
                        parameters.operand,
                        tables,
                        trace,
                        2,
                    );
                    4
                },
                Some((bytes, encoding)) => match decoded(bytes, encoding) {
                    None => 2,
                    Some(value) => {
                        let read = mutation_at(
                            index,
                            version,
                            StageModel::ReadingStored { parameters },
                            Action::ReadStored { value },
                        );
                        lemma_next_exchange(codec, task, at, tables, trace, 2, read, tables);
                        match (codec.read)(value) {
                            Err(text) => 3,
                            Ok(stored) => match sum_step(stored, parameters, clamp) {
                                SumStepModel::Done(Err(fault)) => 3,
                                SumStepModel::Done(Ok(sum)) => {
                                    lemma_writing(
                                        codec,
                                        write,
                                        version,
                                        index,
                                        at,
                                        sum,
                                        tables,
                                        trace,
                                        3,
                                    );
                                    5
                                },
                                SumStepModel::AddNumbers { current, operand, min, max } => {
                                    let addition = mutation_at(
                                        index,
                                        version,
                                        StageModel::AddingNumbers { min, max },
                                        Action::AddNumbers { current, operand, min, max },
                                    );
                                    lemma_next_exchange(
                                        codec,
                                        task,
                                        at,
                                        tables,
                                        trace,
                                        3,
                                        addition,
                                        tables,
                                    );
                                    let numbers = (codec.add_numbers)(current, operand, min, max);
                                    match limited_number(numbers, min, max, clamp) {
                                        Err(fault) => 4,
                                        Ok(sum) => {
                                            lemma_writing(
                                                codec,
                                                write,
                                                version,
                                                index,
                                                at,
                                                sum,
                                                tables,
                                                trace,
                                                4,
                                            );
                                            6
                                        },
                                    }
                                },
                            },
                        }
                    },
                },
            }
        },
    }
}

/// A mutation.
proof fn lemma_mutation(
    codec: Codec,
    write: WriteModel,
    version: i64,
    index: int,
    tables: Tables,
    trace: Seq<Exchange>,
) -> (k: int)
    requires
        0 <= index < write.mutations.len(),
        is_run(
            codec,
            WriteRun { write },
            begin_mutation(write.mutations[index], version, index),
            tables,
            trace,
        ),
        no_failure(trace),
    ensures
        after_mutation(
            codec,
            write,
            version,
            index,
            begin_mutation(write.mutations[index], version, index),
            mutated(codec, tables.kv, write.mutations[index], version),
            tables,
            trace,
            k,
        ),
{
    let task = WriteRun { write };
    let mutation = write.mutations[index];
    let at = begin_mutation(mutation, version, index);
    match mutation.kind {
        KindModel::Sum { value, .. } => if value is U64 {
            lemma_combining(codec, write, version, index, Le64Op::Sum, value, tables, trace)
        } else {
            lemma_summing(codec, write, version, index, tables, trace)
        },
        KindModel::Min(value) => lemma_combining(
            codec,
            write,
            version,
            index,
            Le64Op::Min,
            value,
            tables,
            trace,
        ),
        KindModel::Max(value) => lemma_combining(
            codec,
            write,
            version,
            index,
            Le64Op::Max,
            value,
            tables,
            trace,
        ),
        _ => {
            lemma_first_exchange(codec, task, at, tables, trace);
            1
        },
    }
}

/// The mutations from `index` on, and the messages.
proof fn lemma_mutations(
    codec: Codec,
    write: WriteModel,
    version: i64,
    index: int,
    id: Seq<char>,
    tables: Tables,
    trace: Seq<Exchange>,
) -> (ids: Seq<Seq<char>>)
    requires
        0 <= index <= write.mutations.len(),
        is_run(codec, WriteRun { write }, mutate_from(write, version, index, id), tables, trace),
        no_failure(trace),
    ensures
        ids.len() == write.enqueues.len(),
        ({
            let (kv, fault) = mutated_from(codec, tables.kv, write.mutations, version, index);
            let end = end_of(WriteRun { write }, mutate_from(write, version, index, id), trace);
            let after = tables_after(tables, trace);
            match fault {
                Some(fault) => end == Move::Done(Err::<WriteOutcome, Fault>(fault)) && after
                    == (Tables { kv, ..tables }),
                None => {
                    &&& after == (Tables {
                        kv,
                        ready: enqueued(tables.ready, write.enqueues, ids),
                        ..tables
                    })
                    &&& end == Move::Done(
                        Ok::<WriteOutcome, Fault>(
                            WriteOutcome {
                                has_enqueues: write.enqueues.len() > 0,
                                commit: Some(versionstamp_of(version as int)),
                            },
                        ),
                    )
                },
            }
        }),
    decreases write.mutations.len() - index,
{
    let task = WriteRun { write };
    if index < write.mutations.len() {
        let k = lemma_mutation(codec, write, version, index, tables, trace);
        match mutated(codec, tables.kv, write.mutations[index], version) {
            Ok(kv) => lemma_mutations(
                codec,
                write,
                version,
                index + 1,
                trace[k - 1].id,
                Tables { kv, ..tables },
                trace.skip(k),
            ),
            Err(fault) => {
                lemma_no_exchange(codec, task, write_fails(fault), tables, trace.skip(k));
                Seq::new(write.enqueues.len(), |i: int| id)
            },
        }
    } else {
        assert(write.enqueues.skip(0) =~= write.enqueues);
        lemma_enqueues(codec, write, version, 0, id, tables, trace)
    }
}

/// The checks from `index` on.
proof fn lemma_checks(
    codec: Codec,
    write: WriteModel,
    index: int,
    tables: Tables,
    trace: Seq<Exchange>,
) -> (k: int)
    requires
        0 <= index <= write.checks.len(),
        is_run(codec, WriteRun { write }, check_from(write, index), tables, trace),
        no_failure(trace),
    ensures
        if checks_pass(tables.kv, write.checks.skip(index)) {
            leads_to(
                codec,
                WriteRun { write },
                check_from(write, index),
                tables,
                trace,
                k,
                check_from(write, write.checks.len() as int),
                tables,
            )
        } else {
            &&& tables_after(tables, trace) == tables
            &&& end_of(WriteRun { write }, check_from(write, index), trace) == Move::Done(
                Ok::<WriteOutcome, Fault>(WriteOutcome { has_enqueues: false, commit: None }),
            )
        },
    decreases write.checks.len() - index,
{
    let task = WriteRun { write };
    let at = check_from(write, index);
    if index < write.checks.len() {
        lemma_first_exchange(codec, task, at, tables, trace);
        let checks = write.checks.skip(index);
        let others = write.checks.skip(index + 1);
        assert(checks[0] == write.checks[index]);
        if passes(tables.kv, write.checks[index]) {
            let n = lemma_checks(codec, write, index + 1, tables, trace.skip(1));
            assert(checks_pass(tables.kv, checks) <==> checks_pass(tables.kv, others)) by {
                assert forall|i: int| 0 <= i < others.len() implies #[trigger] others[i]
                    == checks[i + 1] by {}
                assert forall|i: int| 1 <= i < checks.len() implies #[trigger] checks[i]
                    == others[i - 1] by {}
            }
            if checks_pass(tables.kv, checks) {
                lemma_leads_on(
                    codec,
                    task,
                    at,
                    tables,
                    trace,
                    1,
                    check_from(write, index + 1),
                    tables,
                    n,
                    check_from(write, write.checks.len() as int),
                    tables,
                );
            }
            n + 1
        } else {
            0
        }
    } else {
        lemma_start(codec, task, at, tables, trace);
        0
    }
}

/// A write without a failed statement comes to what is written: where a check
/// does not pass, nothing changes and nothing is committed; otherwise the data
/// version grows, the mutations are carried out in their order, the messages are
/// queued, and the new version is the result.
pub proof fn a_write_comes_to_what_is_written(
    codec: Codec,
    write: WriteModel,
    before: Tables,
    trace: Seq<Exchange>,
)
    requires
        is_run(codec, WriteRun { write }, check_from(write, 0), before, trace),
        no_failure(trace),
    ensures
        is_written(
            codec,
            write,
            before,
            end_of(WriteRun { write }, check_from(write, 0), trace),
            tables_after(before, trace),
        ),
{
    let task = WriteRun { write };
    let at = check_from(write, 0);
    let k = lemma_checks(codec, write, 0, before, trace);
    assert(write.checks.skip(0) =~= write.checks);
    if checks_pass(before.kv, write.checks) {
        let draw = check_from(write, write.checks.len() as int);
        lemma_next_exchange(codec, task, at, before, trace, k, draw, before);
        let increment = trace[k].answer->Drawn_0;
        let grow = write_step(write, PhaseModel::Drawing, trace[k].answer, trace[k].id);
        lemma_next_exchange(codec, task, at, before, trace, k + 1, grow, before);
        let version = (before.data_version + increment) as i64;
        let ids = lemma_mutations(
            codec,
            write,
            version,
            0,
            trace[k + 1].id,
            Tables { data_version: version, ..before },
            trace.skip(k + 2),
        );
        assert((
            tables_after(before, trace),
            end_of(task, at, trace),
        ) == committed(codec, write, before, increment, ids));
    }
}

/// How many requests a mutation makes at most after the one that it waits for.
pub open spec fn stage_rest(stage: StageModel) -> int {
    match stage {
        StageModel::ReadingSum => 5,
        StageModel::LoadingStored { .. } => 4,
        StageModel::ReadingStored { .. } => 3,
        StageModel::AddingNumbers { .. } => 2,
        StageModel::WritingSum => 1,
        StageModel::CombiningNumbers { .. } => 1,
        StageModel::Storing => 0,
        StageModel::Deleting => 0,
    }
}

/// How many requests a write makes at most before it ends, the one included that
/// it waits for.
pub open spec fn requests_left(write: WriteModel, phase: PhaseModel) -> int {
    let mutating = 6 * write.mutations.len() as int;
    let enqueueing = write.enqueues.len() as int;
    match phase {
        PhaseModel::Fresh => write.checks.len() + 2 + mutating + enqueueing + 1,
        PhaseModel::Checking { index } => write.checks.len() - index + 2 + mutating + enqueueing,
        PhaseModel::Drawing => 2 + mutating + enqueueing,
        PhaseModel::Incrementing => 1 + mutating + enqueueing,
        PhaseModel::Mutating { index, stage, .. } => 6 * (write.mutations.len() - index - 1)
            + stage_rest(stage) + 1 + enqueueing,
        PhaseModel::Enqueueing { index, .. } => enqueueing - index,
        PhaseModel::Finished => 0,
    }
}

/// With each reply a write comes nearer to its end.
pub proof fn a_write_comes_to_its_end(
    write: WriteModel,
    phase: PhaseModel,
    answer: Answer,
    id: Seq<char>,
)
    requires
        phase_fits(write, phase),
        write_expects(phase, answer),
    ensures
        phase_fits(write, write_step(write, phase, answer, id).0),
        0 <= requests_left(write, write_step(write, phase, answer, id).0) < requests_left(
            write,
            phase,
        ),
        !(write_step(write, phase, answer, id).1 is ClockOverflow),
{
    if let PhaseModel::Mutating { index, version, stage } = phase {
        let next = mutate_from(write, version, index + 1, id);
        assert(phase_fits(write, next.0));
    }
}

} // verus!
