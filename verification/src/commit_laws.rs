//! What a write comes to, from its beginning to its end.

use crate::encoding_laws::{a_versionstamp_holds_its_version, is_stamp};
use crate::error::Fault;
use crate::json::{json_keys, json_schedule};
use crate::mutation_laws::{is_effect, is_refusal, lemma_effect, numbers_fit};
use crate::protocol::{end_of, is_run, no_failure, tables_after, Codec, Exchange};
use crate::request::{Answer, Move};
use crate::tables::{QueueRow, StoredRow, Tables};
use crate::versionstamp::versionstamp_of;
use crate::write::{
    backoff_schedule_of, write_step, CheckModel, EnqueueModel, MutationModel, PhaseModel,
    WriteModel, WriteOutcome, INCREMENT_END, INCREMENT_MIN,
};
use crate::write_laws::{
    a_write_comes_to_what_is_written, committed, enqueued_row, mutated, mutated_from, passes,
    WriteRun,
};
use vstd::prelude::*;

verus! {

/// Whether a write, from its beginning and whatever it is told, takes the tables
/// from `before` to `after` and ends in `end`.
pub open spec fn is_write(
    codec: Codec,
    write: WriteModel,
    before: Tables,
    trace: Seq<Exchange>,
    end: Move<WriteOutcome>,
    after: Tables,
) -> bool {
    let task = WriteRun { write };
    let at = write_step(write, PhaseModel::Fresh, Answer::Begin, seq![]);
    &&& is_run(codec, task, at, before, trace)
    &&& end == end_of(task, at, trace)
    &&& after == tables_after(before, trace)
}

/// Whether a check holds: that its key has no value, or one of the version whose
/// versionstamp it names.
pub open spec fn check_holds(kv: Map<Seq<u8>, StoredRow>, check: CheckModel) -> bool {
    match check.versionstamp {
        None => !kv.contains_key(check.key),
        Some(stamp) => kv.contains_key(check.key) && is_stamp(stamp, kv[check.key].version),
    }
}

/// Whether a row of the queue is that of a message: due at its deadline, with its
/// payload, with each of its waiting times, or the usual ones where it has none,
/// and with its keys.
pub open spec fn is_message_row(enqueue: EnqueueModel, row: QueueRow) -> bool {
    &&& row.ts == enqueue.deadline
    &&& row.data == enqueue.payload
    &&& row.keys_if_undelivered == json_keys(enqueue.keys_if_undelivered)
    &&& exists|times: Seq<u64>|
        {
            &&& row.backoff_schedule == #[trigger] json_schedule(times)
            &&& match enqueue.backoff_schedule {
                Some(given) => times.len() == given.len() && forall|i: int|
                    0 <= i < given.len() ==> #[trigger] times[i] == given[i],
                None => times == seq![100u64, 1000, 5000, 30000, 60000],
            }
        }
}

/// Whether the queue `after` is that `before` with a row for each of the messages.
pub open spec fn are_queued(
    before: Set<QueueRow>,
    enqueues: Seq<EnqueueModel>,
    rows: Seq<QueueRow>,
    after: Set<QueueRow>,
) -> bool {
    &&& rows.len() == enqueues.len()
    &&& forall|i: int| 0 <= i < rows.len() ==> is_message_row(enqueues[i], #[trigger] rows[i])
    &&& forall|row: QueueRow| #[trigger]
        after.contains(row) <==> before.contains(row) || rows.contains(row)
}

/// Whether the values go through `states` as the first of the mutations are
/// carried out.
pub open spec fn are_effects(
    codec: Codec,
    mutations: Seq<MutationModel>,
    version: i64,
    states: Seq<Map<Seq<u8>, StoredRow>>,
) -> bool {
    &&& 0 < states.len() <= mutations.len() + 1
    &&& forall|i: int, j: int|
        0 <= i && j == i + 1 && j < states.len() ==> is_effect(
            codec,
            mutations[i],
            #[trigger] states[i],
            #[trigger] states[j],
            version,
        )
}

/// What a write with mutations went through: the values after each of them, and
/// the rows of its messages.
pub struct Course {
    pub states: Seq<Map<Seq<u8>, StoredRow>>,
    pub rows: Seq<QueueRow>,
}

/// Whether a write whose checks hold goes this way. It makes a version that is
/// later by one to nine. It carries out its mutations in their order, up to the
/// first that is refused, and queues its messages where none is.
pub open spec fn is_course(
    codec: Codec,
    write: WriteModel,
    before: Tables,
    end: Move<WriteOutcome>,
    after: Tables,
    course: Course,
) -> bool {
    &&& 1 <= after.data_version - before.data_version <= 9
    &&& after.running == before.running
    &&& after.schema_version == before.schema_version
    &&& after.migrations == before.migrations
    &&& are_effects(codec, write.mutations, after.data_version, course.states)
    &&& course.states[0] == before.kv
    &&& course.states.last() == after.kv
    &&& match end {
        Move::Done(Ok(outcome)) => {
            &&& course.states.len() == write.mutations.len() + 1
            &&& outcome.has_enqueues == (write.enqueues.len() > 0)
            &&& outcome.commit matches Some(stamp)
            &&& is_stamp(stamp, after.data_version)
            &&& are_queued(before.ready, write.enqueues, course.rows, after.ready)
        },
        Move::Done(Err(fault)) => {
            &&& course.states.len() <= write.mutations.len()
            &&& is_refusal(
                codec,
                write.mutations[course.states.len() - 1],
                after.kv,
                fault,
            )
            &&& after.ready == before.ready
        },
        _ => false,
    }
}

/// The mutations from `index` on, after the states that there are.
proof fn lemma_states(
    codec: Codec,
    kv: Map<Seq<u8>, StoredRow>,
    mutations: Seq<MutationModel>,
    version: i64,
    states: Seq<Map<Seq<u8>, StoredRow>>,
) -> (all: Seq<Map<Seq<u8>, StoredRow>>)
    requires
        are_effects(codec, mutations, version, states),
        states.last() == kv,
        numbers_fit(kv),
    ensures
        are_effects(codec, mutations, version, all),
        all[0] == states[0],
        ({
            let (last, fault) = mutated_from(codec, kv, mutations, version, states.len() - 1);
            &&& all.last() == last
            &&& match fault {
                None => all.len() == mutations.len() + 1,
                Some(fault) => all.len() <= mutations.len() && is_refusal(
                    codec,
                    mutations[all.len() - 1],
                    last,
                    fault,
                ),
            }
        }),
    decreases mutations.len() + 1 - states.len(),
{
    let index = states.len() - 1;
    if index < mutations.len() {
        lemma_effect(codec, kv, mutations[index], version);
        match mutated(codec, kv, mutations[index], version) {
            Ok(next) => {
                let longer = states.push(next);
                assert forall|i: int, j: int|
                    0 <= i && j == i + 1 && j < longer.len() implies is_effect(
                    codec,
                    mutations[i],
                    #[trigger] longer[i],
                    #[trigger] longer[j],
                    version,
                ) by {
                    if j < states.len() {
                        assert(longer[i] == states[i] && longer[j] == states[j]);
                    }
                }
                lemma_states(codec, next, mutations, version, longer)
            },
            Err(_) => states,
        }
    } else {
        states
    }
}

/// A message is queued in its row.
proof fn lemma_message_row(enqueue: EnqueueModel, id: Seq<char>)
    ensures
        is_message_row(enqueue, enqueued_row(enqueue, id)),
{
    let times = backoff_schedule_of(enqueue);
    assert(enqueued_row(enqueue, id).backoff_schedule == json_schedule(times));
}

/// A check passes exactly where it holds.
proof fn lemma_check_holds(kv: Map<Seq<u8>, StoredRow>, check: CheckModel)
    ensures
        passes(kv, check) <==> check_holds(kv, check),
{
    if let Some(stamp) = check.versionstamp {
        if kv.contains_key(check.key) {
            a_versionstamp_holds_its_version(stamp, kv[check.key].version);
        }
    }
}

/// A write of which a check does not hold changes nothing, and ends without a
/// versionstamp.
pub proof fn a_write_is_refused_where_a_check_does_not_hold(
    codec: Codec,
    write: WriteModel,
    before: Tables,
    trace: Seq<Exchange>,
    end: Move<WriteOutcome>,
    after: Tables,
    index: int,
)
    requires
        is_write(codec, write, before, trace, end, after),
        no_failure(trace),
        0 <= index < write.checks.len(),
        !check_holds(before.kv, write.checks[index]),
    ensures
        after == before,
        end == Move::Done(
            Ok::<WriteOutcome, Fault>(WriteOutcome { has_enqueues: false, commit: None }),
        ),
{
    a_write_comes_to_what_is_written(codec, write, before, trace);
    lemma_check_holds(before.kv, write.checks[index]);
}

/// A write whose checks hold carries out its mutations and queues its messages.
pub proof fn a_write_goes_its_course(
    codec: Codec,
    write: WriteModel,
    before: Tables,
    trace: Seq<Exchange>,
    end: Move<WriteOutcome>,
    after: Tables,
) -> (course: Course)
    requires
        is_write(codec, write, before, trace, end, after),
        no_failure(trace),
        numbers_fit(before.kv),
        forall|i: int|
            0 <= i < write.checks.len() ==> check_holds(before.kv, #[trigger] write.checks[i]),
    ensures
        is_course(codec, write, before, end, after, course),
{
    a_write_comes_to_what_is_written(codec, write, before, trace);
    assert forall|i: int| 0 <= i < write.checks.len() implies passes(
        before.kv,
        #[trigger] write.checks[i],
    ) by {
        lemma_check_holds(before.kv, write.checks[i]);
    }
    let (increment, ids) = choose|increment: i64, ids: Seq<Seq<char>>|
        INCREMENT_MIN <= increment < INCREMENT_END && before.data_version + increment <= i64::MAX
            && ids.len() == write.enqueues.len() && (after, end) == #[trigger] committed(
            codec,
            write,
            before,
            increment,
            ids,
        );
    let version = (before.data_version + increment) as i64;
    let states = lemma_states(codec, before.kv, write.mutations, version, seq![before.kv]);
    let rows = Seq::new(ids.len(), |i: int| enqueued_row(write.enqueues[i], ids[i]));
    a_versionstamp_holds_its_version(versionstamp_of(version as int), version);
    if let Move::Done(Ok(_)) = end {
        assert(are_queued(before.ready, write.enqueues, rows, after.ready)) by {
            assert forall|i: int| 0 <= i < rows.len() implies is_message_row(
                write.enqueues[i],
                #[trigger] rows[i],
            ) by {
                lemma_message_row(write.enqueues[i], ids[i]);
            }
            assert forall|row: QueueRow| #[trigger]
                after.ready.contains(row) <==> before.ready.contains(row) || rows.contains(row) by {
                if after.ready.contains(row) && !before.ready.contains(row) {
                    let i = choose|i: int|
                        0 <= i < ids.len() && row == enqueued_row(
                            #[trigger] write.enqueues[i],
                            ids[i],
                        );
                    assert(rows[i] == row);
                }
                if rows.contains(row) {
                    let i = choose|i: int| 0 <= i < rows.len() && rows[i] == row;
                    assert(row == enqueued_row(write.enqueues[i], ids[i]));
                }
            }
        }
    }
    Course { states, rows }
}

} // verus!
