//! What the tasks of the queue and the collection do with times.

use crate::commit_laws::is_message_row;
use crate::encoding_laws::{
    a_later_time_is_a_sum, a_versionstamp_holds_its_version, holds, is_stamp,
};
use crate::error::Fault;
use crate::expiry::EXPIRY_INCREMENT;
use crate::expiry_laws::{
    a_collection_deletes_the_expired, are_expired, collect_end, collected, CollectRun,
};
use crate::key_laws::{
    a_commit_goes_its_course, a_message_is_queued_whole, a_value_keeps_its_expiration, commits,
    leave_alone,
};
use crate::mutation_laws::numbers_fit;
use crate::notify::Update;
use crate::protocol::{
    end_of, is_run, lemma_next_exchange, lemma_start, no_failure, tables_after, Codec, Exchange,
};
use crate::queue::{dequeue_step, due, Delivery, DequeueState, Dequeued};
use crate::queue_laws::{
    a_dequeueing_delivers_the_first_due, a_look_finds_the_earliest_message, delivered,
    is_dequeue_end, is_due, is_first_due, DequeueRun, NextReadyRun,
};
use crate::request::Move;
use crate::store_laws::row_at;
use crate::tables::{is_earliest, is_earliest_expiration, QueueRow, StoredRow, Tables};
use crate::value::Value;
use crate::versionstamp::versionstamp_of;
use crate::write::{KindModel, WriteModel};
use vstd::prelude::*;

verus! {

/// The last millisecond of the clock.
pub open spec fn end_of_time() -> int {
    8210266876799999
}

/// Whether a time is when the earliest of the rows is due, if there are any.
pub open spec fn is_first_time(rows: Set<QueueRow>, time: Option<i64>) -> bool {
    match time {
        Some(t) => {
            &&& exists|row: QueueRow| #[trigger] rows.contains(row) && row.ts == t
            &&& forall|row: QueueRow| #[trigger] rows.contains(row) ==> t <= row.ts
        },
        None => forall|row: QueueRow| !#[trigger] rows.contains(row),
    }
}

/// Whether there are rows, and all of them are due after the end of the clock.
pub open spec fn are_out_of_time(rows: Set<QueueRow>) -> bool {
    &&& exists|row: QueueRow| #[trigger] rows.contains(row)
    &&& forall|row: QueueRow| #[trigger] rows.contains(row) ==> row.ts > end_of_time()
}

proof fn lemma_due(rows: Set<QueueRow>, ms: Option<u64>)
    requires
        is_earliest(rows, ms),
    ensures
        match due(ms) {
            Some(time) => is_first_time(rows, time),
            None => are_out_of_time(rows),
        },
{
    a_later_time_is_a_sum(0, ms->0 as int);
}

/// A look at the queue tells the time at which the earliest message is due, just as
/// its row has it, and none exactly where the queue is empty.
pub proof fn a_look_tells_the_time_of_the_first_message(
    codec: Codec,
    before: Tables,
    trace: Seq<Exchange>,
)
    requires
        is_run(codec, NextReadyRun {}, (NextReadyRun {}).start(), before, trace),
        no_failure(trace),
    ensures
        tables_after(before, trace) == before,
        match end_of(NextReadyRun {}, (NextReadyRun {}).start(), trace) {
            Move::Done(Ok(time)) => is_first_time(before.ready, time),
            Move::Done(Err(_)) => false,
            Move::ClockOverflow => are_out_of_time(before.ready),
            Move::Ask(_) => false,
        },
{
    a_look_finds_the_earliest_message(codec, before, trace);
    let end = end_of(NextReadyRun {}, (NextReadyRun {}).start(), trace);
    let ms = choose|ms: Option<u64>| #[trigger]
        is_earliest(before.ready, ms) && end == match due(ms) {
            Some(next_ready_ms) => Move::Done(Ok::<Option<i64>, Fault>(next_ready_ms)),
            None => Move::ClockOverflow,
        };
    lemma_due(before.ready, ms);
}

/// Whether a dequeueing takes this message. It is due, and none is due earlier. It
/// leaves the queue, and is running until five seconds after it was due.
pub open spec fn takes(now_ms: i64, before: Tables, row: QueueRow, after: Tables) -> bool {
    &&& before.ready.contains(row)
    &&& row.ts <= now_ms
    &&& forall|other: QueueRow| #[trigger] before.ready.contains(other) ==> row.ts <= other.ts
    &&& forall|other: QueueRow| #[trigger]
        after.ready.contains(other) <==> before.ready.contains(other) && other.id != row.id
    &&& row.ts + 5000 <= i64::MAX
    &&& forall|other: QueueRow| #[trigger]
        after.running.contains(other) <==> before.running.contains(other) || {
            &&& other.ts == row.ts + 5000
            &&& other.id == row.id
            &&& other.data == row.data
            &&& other.backoff_schedule == row.backoff_schedule
            &&& other.keys_if_undelivered == row.keys_if_undelivered
        }
    &&& after.kv == before.kv
    &&& after.data_version == before.data_version
    &&& after.schema_version == before.schema_version
    &&& after.migrations == before.migrations
}

/// A dequeueing takes a message that has been due for the longest time, if one is
/// due and it may take one, and else changes nothing. It hands out the name and
/// the payload of that message, and the time at which the earliest of those that
/// are left is due.
pub proof fn a_dequeueing_hands_out_the_first_message(
    codec: Codec,
    task: DequeueRun,
    before: Tables,
    trace: Seq<Exchange>,
) -> (taken: Option<QueueRow>)
    requires
        is_run(codec, task, task.start(), before, trace),
        no_failure(trace),
    ensures
        taken is Some <==> task.can_dispatch && exists|row: QueueRow| #[trigger]
            before.ready.contains(row) && row.ts <= task.now_ms,
        taken matches Some(row) ==> takes(task.now_ms, before, row, tables_after(before, trace)),
        taken is None ==> tables_after(before, trace) == before,
        match end_of(task, task.start(), trace) {
            Move::Done(Ok(dequeued)) => {
                &&& is_first_time(tables_after(before, trace).ready, dequeued.next_ready_ms)
                &&& match taken {
                    Some(row) => dequeued.message matches Some(delivery) && delivery.id == row.id
                        && delivery.payload == row.data,
                    None => dequeued.message is None,
                }
            },
            Move::Done(Err(_)) => false,
            Move::ClockOverflow => are_out_of_time(tables_after(before, trace).ready),
            Move::Ask(_) => false,
        },
{
    a_dequeueing_delivers_the_first_due(codec, task, before, trace);
    let at = task.start();
    let end = end_of(task, at, trace);
    let after = tables_after(before, trace);
    let taken = if task.can_dispatch && exists|row: QueueRow|
        is_due(before.ready, task.now_ms, row) {
        let found = choose|row: QueueRow| is_due(before.ready, task.now_ms, row);
        assert(before.ready.contains(found) && found.ts <= task.now_ms);
        let row = choose|row: QueueRow| #[trigger]
            is_first_due(before.ready, task.now_ms, row) && after == delivered(before, row)
                && is_dequeue_end(
                after.ready,
                Some(Delivery { id: row.id, payload: row.data }),
                end,
            );
        lemma_start(codec, task, at, before, trace);
        lemma_next_exchange(codec, task, at, before, trace, 0, at, before);
        let message = trace[0].answer->Message_0->0;
        let remove = dequeue_step(task.now_ms, true, DequeueState::Choosing, trace[0].answer);
        lemma_next_exchange(codec, task, at, before, trace, 1, remove, before);
        let start = dequeue_step(task.now_ms, true, remove.0, trace[1].answer);
        lemma_next_exchange(codec, task, at, before, trace, 2, start, trace[1].tables);
        assert(message.ts + 5000 <= i64::MAX);
        assert(row.ts == message.ts);
        assert(takes(task.now_ms, before, row, after));
        Some(row)
    } else {
        assert forall|row: QueueRow| #[trigger] before.ready.contains(row) implies !(
        task.can_dispatch && row.ts <= task.now_ms) by {
            assert(!is_due(before.ready, task.now_ms, row) || !task.can_dispatch);
        }
        None
    };
    let message = match taken {
        Some(row) => Some(Delivery { id: row.id, payload: row.data }),
        None => None,
    };
    let ms = choose|ms: Option<u64>| #[trigger]
        is_earliest(after.ready, ms) && end == match due(ms) {
            Some(next_ready_ms) => Move::Done(
                Ok::<Dequeued, Fault>(Dequeued { message, next_ready_ms }),
            ),
            None => Move::ClockOverflow,
        };
    lemma_due(after.ready, ms);
    taken
}

/// Whether the time of a value is over.
pub open spec fn is_over(kv: Map<Seq<u8>, StoredRow>, key: Seq<u8>, now_ms: i64) -> bool {
    kv.contains_key(key) && 0 <= kv[key].expiration_ms && kv[key].expiration_ms <= now_ms
}

/// Whether a time is when the next value expires, if one does.
pub open spec fn is_next_expiration(kv: Map<Seq<u8>, StoredRow>, time: Option<i64>) -> bool {
    match time {
        Some(t) => {
            &&& t >= 0
            &&& exists|key: Seq<u8>| #[trigger] kv.contains_key(key) && kv[key].expiration_ms == t
            &&& forall|key: Seq<u8>| #[trigger]
                kv.contains_key(key) && kv[key].expiration_ms >= 0 ==> t <= kv[key].expiration_ms
        },
        None => forall|key: Seq<u8>| #[trigger]
            kv.contains_key(key) ==> kv[key].expiration_ms < 0,
    }
}

/// Whether a value expires, and all that do expire after the end of the clock.
pub open spec fn expire_out_of_time(kv: Map<Seq<u8>, StoredRow>) -> bool {
    &&& exists|key: Seq<u8>| #[trigger] kv.contains_key(key) && kv[key].expiration_ms >= 0
    &&& forall|key: Seq<u8>| #[trigger]
        kv.contains_key(key) && kv[key].expiration_ms >= 0 ==> kv[key].expiration_ms
            > end_of_time()
}

/// Whether those who watch keys are told of each key whose time is over, once, with
/// the versionstamp of a version, and of no other one.
pub open spec fn are_told(
    updates: Seq<Update>,
    kv: Map<Seq<u8>, StoredRow>,
    now_ms: i64,
    version: i64,
) -> bool {
    &&& forall|i: int|
        0 <= i < updates.len() ==> is_over(kv, (#[trigger] updates[i]).key, now_ms) && is_stamp(
            updates[i].versionstamp,
            version,
        )
    &&& forall|i: int, j: int|
        0 <= i < j < updates.len() ==> (#[trigger] updates[i]).key != (#[trigger] updates[j]).key
    &&& forall|key: Seq<u8>| #[trigger]
        is_over(kv, key, now_ms) ==> exists|i: int|
            0 <= i < updates.len() && (#[trigger] updates[i]).key == key
}

/// A collection deletes the values whose time is over, and keeps the others as
/// they are. Where it deletes one the version grows by one. It tells of each
/// deleted key, and when the next of the values that are left expires, just as its
/// row has it.
pub proof fn a_collection_deletes_what_is_over(
    codec: Codec,
    task: CollectRun,
    before: Tables,
    trace: Seq<Exchange>,
)
    requires
        is_run(codec, task, task.start(), before, trace),
        no_failure(trace),
    ensures
        ({
            let after = tables_after(before, trace);
            &&& forall|key: Seq<u8>| #[trigger]
                row_at(after.kv, key) == if is_over(before.kv, key, task.now_ms) {
                    None
                } else {
                    row_at(before.kv, key)
                }
            &&& after.data_version - before.data_version == if exists|key: Seq<u8>| #[trigger]
                is_over(before.kv, key, task.now_ms) {
                1int
            } else {
                0int
            }
            &&& after.ready == before.ready
            &&& after.running == before.running
            &&& after.schema_version == before.schema_version
            &&& after.migrations == before.migrations
            &&& match end_of(task, task.start(), trace) {
                Move::Done(Ok(collected)) => {
                    &&& is_next_expiration(after.kv, collected.earliest_expiration_ms)
                    &&& are_told(
                        collected.updates,
                        before.kv,
                        task.now_ms,
                        after.data_version,
                    )
                },
                Move::Done(Err(_)) => false,
                Move::ClockOverflow => expire_out_of_time(after.kv),
                Move::Ask(_) => false,
            }
        }),
{
    a_collection_deletes_the_expired(codec, task, before, trace);
    let after = tables_after(before, trace);
    let end = end_of(task, task.start(), trace);
    let (keys, ms) = choose|keys: Seq<Seq<u8>>, ms: Option<u64>|
        {
            &&& #[trigger] are_expired(before.kv, task.now_ms, keys)
            &&& keys.len() > 0 ==> before.data_version + EXPIRY_INCREMENT <= i64::MAX
            &&& after == collected(before, task.now_ms, keys)
            &&& #[trigger] is_earliest_expiration(after.kv, ms)
            &&& end == collect_end(after, keys, ms)
        };
    assert forall|key: Seq<u8>| #[trigger]
        is_over(before.kv, key, task.now_ms) <==> keys.contains(key) by {}
    assert forall|key: Seq<u8>| #[trigger]
        row_at(after.kv, key) == if is_over(before.kv, key, task.now_ms) {
            None
        } else {
            row_at(before.kv, key)
        } by {}
    if keys.len() > 0 {
        assert(keys.contains(keys[0]));
        assert(is_over(before.kv, keys[0], task.now_ms));
    }
    a_later_time_is_a_sum(0, ms->0 as int);
    let stamp = versionstamp_of(after.data_version as int);
    a_versionstamp_holds_its_version(stamp, after.data_version);
    if let Move::Done(Ok(collected)) = end {
        let updates = collected.updates;
        assert forall|i: int| 0 <= i < updates.len() implies is_over(
            before.kv,
            (#[trigger] updates[i]).key,
            task.now_ms,
        ) && is_stamp(updates[i].versionstamp, after.data_version) by {
            assert(updates[i].key == keys[i]);
            assert(keys.contains(keys[i]));
        }
        assert forall|i: int, j: int| 0 <= i < j < updates.len() implies (
        #[trigger] updates[i]).key != (#[trigger] updates[j]).key by {
            assert(keys[i] != keys[j]);
        }
        assert forall|key: Seq<u8>| #[trigger] is_over(before.kv, key, task.now_ms) implies exists|
            i: int,
        | 0 <= i < updates.len() && (#[trigger] updates[i]).key == key by {
            let i = choose|i: int| 0 <= i < keys.len() && keys[i] == key;
            assert(updates[i].key == key);
        }
    }
}

/// A value that a committed write sets with an expiration is deleted by a
/// collection exactly where that time is over by then; one without an expiration
/// is kept by every collection.
pub proof fn a_value_is_collected_once_its_time_is_over(
    codec: Codec,
    write: WriteModel,
    before: Tables,
    trace: Seq<Exchange>,
    after: Tables,
    index: int,
    value: Value,
    task: CollectRun,
    collect_trace: Seq<Exchange>,
)
    requires
        commits(codec, write, before, trace, after),
        numbers_fit(before.kv),
        0 <= index < write.mutations.len(),
        write.mutations[index].kind == KindModel::SetValue(value),
        leave_alone(
            write.mutations,
            index + 1,
            write.mutations.len() as int,
            after.data_version,
            write.mutations[index].key,
        ),
        is_run(codec, task, task.start(), after, collect_trace),
        no_failure(collect_trace),
    ensures
        ({
            let left = row_at(
                tables_after(after, collect_trace).kv,
                write.mutations[index].key,
            );
            match write.mutations[index].expire_at {
                Some(t) => {
                    &&& left is None <==> 0 <= t <= task.now_ms
                    &&& left matches Some(row) ==> holds(row.value, row.encoding, value)
                        && row.expiration_ms == t
                },
                None => left matches Some(row) && holds(row.value, row.encoding, value)
                    && row.expiration_ms == -1,
            }
        }),
{
    a_value_keeps_its_expiration(codec, write, before, trace, after, index, value);
    a_collection_deletes_what_is_over(codec, task, after, collect_trace);
    let key = write.mutations[index].key;
    let left = tables_after(after, collect_trace);
    assert(row_at(left.kv, key) == if is_over(after.kv, key, task.now_ms) {
        None
    } else {
        row_at(after.kv, key)
    });
}

/// A message that a committed write queues, where none is due earlier, is the one
/// that a look at the queue then tells of, at its deadline.
pub proof fn a_queued_message_is_due_at_its_deadline(
    codec: Codec,
    write: WriteModel,
    before: Tables,
    trace: Seq<Exchange>,
    after: Tables,
    index: int,
    look: Seq<Exchange>,
)
    requires
        commits(codec, write, before, trace, after),
        numbers_fit(before.kv),
        0 <= index < write.enqueues.len(),
        forall|row: QueueRow| #[trigger]
            before.ready.contains(row) ==> write.enqueues[index].deadline <= row.ts,
        forall|i: int|
            0 <= i < write.enqueues.len() ==> write.enqueues[index].deadline <= (
            #[trigger] write.enqueues[i]).deadline,
        write.enqueues[index].deadline <= end_of_time(),
        is_run(codec, NextReadyRun {}, (NextReadyRun {}).start(), after, look),
        no_failure(look),
    ensures
        end_of(NextReadyRun {}, (NextReadyRun {}).start(), look) == Move::Done(
            Ok::<Option<i64>, Fault>(Some(write.enqueues[index].deadline)),
        ),
{
    let course = a_commit_goes_its_course(codec, write, before, trace, after);
    let (row, _) = a_message_is_queued_whole(codec, write, before, trace, after, index);
    a_look_tells_the_time_of_the_first_message(codec, after, look);
    assert forall|other: QueueRow| #[trigger] after.ready.contains(other) implies row.ts
        <= other.ts by {
        if !before.ready.contains(other) {
            let i = choose|i: int| 0 <= i < course.rows.len() && course.rows[i] == other;
            assert(is_message_row(write.enqueues[i], course.rows[i]));
        }
    }
}

} // verus!
