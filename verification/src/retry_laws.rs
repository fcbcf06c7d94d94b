//! What becomes of a message whose delivery fails again and again.

use crate::error::Fault;
use crate::failure_laws::{a_task_that_succeeds_saw_no_failure, the_queue_reports_failures};
use crate::json::{
    json_keys, json_schedule, keys_in, reads_back_keys, reads_back_schedule, schedule_in,
};
use crate::overdue_laws::{a_requeueing_moves_one_message, is_running, retried};
use crate::protocol::{end_of, is_run, tables_after, Codec, Exchange};
use crate::queue::Delivery;
use crate::queue_laws::{
    a_dequeueing_delivers_the_first_due, a_message_that_is_queued_again_is_kept, delivered,
    is_dequeue_end, is_first_due, is_known, queue_fits, started, undelivered_row, DequeueRun,
    FinishRun,
};
use crate::request::Move;
use crate::running_laws::an_undelivered_message_is_requeued;
use crate::store_laws::{a_commit_queues_its_messages, commit_of, row_at, writes};
use crate::tables::{QueueRow, Tables};
use crate::write::{backoff_schedule_of, WriteModel, WriteOutcome};
use crate::write_laws::{enqueued, enqueued_row};
use vstd::prelude::*;

verus! {

/// A message, but for its waiting times.
pub struct Parcel {
    pub id: Seq<char>,
    pub payload: Seq<u8>,
    pub keys: Seq<Seq<u8>>,
}

/// Whether a row is that of a message with these waiting times left.
pub open spec fn is_row_of(parcel: Parcel, schedule: Seq<u64>, row: QueueRow) -> bool {
    &&& row.id == parcel.id
    &&& row.data == parcel.payload
    &&& row.backoff_schedule == json_schedule(schedule)
    &&& row.keys_if_undelivered == json_keys(parcel.keys)
}

/// Whether a message is in the queue with these waiting times left.
pub open spec fn is_waiting(tables: Tables, parcel: Parcel, schedule: Seq<u64>) -> bool {
    exists|row: QueueRow| #[trigger]
        tables.ready.contains(row) && is_row_of(parcel, schedule, row)
}

/// A write that commits leaves each message that it queues waiting, with the
/// waiting times that the message was given.
pub proof fn a_queued_message_waits(
    codec: Codec,
    write: WriteModel,
    before: Tables,
    trace: Seq<Exchange>,
    end: Move<WriteOutcome>,
    after: Tables,
    index: int,
) -> (parcel: Parcel)
    requires
        writes(codec, write, before, trace, end, after),
        commit_of(end) is Some,
        0 <= index < write.enqueues.len(),
    ensures
        parcel.payload == write.enqueues[index].payload,
        parcel.keys == write.enqueues[index].keys_if_undelivered,
        is_waiting(after, parcel, backoff_schedule_of(write.enqueues[index])),
{
    a_commit_queues_its_messages(codec, write, before, trace, end, after);
    let ids = choose|ids: Seq<Seq<char>>|
        ids.len() == write.enqueues.len() && after.ready == #[trigger] enqueued(
            before.ready,
            write.enqueues,
            ids,
        );
    let enqueue = write.enqueues[index];
    let parcel = Parcel {
        id: ids[index],
        payload: enqueue.payload,
        keys: enqueue.keys_if_undelivered,
    };
    let row = enqueued_row(enqueue, ids[index]);
    assert(after.ready.contains(row));
    assert(is_row_of(parcel, backoff_schedule_of(enqueue), row));
    parcel
}

/// A delivery that fails: the dequeueing, and the end of the message, each with
/// the tables that it finds.
pub struct Attempt {
    pub dequeueing: DequeueRun,
    pub found: Tables,
    pub dequeue_trace: Seq<Exchange>,
    pub failed_ms: i64,
    pub held: Tables,
    pub finish_trace: Seq<Exchange>,
}

impl Attempt {
    /// The task that ends the message.
    pub open spec fn finish(self, id: Seq<char>) -> FinishRun {
        FinishRun { id, now_ms: self.failed_ms }
    }

    /// The tables after the dequeueing.
    pub open spec fn taken(self) -> Tables {
        tables_after(self.found, self.dequeue_trace)
    }

    /// What the task that ends the message ends in.
    pub open spec fn end(self, id: Seq<char>) -> Move<bool> {
        end_of(self.finish(id), self.finish(id).start(false), self.finish_trace)
    }

    /// The tables after the attempt.
    pub open spec fn after(self) -> Tables {
        tables_after(self.held, self.finish_trace)
    }
}

/// Whether a message is delivered and its delivery is told to have failed, where
/// between the two nothing but its deadline has changed of it.
pub open spec fn is_failed_attempt(codec: Codec, id: Seq<char>, attempt: Attempt) -> bool {
    let task = attempt.dequeueing;
    let finish = attempt.finish(id);
    &&& queue_fits(attempt.found)
    &&& is_run(codec, task, task.start(), attempt.found, attempt.dequeue_trace)
    &&& end_of(task, task.start(), attempt.dequeue_trace) matches Move::Done(Ok(dequeued))
    &&& dequeued.message matches Some(delivery)
    &&& delivery.id == id
    &&& queue_fits(attempt.held)
    &&& forall|row: QueueRow| #[trigger]
        attempt.taken().running.contains(row) && row.id == id ==> exists|ts: i64| #[trigger]
            attempt.held.running.contains(QueueRow { ts, ..row })
    &&& is_run(codec, finish, finish.start(false), attempt.held, attempt.finish_trace)
    &&& attempt.end(id) matches Move::Done(Ok(_))
}

/// Whether the attempts are made one after another, and nothing else happens to
/// the message between them.
pub open spec fn is_chain(codec: Codec, id: Seq<char>, attempts: Seq<Attempt>) -> bool {
    &&& forall|i: int|
        0 <= i < attempts.len() ==> is_failed_attempt(codec, id, #[trigger] attempts[i])
    &&& forall|i: int, j: int, row: QueueRow|
        0 <= i && j == i + 1 && j < attempts.len() && #[trigger] attempts[i].after().ready.contains(
            row,
        ) && row.id == id ==> (#[trigger] attempts[j]).found.ready.contains(row)
}

/// What a failed attempt comes to where these waiting times are left. The message
/// waits for the first of them, and those who wait for messages are to be told;
/// where none is left, its payload is stored under its keys and it is gone.
pub open spec fn is_outcome(parcel: Parcel, schedule: Seq<u64>, attempt: Attempt) -> bool {
    let after = attempt.after();
    if schedule.len() > 0 {
        &&& attempt.end(parcel.id) == Move::Done(Ok::<bool, Fault>(true))
        &&& after.ready.contains(
            QueueRow {
                ts: (attempt.failed_ms + schedule[0]) as i64,
                id: parcel.id,
                data: parcel.payload,
                backoff_schedule: json_schedule(schedule.skip(1)),
                keys_if_undelivered: json_keys(parcel.keys),
            },
        )
        &&& !is_running(after, parcel.id)
        &&& after.kv == attempt.held.kv
    } else {
        &&& attempt.end(parcel.id) == Move::Done(Ok::<bool, Fault>(false))
        &&& !is_known(after, parcel.id)
        &&& forall|key: Seq<u8>| #[trigger]
            row_at(after.kv, key) == if parcel.keys.contains(key) {
                Some(undelivered_row(parcel.payload, after.data_version))
            } else {
                row_at(attempt.held.kv, key)
            }
    }
}

/// The message that is delivered is the one that was waiting, and it is running
/// when its delivery fails.
proof fn lemma_held(
    codec: Codec,
    parcel: Parcel,
    schedule: Seq<u64>,
    attempt: Attempt,
) -> (row: QueueRow)
    requires
        is_failed_attempt(codec, parcel.id, attempt),
        is_waiting(attempt.found, parcel, schedule),
    ensures
        attempt.held.running.contains(row),
        is_row_of(parcel, schedule, row),
{
    let task = attempt.dequeueing;
    let trace = attempt.dequeue_trace;
    the_queue_reports_failures(task.now_ms, task.can_dispatch, parcel.id, seq![]);
    a_task_that_succeeds_saw_no_failure(codec, task, task.start(), attempt.found, trace);
    a_dequeueing_delivers_the_first_due(codec, task, attempt.found, trace);
    let waiting = choose|row: QueueRow| #[trigger]
        attempt.found.ready.contains(row) && is_row_of(parcel, schedule, row);
    let end = end_of(task, task.start(), trace);
    let row = choose|row: QueueRow| #[trigger]
        is_first_due(attempt.found.ready, task.now_ms, row) && attempt.taken() == delivered(
            attempt.found,
            row,
        ) && is_dequeue_end(
            attempt.taken().ready,
            Some(Delivery { id: row.id, payload: row.data }),
            end,
        );
    assert(row.id == parcel.id);
    assert(row == waiting);
    let new = started(row);
    assert(attempt.taken().running.contains(new) && new.id == parcel.id);
    let ts = choose|ts: i64| #[trigger] attempt.held.running.contains(QueueRow { ts, ..new });
    QueueRow { ts, ..new }
}

/// The texts of the message are read as they were written.
pub open spec fn texts_fit(parcel: Parcel, schedule: Seq<u64>) -> bool {
    &&& reads_back_schedule(json_schedule(schedule), schedule_in(json_schedule(schedule)))
    &&& reads_back_keys(json_keys(parcel.keys), keys_in(json_keys(parcel.keys)))
}

/// A delivery that fails uses up the first of the waiting times that are left to
/// the message, or, where none is left, gives it up.
pub proof fn a_failed_delivery_uses_up_a_waiting_time(
    codec: Codec,
    parcel: Parcel,
    schedule: Seq<u64>,
    attempt: Attempt,
)
    requires
        texts_fit(parcel, schedule),
        is_failed_attempt(codec, parcel.id, attempt),
        is_waiting(attempt.found, parcel, schedule),
    ensures
        is_outcome(parcel, schedule, attempt),
{
    let id = parcel.id;
    let finish = attempt.finish(id);
    let held = attempt.held;
    let after = attempt.after();
    let row = lemma_held(codec, parcel, schedule, attempt);
    the_queue_reports_failures(attempt.failed_ms, false, id, seq![]);
    a_task_that_succeeds_saw_no_failure(
        codec,
        finish,
        finish.start(false),
        held,
        attempt.finish_trace,
    );
    an_undelivered_message_is_requeued(codec, finish, held, attempt.finish_trace);
    let queued = attempt.end(id)->Done_0->Ok_0;
    a_requeueing_moves_one_message(attempt.failed_ms, held, row, queued, after, seq![]);
    assert(schedule_in(row.backoff_schedule) == Ok::<Option<Seq<u64>>, Seq<char>>(Some(schedule)));
    assert(keys_in(row.keys_if_undelivered) == Ok::<Seq<Seq<u8>>, Seq<char>>(parcel.keys));
    assert(row.keys_if_undelivered.len() > 0) by {
        reveal_strlit("[");
    }
    assert forall|other: QueueRow| #[trigger] after.running.contains(other) implies other.id
        != id by {
        assert(held.running.contains(other));
    }
    if schedule.len() > 0 {
        a_message_that_is_queued_again_is_kept(id, attempt.failed_ms, held, after);
        assert(after.ready.contains(retried(attempt.failed_ms, row)));
    } else {
        assert forall|other: QueueRow| #[trigger] after.ready.contains(other) implies other.id
            != id by {
            assert(held.ready.contains(other));
        }
        assert forall|key: Seq<u8>| #[trigger]
            row_at(after.kv, key) == if parcel.keys.contains(key) {
                Some(undelivered_row(parcel.payload, after.data_version))
            } else {
                row_at(held.kv, key)
            } by {
            a_requeueing_moves_one_message(attempt.failed_ms, held, row, queued, after, key);
        }
    }
}

/// A message whose delivery fails again and again is queued after each failure
/// for the next of its waiting times, as the same message. The failure after the
/// last of them gives it up: its payload is stored under each of its keys, and it
/// is neither in the queue nor running.
pub proof fn a_message_is_retried_until_it_is_given_up(
    codec: Codec,
    parcel: Parcel,
    schedule: Seq<u64>,
    attempts: Seq<Attempt>,
    index: int,
)
    requires
        forall|i: int|
            0 <= i <= schedule.len() ==> texts_fit(parcel, #[trigger] schedule.skip(i)),
        is_chain(codec, parcel.id, attempts),
        attempts.len() <= schedule.len() + 1,
        0 <= index < attempts.len(),
        is_waiting(attempts[0].found, parcel, schedule),
    ensures
        is_waiting(attempts[index].found, parcel, schedule.skip(index)),
        is_outcome(parcel, schedule.skip(index), attempts[index]),
    decreases index,
{
    let left = schedule.skip(index);
    if index == 0 {
        assert(left =~= schedule);
    } else {
        a_message_is_retried_until_it_is_given_up(codec, parcel, schedule, attempts, index - 1);
        let earlier = attempts[index - 1];
        let before = schedule.skip(index - 1);
        assert(before.skip(1) =~= left);
        let row = QueueRow {
            ts: (earlier.failed_ms + before[0]) as i64,
            id: parcel.id,
            data: parcel.payload,
            backoff_schedule: json_schedule(left),
            keys_if_undelivered: json_keys(parcel.keys),
        };
        assert(earlier.after().ready.contains(row));
        assert(attempts[index].found.ready.contains(row));
        assert(is_row_of(parcel, left, row));
    }
    assert(is_failed_attempt(codec, parcel.id, attempts[index]));
    a_failed_delivery_uses_up_a_waiting_time(codec, parcel, left, attempts[index]);
}

} // verus!
