//! What becomes of the messages of the queue.

use crate::clock::later;
use crate::error::Fault;
use crate::json::{json_schedule, keys_in, reads_back_schedule, schedule_in};
use crate::protocol::{
    end_of, is_run, lemma_first_exchange, lemma_next_exchange, lemma_start, no_failure,
    tables_after, Codec, Exchange, Protocol,
};
use crate::queue::{
    dequeue_expects, dequeue_step, due, next_ready_expects, next_ready_step, peek, Delivery,
    DequeueState, Dequeued, SingleState, MESSAGE_DEADLINE_TIMEOUT_MS,
};
use crate::read_laws::{row_fits, values_fit};
use crate::request::{Answer, Move};
use crate::requeue::{
    remove_running, requeue_expects, requeue_step, reschedule, store_from, waiting_times,
    RequeueState, UndeliveredModel,
};
use crate::running::{finish_expects, finish_start, finish_step, FinishState};
use crate::store_laws::versions_fit;
use crate::tables::{is_earliest, of_message, of_others, queue_row, QueueRow, StoredRow, Tables};
use crate::value::VALUE_ENCODING_V8;
use crate::write::{INCREMENT_END, INCREMENT_MIN, NEVER_EXPIRES};
use vstd::prelude::*;

verus! {

/// The moves of a dequeueing.
pub struct DequeueRun {
    pub now_ms: i64,
    pub can_dispatch: bool,
}

impl Protocol for DequeueRun {
    type State = DequeueState;

    type Output = Dequeued;

    open spec fn next(self, state: DequeueState, answer: Answer, id: Seq<char>) -> (
        DequeueState,
        Move<Dequeued>,
    ) {
        dequeue_step(self.now_ms, self.can_dispatch, state, answer)
    }

    open spec fn expects(self, state: DequeueState, answer: Answer) -> bool {
        dequeue_expects(state, answer)
    }
}

impl DequeueRun {
    /// The first move.
    pub open spec fn start(self) -> (DequeueState, Move<Dequeued>) {
        dequeue_step(self.now_ms, self.can_dispatch, DequeueState::Fresh, Answer::Begin)
    }
}

/// Whether every message is in the queue once, or is running once.
pub open spec fn queue_fits(tables: Tables) -> bool {
    &&& tables.ready.finite()
    &&& tables.running.finite()
    &&& forall|a: QueueRow, b: QueueRow| #[trigger]
        tables.ready.contains(a) && #[trigger] tables.ready.contains(b) && a.id == b.id ==> a == b
    &&& forall|a: QueueRow, b: QueueRow| #[trigger]
        tables.running.contains(a) && #[trigger] tables.running.contains(b) && a.id == b.id ==> a
            == b
    &&& forall|a: QueueRow, b: QueueRow| #[trigger]
        tables.ready.contains(a) && #[trigger] tables.running.contains(b) ==> a.id != b.id
}

/// Whether a message is due.
pub open spec fn is_due(ready: Set<QueueRow>, now_ms: i64, row: QueueRow) -> bool {
    ready.contains(row) && row.ts <= now_ms
}

/// Whether a message is one that has been due for the longest time.
pub open spec fn is_first_due(ready: Set<QueueRow>, now_ms: i64, row: QueueRow) -> bool {
    is_due(ready, now_ms, row) && forall|other: QueueRow| #[trigger]
        ready.contains(other) ==> row.ts <= other.ts
}

/// The row of a message that is delivered: it is running until its deadline.
pub open spec fn started(row: QueueRow) -> QueueRow {
    QueueRow { ts: (row.ts + MESSAGE_DEADLINE_TIMEOUT_MS) as i64, ..row }
}

/// The tables after a message is delivered.
pub open spec fn delivered(before: Tables, row: QueueRow) -> Tables {
    Tables {
        ready: of_others(before.ready, row.id),
        running: before.running.insert(started(row)),
        ..before
    }
}

/// The last move of a dequeueing that takes a message, or none, and leaves these
/// messages in the queue.
pub open spec fn is_dequeue_end(
    ready: Set<QueueRow>,
    message: Option<Delivery>,
    end: Move<Dequeued>,
) -> bool {
    exists|ms: Option<u64>| #[trigger]
        is_earliest(ready, ms) && end == match due(ms) {
            Some(next_ready_ms) => Move::Done(
                Ok::<Dequeued, Fault>(Dequeued { message, next_ready_ms }),
            ),
            None => Move::ClockOverflow,
        }
}

/// A dequeueing without a failed statement delivers a message that has been due
/// for the longest time: it leaves the queue and is running from then on.
/// Nothing changes where no message is due or too many are running. It also
/// tells when the earliest of the messages that are left is due.
pub proof fn a_dequeueing_delivers_the_first_due(
    codec: Codec,
    task: DequeueRun,
    before: Tables,
    trace: Seq<Exchange>,
)
    requires
        is_run(codec, task, task.start(), before, trace),
        no_failure(trace),
    ensures
        ({
            let end = end_of(task, task.start(), trace);
            let after = tables_after(before, trace);
            if task.can_dispatch && exists|row: QueueRow| is_due(before.ready, task.now_ms, row) {
                exists|row: QueueRow| #[trigger]
                    is_first_due(before.ready, task.now_ms, row) && after == delivered(before, row)
                        && is_dequeue_end(
                        after.ready,
                        Some(Delivery { id: row.id, payload: row.data }),
                        end,
                    )
            } else {
                after == before && is_dequeue_end(before.ready, None, end)
            }
        }),
{
    let at = task.start();
    lemma_start(codec, task, at, before, trace);
    lemma_next_exchange(codec, task, at, before, trace, 0, at, before);
    if task.can_dispatch {
        let message = trace[0].answer->Message_0;
        if let Some(message) = message {
            let row = queue_row(message);
            assert(is_due(before.ready, task.now_ms, row));
            let remove = dequeue_step(
                task.now_ms,
                true,
                DequeueState::Choosing,
                trace[0].answer,
            );
            lemma_next_exchange(codec, task, at, before, trace, 1, remove, before);
            let start = dequeue_step(task.now_ms, true, remove.0, trace[1].answer);
            lemma_next_exchange(codec, task, at, before, trace, 2, start, trace[1].tables);
            let delivery = Delivery { id: row.id, payload: row.data };
            lemma_next_exchange(
                codec,
                task,
                at,
                before,
                trace,
                3,
                peek(Some(delivery)),
                trace[2].tables,
            );
            assert(trace[2].tables == delivered(before, row));
            assert(is_first_due(before.ready, task.now_ms, row));
        } else {
            lemma_next_exchange(codec, task, at, before, trace, 1, peek(None), before);
            assert forall|row: QueueRow| !is_due(before.ready, task.now_ms, row) by {}
        }
    }
}

/// Whether there is a message of that name.
pub open spec fn is_known(tables: Tables, id: Seq<char>) -> bool {
    (exists|row: QueueRow| #[trigger] tables.ready.contains(row) && row.id == id) || (exists|
        row: QueueRow,
    | #[trigger]
        tables.running.contains(row) && row.id == id)
}

/// A dequeueing loses no message and makes none, and keeps each in one place.
pub proof fn a_dequeueing_keeps_every_message(
    codec: Codec,
    task: DequeueRun,
    before: Tables,
    trace: Seq<Exchange>,
    id: Seq<char>,
)
    requires
        is_run(codec, task, task.start(), before, trace),
        no_failure(trace),
        queue_fits(before),
    ensures
        queue_fits(tables_after(before, trace)),
        is_known(tables_after(before, trace), id) <==> is_known(before, id),
        tables_after(before, trace).kv == before.kv,
        tables_after(before, trace).data_version == before.data_version,
{
    a_dequeueing_delivers_the_first_due(codec, task, before, trace);
    let after = tables_after(before, trace);
    if after != before {
        let row = choose|row: QueueRow| #[trigger]
            is_first_due(before.ready, task.now_ms, row) && after == delivered(before, row);
        let new = started(row);
        assert(after.running.contains(new) && new.id == row.id);
        lemma_others_finite(before.ready, row.id);
        if exists|r: QueueRow| #[trigger] before.ready.contains(r) && r.id == id {
            let r = choose|r: QueueRow| #[trigger] before.ready.contains(r) && r.id == id;
            if r.id != row.id {
                assert(after.ready.contains(r));
            }
        }
        if exists|r: QueueRow| #[trigger] before.running.contains(r) && r.id == id {
            let r = choose|r: QueueRow| #[trigger] before.running.contains(r) && r.id == id;
            assert(after.running.contains(r));
        }
        if exists|r: QueueRow| #[trigger] after.ready.contains(r) && r.id == id {
            let r = choose|r: QueueRow| #[trigger] after.ready.contains(r) && r.id == id;
            assert(before.ready.contains(r));
        }
        if exists|r: QueueRow| #[trigger] after.running.contains(r) && r.id == id {
            let r = choose|r: QueueRow| #[trigger] after.running.contains(r) && r.id == id;
            if r == new {
                assert(before.ready.contains(row) && row.id == id);
            } else {
                assert(before.running.contains(r));
            }
        }
    }
}

proof fn lemma_others_finite(rows: Set<QueueRow>, id: Seq<char>)
    requires
        rows.finite(),
    ensures
        of_others(rows, id).finite(),
        of_message(rows, id).finite(),
{
    rows.lemma_len_filter(|row: QueueRow| row.id != id);
    rows.lemma_len_filter(|row: QueueRow| row.id == id);
}

/// The moves of a look at the earliest message.
pub struct NextReadyRun {}

impl Protocol for NextReadyRun {
    type State = SingleState;

    type Output = Option<i64>;

    open spec fn next(self, state: SingleState, answer: Answer, id: Seq<char>) -> (
        SingleState,
        Move<Option<i64>>,
    ) {
        next_ready_step(state, answer)
    }

    open spec fn expects(self, state: SingleState, answer: Answer) -> bool {
        next_ready_expects(state, answer)
    }
}

impl NextReadyRun {
    /// The first move.
    pub open spec fn start(self) -> (SingleState, Move<Option<i64>>) {
        next_ready_step(SingleState::Fresh, Answer::Begin)
    }
}

/// A look at the queue tells when its earliest message is due, and changes
/// nothing.
pub proof fn a_look_finds_the_earliest_message(codec: Codec, before: Tables, trace: Seq<Exchange>)
    requires
        is_run(codec, NextReadyRun {}, (NextReadyRun {}).start(), before, trace),
        no_failure(trace),
    ensures
        tables_after(before, trace) == before,
        exists|ms: Option<u64>| #[trigger]
            is_earliest(before.ready, ms) && end_of(
                NextReadyRun {},
                (NextReadyRun {}).start(),
                trace,
            ) == match due(ms) {
                Some(next_ready_ms) => Move::Done(Ok::<Option<i64>, Fault>(next_ready_ms)),
                None => Move::ClockOverflow,
            },
{
    lemma_first_exchange(codec, NextReadyRun {}, (NextReadyRun {}).start(), before, trace);
    assert(is_earliest(before.ready, trace[0].answer->Time_0));
}

/// The moves of the task that finishes a message.
pub struct FinishRun {
    pub id: Seq<char>,
    pub now_ms: i64,
}

impl Protocol for FinishRun {
    type State = FinishState;

    type Output = bool;

    open spec fn next(self, state: FinishState, answer: Answer, id: Seq<char>) -> (
        FinishState,
        Move<bool>,
    ) {
        finish_step(self.id, self.now_ms, state, answer)
    }

    open spec fn expects(self, state: FinishState, answer: Answer) -> bool {
        finish_expects(state, answer)
    }
}

impl FinishRun {
    /// The first move, after a delivery that succeeded or did not.
    pub open spec fn start(self, success: bool) -> (FinishState, Move<bool>) {
        finish_step(self.id, self.now_ms, finish_start(success), Answer::Begin)
    }
}

/// A message whose delivery succeeded is not running any more, and nothing else
/// changes.
pub proof fn a_delivered_message_is_gone(
    codec: Codec,
    task: FinishRun,
    before: Tables,
    trace: Seq<Exchange>,
)
    requires
        is_run(codec, task, task.start(true), before, trace),
        no_failure(trace),
    ensures
        end_of(task, task.start(true), trace) == Move::Done(Ok::<bool, Fault>(false)),
        tables_after(before, trace) == (Tables {
            running: of_others(before.running, task.id),
            ..before
        }),
{
    lemma_first_exchange(codec, task, task.start(true), before, trace);
}

/// The end of a message whose delivery succeeded keeps each of the others in its
/// place.
pub proof fn a_delivered_message_leaves_the_others(
    codec: Codec,
    task: FinishRun,
    before: Tables,
    trace: Seq<Exchange>,
    other: QueueRow,
)
    requires
        is_run(codec, task, task.start(true), before, trace),
        no_failure(trace),
        queue_fits(before),
    ensures
        queue_fits(tables_after(before, trace)),
        tables_after(before, trace).ready == before.ready,
        other.id != task.id ==> (tables_after(before, trace).running.contains(other)
            <==> before.running.contains(other)),
{
    a_delivered_message_is_gone(codec, task, before, trace);
    lemma_others_finite(before.running, task.id);
}

/// The moves of a requeueing.
pub struct RequeueRun {
    pub id: Seq<char>,
    pub now_ms: i64,
}

impl Protocol for RequeueRun {
    type State = RequeueState;

    type Output = bool;

    open spec fn next(self, state: RequeueState, answer: Answer, id: Seq<char>) -> (
        RequeueState,
        Move<bool>,
    ) {
        requeue_step(self.id, self.now_ms, state, answer)
    }

    open spec fn expects(self, state: RequeueState, answer: Answer) -> bool {
        requeue_expects(state, answer)
    }
}

impl RequeueRun {
    /// The first move.
    pub open spec fn start(self) -> (RequeueState, Move<bool>) {
        requeue_step(self.id, self.now_ms, RequeueState::Fresh, Answer::Begin)
    }
}

/// The row of a payload that could not be delivered.
pub open spec fn undelivered_row(data: Seq<u8>, version: i64) -> StoredRow {
    StoredRow { value: data, encoding: VALUE_ENCODING_V8, version, expiration_ms: NEVER_EXPIRES }
}

/// The values with a payload under each of the keys from `index` on.
pub open spec fn undelivered_from(
    kv: Map<Seq<u8>, StoredRow>,
    keys: Seq<Seq<u8>>,
    data: Seq<u8>,
    version: i64,
    index: int,
) -> Map<Seq<u8>, StoredRow>
    decreases keys.len() - index,
{
    if index < keys.len() {
        undelivered_from(
            kv.insert(keys[index], undelivered_row(data, version)),
            keys,
            data,
            version,
            index + 1,
        )
    } else {
        kv
    }
}

/// The tables without a running message.
pub open spec fn without_running(tables: Tables, id: Seq<char>) -> Tables {
    Tables { running: of_others(tables.running, id), ..tables }
}

/// What the requeueing of a running message comes to, in which the data version
/// grows by `increment` if it does.
pub open spec fn requeued(now_ms: i64, before: Tables, row: QueueRow, increment: i64) -> (
    Tables,
    Move<bool>,
) {
    match schedule_in(row.backoff_schedule) {
        Err(text) => (before, Move::Done(Err(Fault::Generic(text)))),
        Ok(schedule) => {
            let times = waiting_times(schedule);
            if times.len() > 0 {
                match later(now_ms as int, times[0] as int) {
                    Some(ts) => (
                        Tables {
                            ready: before.ready.insert(
                                QueueRow {
                                    ts: ts as i64,
                                    backoff_schedule: json_schedule(times.skip(1)),
                                    ..row
                                },
                            ),
                            ..without_running(before, row.id)
                        },
                        Move::Done(Ok(true)),
                    ),
                    None => (before, Move::ClockOverflow),
                }
            } else if row.keys_if_undelivered.len() > 0 {
                match keys_in(row.keys_if_undelivered) {
                    Err(text) => (before, Move::Done(Err(Fault::Generic(text)))),
                    Ok(keys) => {
                        let version = (before.data_version + increment) as i64;
                        (
                            Tables {
                                data_version: version,
                                kv: undelivered_from(before.kv, keys, row.data, version, 0),
                                ..without_running(before, row.id)
                            },
                            Move::Done(Ok(false)),
                        )
                    },
                }
            } else {
                (without_running(before, row.id), Move::Done(Ok(false)))
            }
        },
    }
}

/// Whether the requeueing of a message can end so and leave the tables `after`.
pub open spec fn is_requeued(
    id: Seq<char>,
    now_ms: i64,
    before: Tables,
    end: Move<bool>,
    after: Tables,
) -> bool {
    if exists|row: QueueRow| #[trigger] before.running.contains(row) && row.id == id {
        exists|row: QueueRow, increment: i64|
            before.running.contains(row) && row.id == id && INCREMENT_MIN <= increment
                < INCREMENT_END && (after.data_version != before.data_version
                ==> before.data_version + increment <= i64::MAX) && (
            after,
            end,
        ) == #[trigger] requeued(now_ms, before, row, increment)
    } else {
        after == before && end == Move::Done(Ok::<bool, Fault>(false))
    }
}

/// The payload is stored under the keys from `index` on, and the message leaves
/// the running ones.
proof fn lemma_undelivered(
    codec: Codec,
    task: RequeueRun,
    message: UndeliveredModel,
    version: i64,
    index: int,
    tables: Tables,
    trace: Seq<Exchange>,
)
    requires
        0 <= index <= message.keys.len(),
        is_run(codec, task, store_from(message, version, index), tables, trace),
        no_failure(trace),
    ensures
        end_of(task, store_from(message, version, index), trace) == Move::Done(
            Ok::<bool, Fault>(false),
        ),
        tables_after(tables, trace) == (Tables {
            kv: undelivered_from(tables.kv, message.keys, message.data, version, index),
            ..without_running(tables, message.id)
        }),
    decreases message.keys.len() - index,
{
    let at = store_from(message, version, index);
    lemma_first_exchange(codec, task, at, tables, trace);
    if index < message.keys.len() {
        lemma_undelivered(
            codec,
            task,
            message,
            version,
            index + 1,
            trace[0].tables,
            trace.skip(1),
        );
    }
}

/// A requeueing without a failed statement queues the message again after the
/// first of its waiting times; where none is left, its payload goes to the keys
/// that it names. Either way the message is not running any more.
pub proof fn a_requeueing_comes_to_what_is_requeued(
    codec: Codec,
    task: RequeueRun,
    before: Tables,
    trace: Seq<Exchange>,
)
    requires
        is_run(codec, task, task.start(), before, trace),
        no_failure(trace),
    ensures
        is_requeued(
            task.id,
            task.now_ms,
            before,
            end_of(task, task.start(), trace),
            tables_after(before, trace),
        ),
{
    let at = task.start();
    lemma_start(codec, task, at, before, trace);
    lemma_next_exchange(codec, task, at, before, trace, 0, at, before);
    let end = end_of(task, at, trace);
    let after = tables_after(before, trace);
    if let Some(message) = trace[0].answer->Message_0 {
        let row = queue_row(message);
        assert(before.running.contains(row) && row.id == task.id);
        let next = reschedule(message, task.now_ms);
        if let RequeueState::Drawing { message: left } = next.0 {
            lemma_next_exchange(codec, task, at, before, trace, 1, next, before);
            let increment = trace[1].answer->Drawn_0;
            let grow = requeue_step(task.id, task.now_ms, next.0, trace[1].answer);
            lemma_next_exchange(codec, task, at, before, trace, 2, grow, before);
            let version = (before.data_version + increment) as i64;
            lemma_undelivered(codec, task, left, version, 0, trace[2].tables, trace.skip(3));
            assert((after, end) == requeued(task.now_ms, before, row, increment));
        } else {
            if let RequeueState::AddingReady { id } = next.0 {
                lemma_next_exchange(codec, task, at, before, trace, 1, next, before);
                lemma_next_exchange(
                    codec,
                    task,
                    at,
                    before,
                    trace,
                    2,
                    remove_running(id, true),
                    trace[1].tables,
                );
            } else if next.0 is Removing {
                lemma_next_exchange(codec, task, at, before, trace, 1, next, before);
            }
            assert((after, end) == requeued(task.now_ms, before, row, INCREMENT_MIN));
        }
    }
}

/// A requeueing keeps each message in one place, and touches no other message.
pub proof fn a_requeueing_keeps_the_other_messages(
    id: Seq<char>,
    now_ms: i64,
    before: Tables,
    end: Move<bool>,
    after: Tables,
    other: QueueRow,
)
    requires
        is_requeued(id, now_ms, before, end, after),
        queue_fits(before),
    ensures
        queue_fits(after),
        other.id != id ==> (after.ready.contains(other) <==> before.ready.contains(other)),
        other.id != id ==> (after.running.contains(other) <==> before.running.contains(other)),
{
    lemma_others_finite(before.running, id);
}

proof fn lemma_undelivered_rows(
    kv: Map<Seq<u8>, StoredRow>,
    keys: Seq<Seq<u8>>,
    data: Seq<u8>,
    version: i64,
    index: int,
    key: Seq<u8>,
)
    requires
        0 <= index <= keys.len(),
    ensures
        ({
            let after = undelivered_from(kv, keys, data, version, index);
            after.contains_key(key) ==> after[key] == undelivered_row(data, version) || (
            kv.contains_key(key) && after[key] == kv[key])
        }),
    decreases keys.len() - index,
{
    if index < keys.len() {
        lemma_undelivered_rows(
            kv.insert(keys[index], undelivered_row(data, version)),
            keys,
            data,
            version,
            index + 1,
            key,
        );
    }
}

/// A requeueing keeps every value readable and of no later version than the data.
pub proof fn a_requeueing_keeps_values_in_order(
    id: Seq<char>,
    now_ms: i64,
    before: Tables,
    end: Move<bool>,
    after: Tables,
)
    requires
        is_requeued(id, now_ms, before, end, after),
        versions_fit(before),
        values_fit(before.kv),
    ensures
        versions_fit(after),
        values_fit(after.kv),
{
    if after != before {
        let (row, increment) = choose|row: QueueRow, increment: i64|
            INCREMENT_MIN <= increment < INCREMENT_END && (after.data_version
                != before.data_version ==> before.data_version + increment <= i64::MAX) && (
            after,
            end,
        ) == #[trigger] requeued(now_ms, before, row, increment);
        if let Ok(keys) = keys_in(row.keys_if_undelivered) {
            let version = (before.data_version + increment) as i64;
            assert forall|key: Seq<u8>| #[trigger] after.kv.contains_key(key) implies row_fits(
                after.kv[key],
            ) && 0 <= after.kv[key].version <= after.data_version by {
                lemma_undelivered_rows(before.kv, keys, row.data, version, 0, key);
                assert(before.kv.contains_key(key) ==> row_fits(before.kv[key]));
            }
        }
    }
}

/// Whether a row is that of a message queued again: one of its waiting times is
/// used up.
pub open spec fn is_retry(old: QueueRow, new: QueueRow) -> bool {
    &&& new.id == old.id
    &&& new.data == old.data
    &&& new.keys_if_undelivered == old.keys_if_undelivered
    &&& schedule_in(old.backoff_schedule) matches Ok(schedule)
    &&& waiting_times(schedule).len() > 0
    &&& new.backoff_schedule == json_schedule(waiting_times(schedule).skip(1))
}

/// A message that is queued again is in the queue, with a waiting time used up,
/// and is not running.
pub proof fn a_message_that_is_queued_again_is_kept(
    id: Seq<char>,
    now_ms: i64,
    before: Tables,
    after: Tables,
)
    requires
        is_requeued(id, now_ms, before, Move::Done(Ok::<bool, Fault>(true)), after),
    ensures
        exists|old: QueueRow, new: QueueRow|
            before.running.contains(old) && after.ready.contains(new) && old.id == id
                && #[trigger] is_retry(old, new),
        forall|row: QueueRow| #[trigger] after.running.contains(row) ==> row.id != id,
        after.kv == before.kv,
        after.data_version == before.data_version,
{
    let (row, increment) = choose|row: QueueRow, increment: i64|
        before.running.contains(row) && row.id == id && (
            after,
            Move::Done(Ok::<bool, Fault>(true)),
        ) == #[trigger] requeued(now_ms, before, row, increment);
    let times = waiting_times(schedule_in(row.backoff_schedule)->Ok_0);
    let new = QueueRow {
        ts: later(now_ms as int, times[0] as int)->0 as i64,
        backoff_schedule: json_schedule(times.skip(1)),
        ..row
    };
    assert(is_retry(row, new));
}

/// A message is queued again at most as often as it has waiting times.
pub proof fn a_message_is_retried_finitely_often(rows: Seq<QueueRow>, schedule: Seq<u64>)
    requires
        rows.len() > 0,
        rows[0].backoff_schedule == json_schedule(schedule),
        forall|i: int|
            0 <= i < rows.len() ==> reads_back_schedule(
                (#[trigger] rows[i]).backoff_schedule,
                schedule_in(rows[i].backoff_schedule),
            ),
        forall|i: int, j: int|
            0 <= i && j == i + 1 && j < rows.len() ==> is_retry(
                #[trigger] rows[i],
                #[trigger] rows[j],
            ),
    ensures
        rows.len() - 1 <= schedule.len(),
        rows.last().backoff_schedule == json_schedule(schedule.skip(rows.len() - 1)),
    decreases rows.len(),
{
    if rows.len() == 1 {
        assert(schedule.skip(0) =~= schedule);
    } else {
        let fewer = rows.drop_last();
        let n = fewer.len() - 1;
        assert forall|i: int| 0 <= i < fewer.len() implies reads_back_schedule(
            (#[trigger] fewer[i]).backoff_schedule,
            schedule_in(fewer[i].backoff_schedule),
        ) by {
            assert(fewer[i] == rows[i]);
        }
        a_message_is_retried_finitely_often(fewer, schedule);
        assert(is_retry(rows[n], rows[n + 1]));
        assert(reads_back_schedule(
            rows[n].backoff_schedule,
            schedule_in(rows[n].backoff_schedule),
        ));
        assert(schedule.skip(n).skip(1) =~= schedule.skip(n + 1));
    }
}

} // verus!
