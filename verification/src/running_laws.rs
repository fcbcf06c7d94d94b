//! What becomes of the messages that are running.

use crate::clock::later;
use crate::error::Fault;
use crate::json::{
    json_keys, json_schedule, keys_in, reads_back_keys, reads_back_schedule, schedule_in,
};
use crate::protocol::{
    end_of, is_run, lemma_first_exchange, lemma_no_exchange, no_failure, tables_after, Codec,
    Exchange, Protocol,
};
use crate::queue::MESSAGE_DEADLINE_TIMEOUT_MS;
use crate::queue_laws::{
    a_requeueing_comes_to_what_is_requeued, is_requeued, requeued, undelivered_from,
    undelivered_row, without_running, FinishRun, RequeueRun,
};
use crate::request::{Answer, Move};
use crate::requeue::{requeue_step, RequeueState};
use crate::running::{
    keep_alive_from, keepalive_expects, keepalive_step, FinishState, KeepaliveState,
};
use crate::store_laws::row_at;
use crate::tables::{of_others, put_off, QueueRow, StoredRow, Tables};
use crate::write::{INCREMENT_END, INCREMENT_MIN};
use vstd::prelude::*;

verus! {

/// The end of a message whose delivery failed is a requeueing.
proof fn lemma_finish_requeues(
    codec: Codec,
    task: FinishRun,
    state: RequeueState,
    step: Move<bool>,
    tables: Tables,
    trace: Seq<Exchange>,
)
    requires
        is_run(codec, task, (FinishState::Requeueing(state), step), tables, trace),
    ensures
        is_run(
            codec,
            RequeueRun { id: task.id, now_ms: task.now_ms },
            (state, step),
            tables,
            trace,
        ),
        end_of(RequeueRun { id: task.id, now_ms: task.now_ms }, (state, step), trace) == end_of(
            task,
            (FinishState::Requeueing(state), step),
            trace,
        ),
    decreases trace.len(),
{
    if step is Ask {
        let other = RequeueRun { id: task.id, now_ms: task.now_ms };
        let (next, then) = requeue_step(task.id, task.now_ms, state, trace[0].answer);
        assert(task.next(FinishState::Requeueing(state), trace[0].answer, trace[0].id) == (
            FinishState::Requeueing(next),
            then,
        ));
        assert(other.next(state, trace[0].answer, trace[0].id) == (next, then));
        lemma_finish_requeues(codec, task, next, then, trace[0].tables, trace.skip(1));
    }
}

/// A message whose delivery failed is requeued.
pub proof fn an_undelivered_message_is_requeued(
    codec: Codec,
    task: FinishRun,
    before: Tables,
    trace: Seq<Exchange>,
)
    requires
        is_run(codec, task, task.start(false), before, trace),
        no_failure(trace),
    ensures
        is_requeued(
            task.id,
            task.now_ms,
            before,
            end_of(task, task.start(false), trace),
            tables_after(before, trace),
        ),
{
    let other = RequeueRun { id: task.id, now_ms: task.now_ms };
    let (state, step) = other.start();
    lemma_finish_requeues(codec, task, state, step, before, trace);
    a_requeueing_comes_to_what_is_requeued(codec, other, before, trace);
}

/// A message that is queued again has its first waiting time used up.
pub proof fn a_requeueing_uses_up_a_waiting_time(
    now_ms: i64,
    before: Tables,
    row: QueueRow,
    increment: i64,
    schedule: Seq<u64>,
)
    requires
        row.backoff_schedule == json_schedule(schedule),
        reads_back_schedule(row.backoff_schedule, schedule_in(row.backoff_schedule)),
        schedule.len() > 0,
        later(now_ms as int, schedule[0] as int) is Some,
    ensures
        requeued(now_ms, before, row, increment) == (
            Tables {
                ready: before.ready.insert(
                    QueueRow {
                        ts: (now_ms + schedule[0]) as i64,
                        backoff_schedule: json_schedule(schedule.skip(1)),
                        ..row
                    },
                ),
                ..without_running(before, row.id)
            },
            Move::Done(Ok::<bool, Fault>(true)),
        ),
{
}

/// What a key holds after a payload is stored under the keys from `index` on.
pub proof fn lemma_undelivered_kv(
    kv: Map<Seq<u8>, StoredRow>,
    keys: Seq<Seq<u8>>,
    data: Seq<u8>,
    version: i64,
    index: int,
    key: Seq<u8>,
)
    requires
        0 <= index <= keys.len(),
    ensures
        row_at(undelivered_from(kv, keys, data, version, index), key) == if keys.skip(
            index,
        ).contains(key) {
            Some(undelivered_row(data, version))
        } else {
            row_at(kv, key)
        },
    decreases keys.len() - index,
{
    if index < keys.len() {
        let next = kv.insert(keys[index], undelivered_row(data, version));
        lemma_undelivered_kv(next, keys, data, version, index + 1, key);
        let here = keys.skip(index);
        let rest = keys.skip(index + 1);
        if rest.contains(key) {
            let i = choose|i: int| 0 <= i < rest.len() && rest[i] == key;
            assert(here[i + 1] == key);
        } else if key == keys[index] {
            assert(here[0] == key);
        } else if here.contains(key) {
            let i = choose|i: int| 0 <= i < here.len() && here[i] == key;
            assert(rest[i - 1] == key);
        }
    }
}

/// The payload of a message without a waiting time is stored under each of the
/// keys that it names, at a later version, and under no others.
pub proof fn an_undeliverable_payload_reaches_its_keys(
    now_ms: i64,
    before: Tables,
    row: QueueRow,
    increment: i64,
    keys: Seq<Seq<u8>>,
    key: Seq<u8>,
)
    requires
        row.backoff_schedule == json_schedule(seq![]),
        reads_back_schedule(row.backoff_schedule, schedule_in(row.backoff_schedule)),
        row.keys_if_undelivered == json_keys(keys),
        reads_back_keys(row.keys_if_undelivered, keys_in(row.keys_if_undelivered)),
        INCREMENT_MIN <= increment < INCREMENT_END,
        before.data_version + increment <= i64::MAX,
    ensures
        ({
            let (after, end) = requeued(now_ms, before, row, increment);
            &&& end == Move::Done(Ok::<bool, Fault>(false))
            &&& after.data_version == before.data_version + increment
            &&& after.ready == before.ready
            &&& after.running == of_others(before.running, row.id)
            &&& row_at(after.kv, key) == if keys.contains(key) {
                Some(undelivered_row(row.data, after.data_version))
            } else {
                row_at(before.kv, key)
            }
        }),
{
    let version = (before.data_version + increment) as i64;
    assert(json_keys(keys).len() > 0) by {
        reveal_strlit("[");
        reveal_strlit("]");
    }
    lemma_undelivered_kv(before.kv, keys, row.data, version, 0, key);
    assert(keys.skip(0) =~= keys);
}

/// The moves of the task that keeps messages alive.
pub struct KeepaliveRun {
    pub ids: Seq<Seq<char>>,
    pub now_ms: i64,
}

impl Protocol for KeepaliveRun {
    type State = KeepaliveState;

    type Output = ();

    open spec fn next(self, state: KeepaliveState, answer: Answer, id: Seq<char>) -> (
        KeepaliveState,
        Move<()>,
    ) {
        keepalive_step(self.ids, self.now_ms, state, answer)
    }

    open spec fn expects(self, state: KeepaliveState, answer: Answer) -> bool {
        keepalive_expects(state, answer)
    }
}

impl KeepaliveRun {
    /// The first move.
    pub open spec fn start(self) -> (KeepaliveState, Move<()>) {
        keepalive_step(self.ids, self.now_ms, KeepaliveState::Fresh, Answer::Begin)
    }
}

/// The rows, with the deadlines of the messages put off that are named by `ids`.
pub open spec fn all_put_off(rows: Set<QueueRow>, deadline: i64, ids: Seq<Seq<char>>) -> Set<
    QueueRow,
> {
    rows.map(
        |row: QueueRow|
            if ids.contains(row.id) {
                QueueRow { ts: deadline, ..row }
            } else {
                row
            },
    )
}

proof fn lemma_put_off(rows: Set<QueueRow>, deadline: i64, ids: Seq<Seq<char>>, index: int)
    requires
        0 <= index < ids.len(),
    ensures
        all_put_off(put_off(rows, deadline, ids[index]), deadline, ids.skip(index + 1))
            == all_put_off(rows, deadline, ids.skip(index)),
{
    let id = ids[index];
    let here = ids.skip(index);
    let rest = ids.skip(index + 1);
    let one = |row: QueueRow|
        if row.id == id {
            QueueRow { ts: deadline, ..row }
        } else {
            row
        };
    let others = |row: QueueRow|
        if rest.contains(row.id) {
            QueueRow { ts: deadline, ..row }
        } else {
            row
        };
    let both = |row: QueueRow|
        if here.contains(row.id) {
            QueueRow { ts: deadline, ..row }
        } else {
            row
        };
    assert forall|row: QueueRow| others(one(row)) == #[trigger] both(row) by {
        if rest.contains(row.id) {
            let i = choose|i: int| 0 <= i < rest.len() && rest[i] == row.id;
            assert(here[i + 1] == row.id);
        } else if row.id == id {
            assert(here[0] == row.id);
        } else if here.contains(row.id) {
            let i = choose|i: int| 0 <= i < here.len() && here[i] == row.id;
            assert(rest[i - 1] == row.id);
        }
    }
    let left = rows.map(one).map(others);
    let right = rows.map(both);
    assert forall|row: QueueRow| left.contains(row) <==> right.contains(row) by {
        if left.contains(row) {
            let mid = choose|mid: QueueRow| rows.map(one).contains(mid) && row == others(mid);
            let first = choose|first: QueueRow| rows.contains(first) && mid == one(first);
            assert(row == both(first));
        }
        if right.contains(row) {
            let first = choose|first: QueueRow| rows.contains(first) && row == both(first);
            assert(rows.map(one).contains(one(first)));
            assert(row == others(one(first)));
        }
    }
    assert(left =~= right);
}

proof fn lemma_keepalive_from(
    codec: Codec,
    task: KeepaliveRun,
    index: usize,
    tables: Tables,
    trace: Seq<Exchange>,
)
    requires
        task.ids.len() <= usize::MAX,
        index <= task.ids.len(),
        later(task.now_ms as int, MESSAGE_DEADLINE_TIMEOUT_MS as int) is Some,
        is_run(codec, task, keep_alive_from(task.ids, task.now_ms, index), tables, trace),
        no_failure(trace),
    ensures
        end_of(task, keep_alive_from(task.ids, task.now_ms, index), trace) == Move::Done(
            Ok::<(), Fault>(()),
        ),
        tables_after(tables, trace) == (Tables {
            running: all_put_off(
                tables.running,
                (task.now_ms + MESSAGE_DEADLINE_TIMEOUT_MS) as i64,
                task.ids.skip(index as int),
            ),
            ..tables
        }),
    decreases task.ids.len() - index,
{
    let at = keep_alive_from(task.ids, task.now_ms, index);
    let deadline = (task.now_ms + MESSAGE_DEADLINE_TIMEOUT_MS) as i64;
    if index < task.ids.len() {
        lemma_first_exchange(codec, task, at, tables, trace);
        lemma_keepalive_from(codec, task, (index + 1) as usize, trace[0].tables, trace.skip(1));
        lemma_put_off(tables.running, deadline, task.ids, index as int);
    } else {
        lemma_no_exchange(codec, task, at, tables, trace);
        let none = task.ids.skip(index as int);
        let all = all_put_off(tables.running, deadline, none);
        assert forall|row: QueueRow| all.contains(row) <==> tables.running.contains(row) by {}
        assert(all =~= tables.running);
    }
}

/// Keeping messages alive puts their deadlines off to some time from now, and
/// changes nothing else.
pub proof fn a_keepalive_puts_deadlines_off(
    codec: Codec,
    task: KeepaliveRun,
    before: Tables,
    trace: Seq<Exchange>,
)
    requires
        task.ids.len() <= usize::MAX,
        later(task.now_ms as int, MESSAGE_DEADLINE_TIMEOUT_MS as int) is Some,
        is_run(codec, task, task.start(), before, trace),
        no_failure(trace),
    ensures
        end_of(task, task.start(), trace) == Move::Done(
            Ok::<(), Fault>(()),
        ),
        tables_after(before, trace) == (Tables {
            running: all_put_off(
                before.running,
                (task.now_ms + MESSAGE_DEADLINE_TIMEOUT_MS) as i64,
                task.ids,
            ),
            ..before
        }),
{
    lemma_keepalive_from(codec, task, 0, before, trace);
    assert(task.ids.skip(0) =~= task.ids);
}

/// Keeping messages alive loses none and makes none.
pub proof fn a_keepalive_keeps_every_message(
    rows: Set<QueueRow>,
    deadline: i64,
    ids: Seq<Seq<char>>,
    id: Seq<char>,
)
    ensures
        (exists|row: QueueRow| #[trigger]
            all_put_off(rows, deadline, ids).contains(row) && row.id == id) <==> (exists|
            row: QueueRow,
        | #[trigger]
            rows.contains(row) && row.id == id),
{
    let put = |row: QueueRow|
        if ids.contains(row.id) {
            QueueRow { ts: deadline, ..row }
        } else {
            row
        };
    let after = all_put_off(rows, deadline, ids);
    if exists|row: QueueRow| #[trigger] rows.contains(row) && row.id == id {
        let row = choose|row: QueueRow| #[trigger] rows.contains(row) && row.id == id;
        assert(after.contains(put(row)));
    }
    if exists|row: QueueRow| #[trigger] after.contains(row) && row.id == id {
        let row = choose|row: QueueRow| #[trigger] after.contains(row) && row.id == id;
        let old = choose|old: QueueRow| rows.contains(old) && row == put(old);
        assert(rows.contains(old) && old.id == id);
    }
}

} // verus!
