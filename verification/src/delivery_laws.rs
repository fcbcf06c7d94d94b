//! What becomes of a message after its delivery, in full.

use crate::cleanup_laws::{found_by, is_round, Requeueing};
use crate::encoding_laws::a_later_time_is_a_sum;
use crate::error::Fault;
use crate::json::{json_schedule, keys_in, schedule_in};
use crate::overdue_laws::{lemma_next_of_round, lemma_running_so_far};
use crate::protocol::{end_of, is_run, no_failure, tables_after, Codec, Exchange};
use crate::queue_laws::{
    a_delivered_message_is_gone, is_requeued, queue_fits, requeued, undelivered_from,
    without_running, FinishRun,
};
use crate::request::Move;
use crate::running_laws::{
    a_keepalive_puts_deadlines_off, an_undelivered_message_is_requeued, lemma_undelivered_kv,
    KeepaliveRun,
};
use crate::store_laws::row_at;
use crate::tables::{ids_of, of_others, QueueRow, Tables};
use crate::time_laws::end_of_time;
use crate::write::{INCREMENT_END, INCREMENT_MIN};
use vstd::prelude::*;

verus! {

/// Whether a row is that of another one's message, queued again at a time: all is
/// as it was but for the first of its waiting times, which is used up.
pub open spec fn is_queued_again(
    row: QueueRow,
    times: Seq<u64>,
    ts: int,
    again: QueueRow,
) -> bool {
    &&& again.ts == ts
    &&& again.id == row.id
    &&& again.data == row.data
    &&& again.keys_if_undelivered == row.keys_if_undelivered
    &&& exists|rest: Seq<u64>|
        {
            &&& again.backoff_schedule == #[trigger] json_schedule(rest)
            &&& rest.len() == times.len() - 1
            &&& forall|i: int| 0 <= i < rest.len() ==> #[trigger] rest[i] == times[i + 1]
        }
}

/// Whether the message of a row has left the running ones, and nothing else has
/// changed among these, nor in the schema.
pub open spec fn has_left(before: Tables, row: QueueRow, after: Tables) -> bool {
    &&& forall|other: QueueRow| #[trigger]
        after.running.contains(other) <==> before.running.contains(other) && other.id != row.id
    &&& after.schema_version == before.schema_version
    &&& after.migrations == before.migrations
}

/// Whether a running message with these waiting times is queued again so, the first
/// of them from now. It stays running where the clock does not reach that far.
pub open spec fn waits_again(
    now_ms: i64,
    before: Tables,
    row: QueueRow,
    times: Seq<u64>,
    end: Move<bool>,
    after: Tables,
) -> bool {
    let ts = now_ms + times[0];
    if -8334601228800000 <= now_ms <= end_of_time() && ts <= end_of_time() {
        &&& end == Move::Done(Ok::<bool, Fault>(true))
        &&& has_left(before, row, after)
        &&& after.kv == before.kv
        &&& after.data_version == before.data_version
        &&& exists|again: QueueRow| #[trigger]
            is_queued_again(row, times, ts, again) && after.ready == before.ready.insert(again)
    } else {
        end == Move::<bool>::ClockOverflow && after == before
    }
}

/// Whether the payload of a running message is stored under these keys so, as an
/// engine's own bytes that do not expire, at a version that is later by one to
/// nine.
pub open spec fn is_given_up_to(
    before: Tables,
    row: QueueRow,
    keys: Seq<Seq<u8>>,
    end: Move<bool>,
    after: Tables,
) -> bool {
    &&& end == Move::Done(Ok::<bool, Fault>(false))
    &&& has_left(before, row, after)
    &&& after.ready == before.ready
    &&& 1 <= after.data_version - before.data_version <= 9
    &&& forall|key: Seq<u8>|
        if keys.contains(key) {
            row_at(after.kv, key) matches Some(stored) && stored.value == row.data
                && stored.encoding == 1 && stored.version == after.data_version
                && stored.expiration_ms == -1
        } else {
            #[trigger] row_at(after.kv, key) == row_at(before.kv, key)
        }
}

/// Whether a running message whose delivery failed is followed up so.
pub open spec fn is_follow_up(
    now_ms: i64,
    before: Tables,
    row: QueueRow,
    end: Move<bool>,
    after: Tables,
) -> bool {
    match schedule_in(row.backoff_schedule) {
        Err(text) => end == Move::Done(Err::<bool, Fault>(Fault::Generic(text))) && after == before,
        Ok(schedule) => {
            if schedule is Some && schedule->0.len() > 0 {
                waits_again(now_ms, before, row, schedule->0, end, after)
            } else if row.keys_if_undelivered.len() == 0 {
                &&& end == Move::Done(Ok::<bool, Fault>(false))
                &&& has_left(before, row, after)
                &&& after.ready == before.ready
                &&& after.kv == before.kv
                &&& after.data_version == before.data_version
            } else {
                match keys_in(row.keys_if_undelivered) {
                    Ok(keys) => is_given_up_to(before, row, keys, end, after),
                    Err(text) => end == Move::Done(Err::<bool, Fault>(Fault::Generic(text)))
                        && after == before,
                }
            }
        },
    }
}

proof fn lemma_follow_up(
    now_ms: i64,
    before: Tables,
    row: QueueRow,
    end: Move<bool>,
    after: Tables,
)
    requires
        is_requeued(row.id, now_ms, before, end, after),
        queue_fits(before),
        before.running.contains(row),
    ensures
        is_follow_up(now_ms, before, row, end, after),
{
    let (found, increment) = choose|found: QueueRow, increment: i64|
        before.running.contains(found) && found.id == row.id && INCREMENT_MIN <= increment
            < INCREMENT_END && (after.data_version != before.data_version ==> before.data_version
            + increment <= i64::MAX) && (after, end) == #[trigger] requeued(
            now_ms,
            before,
            found,
            increment,
        );
    assert(found == row);
    if let Ok(schedule) = schedule_in(row.backoff_schedule) {
        if schedule is Some && schedule->0.len() > 0 {
            let times = schedule->0;
            let rest = times.skip(1);
            let ts = now_ms + times[0];
            a_later_time_is_a_sum(now_ms as int, times[0] as int);
            if -8334601228800000 <= now_ms <= end_of_time() && ts <= end_of_time() {
                let again = QueueRow {
                    ts: ts as i64,
                    backoff_schedule: json_schedule(rest),
                    ..row
                };
                assert(again.backoff_schedule == json_schedule(rest));
                assert(is_queued_again(row, times, ts, again));
                assert(after.ready == before.ready.insert(again));
            }
        } else if row.keys_if_undelivered.len() > 0 {
            if let Ok(keys) = keys_in(row.keys_if_undelivered) {
                lemma_given_up(before, row, keys, increment, after);
            }
        }
    }
}

proof fn lemma_given_up(
    before: Tables,
    row: QueueRow,
    keys: Seq<Seq<u8>>,
    increment: i64,
    after: Tables,
)
    requires
        INCREMENT_MIN <= increment < INCREMENT_END,
        after.data_version != before.data_version ==> before.data_version + increment <= i64::MAX,
        ({
            let version = (before.data_version + increment) as i64;
            after == (Tables {
                data_version: version,
                kv: undelivered_from(before.kv, keys, row.data, version, 0),
                ..without_running(before, row.id)
            })
        }),
    ensures
        is_given_up_to(before, row, keys, Move::Done(Ok::<bool, Fault>(false)), after),
{
    let version = (before.data_version + increment) as i64;
    assert(version != before.data_version) by {
        if before.data_version + increment > i64::MAX {
            assert(before.data_version + increment - 0x1_0000_0000_0000_0000 < i64::MAX);
            lemma_truncated(before.data_version, increment);
        }
    }
    assert forall|key: Seq<u8>|
        if keys.contains(key) {
            row_at(after.kv, key) matches Some(stored) && stored.value == row.data
                && stored.encoding == 1 && stored.version == after.data_version
                && stored.expiration_ms == -1
        } else {
            #[trigger] row_at(after.kv, key) == row_at(before.kv, key)
        } by {
        lemma_undelivered_kv(before.kv, keys, row.data, version, 0, key);
        assert(keys.skip(0) =~= keys);
    }
}

/// A small number that is added changes a number, also where it wraps around.
proof fn lemma_truncated(n: i64, increment: i64)
    requires
        1 <= increment < 10,
    ensures
        (n + increment) as i64 != n,
{
    assert(1 <= increment < 10 ==> (n + increment) as i64 != n) by (bit_vector);
}

/// A running message whose delivery failed waits for the first of the waiting times
/// that it has left. Where it has none, its payload goes to its keys and it is
/// gone.
pub proof fn a_failed_delivery_is_followed_up(
    codec: Codec,
    task: FinishRun,
    before: Tables,
    trace: Seq<Exchange>,
    row: QueueRow,
)
    requires
        is_run(codec, task, task.start(false), before, trace),
        no_failure(trace),
        queue_fits(before),
        before.running.contains(row),
        row.id == task.id,
    ensures
        is_follow_up(
            task.now_ms,
            before,
            row,
            end_of(task, task.start(false), trace),
            tables_after(before, trace),
        ),
{
    an_undelivered_message_is_requeued(codec, task, before, trace);
    lemma_follow_up(
        task.now_ms,
        before,
        row,
        end_of(task, task.start(false), trace),
        tables_after(before, trace),
    );
}

/// The end of a message that is not running changes nothing, and those who wait for
/// messages are not told.
pub proof fn a_message_that_is_not_running_is_left_alone(
    codec: Codec,
    task: FinishRun,
    success: bool,
    before: Tables,
    trace: Seq<Exchange>,
)
    requires
        is_run(codec, task, task.start(success), before, trace),
        no_failure(trace),
        forall|row: QueueRow| #[trigger] before.running.contains(row) ==> row.id != task.id,
    ensures
        tables_after(before, trace) == before,
        end_of(task, task.start(success), trace) == Move::Done(Ok::<bool, Fault>(false)),
{
    if success {
        a_delivered_message_is_gone(codec, task, before, trace);
        assert(of_others(before.running, task.id) =~= before.running);
    } else {
        an_undelivered_message_is_requeued(codec, task, before, trace);
    }
}

/// A message whose delivery succeeded leaves the running ones, and nothing else
/// changes.
pub proof fn a_successful_delivery_ends_a_message(
    codec: Codec,
    task: FinishRun,
    before: Tables,
    trace: Seq<Exchange>,
)
    requires
        is_run(codec, task, task.start(true), before, trace),
        no_failure(trace),
    ensures
        end_of(task, task.start(true), trace) == Move::Done(Ok::<bool, Fault>(false)),
        forall|row: QueueRow| #[trigger]
            tables_after(before, trace).running.contains(row) <==> before.running.contains(row)
                && row.id != task.id,
        tables_after(before, trace) == (Tables {
            running: tables_after(before, trace).running,
            ..before
        }),
{
    a_delivered_message_is_gone(codec, task, before, trace);
}

/// Each message that a round of the cleanup lists is followed up as one whose
/// delivery failed.
pub proof fn a_round_follows_its_messages_up(
    now_ms: i64,
    before: Tables,
    overdue: Seq<QueueRow>,
    steps: Seq<Requeueing>,
    told: nat,
    after: Tables,
    index: int,
)
    requires
        is_round(now_ms, before, overdue, steps, told, after),
        queue_fits(before),
        0 <= index < overdue.len(),
    ensures
        is_follow_up(
            now_ms,
            found_by(before, steps, index),
            overdue[index],
            Move::Done(Ok::<bool, Fault>(steps[index].queued)),
            steps[index].after,
        ),
{
    lemma_running_so_far(now_ms, before, overdue, steps, told, after, index);
    lemma_next_of_round(now_ms, before, overdue, steps, told, after, index);
    assert(ids_of(overdue)[index] == overdue[index].id);
    lemma_follow_up(
        now_ms,
        found_by(before, steps, index),
        overdue[index],
        Move::Done(Ok::<bool, Fault>(steps[index].queued)),
        steps[index].after,
    );
}

/// Keeping messages alive puts the deadlines of just these off to five seconds from
/// now. It changes nothing else of them, and no other message.
pub proof fn a_keepalive_gives_five_seconds(
    codec: Codec,
    task: KeepaliveRun,
    before: Tables,
    trace: Seq<Exchange>,
)
    requires
        task.ids.len() <= usize::MAX,
        is_run(codec, task, task.start(), before, trace),
        no_failure(trace),
        -8334601228800000 <= task.now_ms && task.now_ms + 5000 <= end_of_time(),
    ensures
        end_of(task, task.start(), trace) == Move::Done(Ok::<(), Fault>(())),
        tables_after(before, trace) == (Tables {
            running: tables_after(before, trace).running,
            ..before
        }),
        forall|row: QueueRow|
            {
                &&& before.running.contains(row) && !task.ids.contains(row.id)
                    ==> #[trigger] tables_after(before, trace).running.contains(row)
                &&& tables_after(before, trace).running.contains(row) && !task.ids.contains(row.id)
                    ==> before.running.contains(row)
                &&& tables_after(before, trace).running.contains(row) && task.ids.contains(row.id)
                    ==> row.ts == task.now_ms + 5000 && exists|ts: i64| #[trigger]
                    before.running.contains(QueueRow { ts, ..row })
            },
        forall|row: QueueRow| #[trigger]
            before.running.contains(row) && task.ids.contains(row.id) ==> tables_after(
                before,
                trace,
            ).running.contains(QueueRow { ts: (task.now_ms + 5000) as i64, ..row }),
{
    a_keepalive_puts_deadlines_off(codec, task, before, trace);
    let after = tables_after(before, trace).running;
    let deadline = (task.now_ms + 5000) as i64;
    let put = |row: QueueRow|
        if task.ids.contains(row.id) {
            QueueRow { ts: deadline, ..row }
        } else {
            row
        };
    assert(after == before.running.map(put));
    assert forall|row: QueueRow|
        {
            &&& before.running.contains(row) && !task.ids.contains(row.id)
                ==> #[trigger] after.contains(row)
            &&& after.contains(row) && !task.ids.contains(row.id) ==> before.running.contains(row)
            &&& after.contains(row) && task.ids.contains(row.id) ==> row.ts == task.now_ms + 5000
                && exists|ts: i64| #[trigger]
                before.running.contains(QueueRow { ts, ..row })
        } by {
        if before.running.contains(row) && !task.ids.contains(row.id) {
            assert(put(row) == row);
        }
        if after.contains(row) {
            let old = choose|old: QueueRow| before.running.contains(old) && row == put(old);
            assert(old == QueueRow { ts: old.ts, ..row });
        }
    }
    assert forall|row: QueueRow| #[trigger]
        before.running.contains(row) && task.ids.contains(row.id) implies after.contains(
        QueueRow { ts: deadline, ..row },
    ) by {
        assert(put(row) == QueueRow { ts: deadline, ..row });
    }
}

} // verus!
