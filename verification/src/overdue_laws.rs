//! What becomes of the messages that are past their deadline.

use crate::cleanup_laws::{are_requeued, found_by, is_round, Requeueing};
use crate::error::Fault;
use crate::json::{json_schedule, keys_in, schedule_in};
use crate::queue_laws::{
    a_requeueing_keeps_the_other_messages, a_requeueing_keeps_values_in_order, is_known,
    is_requeued, queue_fits, requeued, undelivered_row,
};
use crate::read_laws::values_fit;
use crate::request::Move;
use crate::requeue::waiting_times;
use crate::running_laws::lemma_undelivered_kv;
use crate::store_laws::{row_at, versions_fit};
use crate::tables::{ids_of, of_others, QueueRow, Tables};
use crate::write::{INCREMENT_END, INCREMENT_MIN};
use vstd::prelude::*;

verus! {

/// Whether a message of that name is running.
pub open spec fn is_running(tables: Tables, id: Seq<char>) -> bool {
    exists|row: QueueRow| #[trigger] tables.running.contains(row) && row.id == id
}

/// Whether a message can be queued again: a waiting time is left to it.
pub open spec fn can_wait(row: QueueRow) -> bool {
    schedule_in(row.backoff_schedule) matches Ok(schedule) && waiting_times(schedule).len() > 0
}

/// The row of a message that is queued again: its first waiting time is used up.
pub open spec fn retried(now_ms: i64, row: QueueRow) -> QueueRow {
    let times = waiting_times(schedule_in(row.backoff_schedule)->Ok_0);
    QueueRow {
        ts: (now_ms + times[0]) as i64,
        backoff_schedule: json_schedule(times.skip(1)),
        ..row
    }
}

/// Whether the payload of a message goes to a key when it is given up.
pub open spec fn is_kept_under(row: QueueRow, key: Seq<u8>) -> bool {
    &&& !can_wait(row)
    &&& row.keys_if_undelivered.len() > 0
    &&& keys_in(row.keys_if_undelivered) matches Ok(keys)
    &&& keys.contains(key)
}

/// Later messages of a round do not start one.
proof fn lemma_running_shrinks(
    now_ms: i64,
    before: Tables,
    ids: Seq<Seq<char>>,
    steps: Seq<Requeueing>,
    i: int,
    j: int,
)
    requires
        are_requeued(now_ms, before, ids, steps),
        0 <= i <= j <= steps.len(),
    ensures
        found_by(before, steps, j).running.subset_of(found_by(before, steps, i).running),
    decreases j - i,
{
    if i < j {
        lemma_running_shrinks(now_ms, before, ids, steps, i, j - 1);
        let found = found_by(before, steps, j - 1);
        let left = steps[j - 1].after;
        assert(is_requeued(
            ids[j - 1],
            now_ms,
            found,
            Move::Done(Ok::<bool, Fault>(steps[j - 1].queued)),
            left,
        ));
        assert(left.running.subset_of(found.running));
    }
}

/// No message that a round lists is running after it.
pub proof fn a_round_leaves_no_listed_message_running(
    now_ms: i64,
    before: Tables,
    overdue: Seq<QueueRow>,
    steps: Seq<Requeueing>,
    told: nat,
    after: Tables,
    index: int,
)
    requires
        is_round(now_ms, before, overdue, steps, told, after),
        0 <= index < overdue.len(),
    ensures
        !is_running(after, overdue[index].id),
        after.running.subset_of(before.running),
{
    let ids = ids_of(overdue);
    let count = steps.len() as int;
    let found = found_by(before, steps, index);
    let left = steps[index].after;
    lemma_running_shrinks(now_ms, before, ids, steps, 0, count);
    lemma_running_shrinks(now_ms, before, ids, steps, index + 1, count);
    assert(found_by(before, steps, index + 1) == left);
    assert(is_requeued(
        ids[index],
        now_ms,
        found,
        Move::Done(Ok::<bool, Fault>(steps[index].queued)),
        left,
    ));
    assert(!is_running(left, ids[index]));
    if is_running(after, ids[index]) {
        let row = choose|row: QueueRow| #[trigger]
            after.running.contains(row) && row.id == ids[index];
        assert(left.running.contains(row));
    }
}

/// The requeueing of a running message takes it from the running ones. It goes
/// back to the queue where a waiting time is left to it, and to its keys where
/// none is. Nothing else changes.
pub proof fn a_requeueing_moves_one_message(
    now_ms: i64,
    before: Tables,
    row: QueueRow,
    queued: bool,
    after: Tables,
    key: Seq<u8>,
)
    requires
        is_requeued(row.id, now_ms, before, Move::Done(Ok::<bool, Fault>(queued)), after),
        queue_fits(before),
        before.running.contains(row),
    ensures
        queue_fits(after),
        queued == can_wait(row),
        after.running == before.running.remove(row),
        after.ready == if queued {
            before.ready.insert(retried(now_ms, row))
        } else {
            before.ready
        },
        before.data_version <= after.data_version,
        row_at(after.kv, key) == if is_kept_under(row, key) {
            Some(undelivered_row(row.data, after.data_version))
        } else {
            row_at(before.kv, key)
        },
{
    a_requeueing_keeps_the_other_messages(
        row.id,
        now_ms,
        before,
        Move::Done(Ok::<bool, Fault>(queued)),
        after,
        row,
    );
    let (found, increment) = choose|found: QueueRow, increment: i64|
        before.running.contains(found) && found.id == row.id && INCREMENT_MIN <= increment
            < INCREMENT_END && (after.data_version != before.data_version ==> before.data_version
            + increment <= i64::MAX) && (after, Move::Done(Ok::<bool, Fault>(queued)))
            == #[trigger] requeued(now_ms, before, found, increment);
    assert(found == row);
    assert(of_others(before.running, row.id) =~= before.running.remove(row));
    if !queued && row.keys_if_undelivered.len() > 0 {
        let keys = keys_in(row.keys_if_undelivered)->Ok_0;
        let version = (before.data_version + increment) as i64;
        lemma_undelivered_kv(before.kv, keys, row.data, version, 0, key);
        assert(keys.skip(0) =~= keys);
    }
}

proof fn lemma_take_one_more(rows: Seq<QueueRow>, count: int, row: QueueRow)
    requires
        0 < count <= rows.len(),
    ensures
        rows.take(count).contains(row) <==> rows.take(count - 1).contains(row) || row == rows[count
            - 1],
{
    let fewer = rows.take(count - 1);
    let more = rows.take(count);
    if more.contains(row) {
        let i = choose|i: int| 0 <= i < more.len() && more[i] == row;
        if i < count - 1 {
            assert(fewer[i] == row);
        }
    }
    if fewer.contains(row) {
        let i = choose|i: int| 0 <= i < fewer.len() && fewer[i] == row;
        assert(more[i] == row);
    }
    assert(more[count - 1] == rows[count - 1]);
}

/// The messages that are running after `count` of those of a round are requeued.
pub proof fn lemma_running_so_far(
    now_ms: i64,
    before: Tables,
    overdue: Seq<QueueRow>,
    steps: Seq<Requeueing>,
    told: nat,
    after: Tables,
    count: int,
)
    requires
        is_round(now_ms, before, overdue, steps, told, after),
        queue_fits(before),
        0 <= count <= steps.len(),
    ensures
        queue_fits(found_by(before, steps, count)),
        found_by(before, steps, count).running == before.running.filter(
            |row: QueueRow| !overdue.take(count).contains(row),
        ),
    decreases count,
{
    let now = found_by(before, steps, count);
    let left = before.running.filter(|row: QueueRow| !overdue.take(count).contains(row));
    if count == 0 {
        assert(now.running =~= left);
    } else {
        let last = count - 1;
        let row = overdue[last];
        lemma_running_so_far(now_ms, before, overdue, steps, told, after, last);
        lemma_next_of_round(now_ms, before, overdue, steps, told, after, last);
        assert forall|other: QueueRow| now.running.contains(other) <==> left.contains(other) by {
            lemma_take_one_more(overdue, count, other);
        }
        assert(now.running =~= left);
    }
}

/// The message at `index` is running when it is requeued, which moves it.
pub proof fn lemma_next_of_round(
    now_ms: i64,
    before: Tables,
    overdue: Seq<QueueRow>,
    steps: Seq<Requeueing>,
    told: nat,
    after: Tables,
    index: int,
)
    requires
        is_round(now_ms, before, overdue, steps, told, after),
        queue_fits(before),
        0 <= index < steps.len(),
        queue_fits(found_by(before, steps, index)),
        found_by(before, steps, index).running == before.running.filter(
            |row: QueueRow| !overdue.take(index).contains(row),
        ),
    ensures
        ({
            let found = found_by(before, steps, index);
            let left = found_by(before, steps, index + 1);
            let row = overdue[index];
            &&& found.running.contains(row)
            &&& queue_fits(left)
            &&& left.running == found.running.remove(row)
            &&& steps[index].queued == can_wait(row)
            &&& left.ready == if can_wait(row) {
                found.ready.insert(retried(now_ms, row))
            } else {
                found.ready
            }
            &&& forall|key: Seq<u8>| #[trigger]
                row_at(left.kv, key) == if is_kept_under(row, key) {
                    Some(undelivered_row(row.data, left.data_version))
                } else {
                    row_at(found.kv, key)
                }
            &&& found.data_version <= left.data_version
        }),
{
    let found = found_by(before, steps, index);
    let left = found_by(before, steps, index + 1);
    let row = overdue[index];
    let earlier = overdue.take(index);
    assert(before.running.contains(row));
    if earlier.contains(row) {
        let i = choose|i: int| 0 <= i < earlier.len() && earlier[i] == row;
        assert(overdue[i] == overdue[index]);
    }
    assert(ids_of(overdue)[index] == row.id);
    assert(steps[index].after == left);
    a_requeueing_moves_one_message(now_ms, found, row, steps[index].queued, left, seq![]);
    assert forall|key: Seq<u8>| #[trigger]
        row_at(left.kv, key) == if is_kept_under(row, key) {
            Some(undelivered_row(row.data, left.data_version))
        } else {
            row_at(found.kv, key)
        } by {
        a_requeueing_moves_one_message(now_ms, found, row, steps[index].queued, left, key);
    }
}

/// Whether a row is that of one of the messages, queued again.
pub open spec fn is_retried(now_ms: i64, rows: Seq<QueueRow>, row: QueueRow) -> bool {
    exists|old: QueueRow| #[trigger]
        rows.contains(old) && can_wait(old) && row == retried(now_ms, old)
}

/// The messages in the queue after `count` of those of a round are requeued.
proof fn lemma_ready_so_far(
    now_ms: i64,
    before: Tables,
    overdue: Seq<QueueRow>,
    steps: Seq<Requeueing>,
    told: nat,
    after: Tables,
    count: int,
    row: QueueRow,
)
    requires
        is_round(now_ms, before, overdue, steps, told, after),
        queue_fits(before),
        0 <= count <= steps.len(),
    ensures
        found_by(before, steps, count).ready.contains(row) <==> before.ready.contains(row)
            || is_retried(now_ms, overdue.take(count), row),
    decreases count,
{
    if count > 0 {
        let last = count - 1;
        let fewer = overdue.take(last);
        let more = overdue.take(count);
        lemma_ready_so_far(now_ms, before, overdue, steps, told, after, last, row);
        lemma_running_so_far(now_ms, before, overdue, steps, told, after, last);
        lemma_next_of_round(now_ms, before, overdue, steps, told, after, last);
        if is_retried(now_ms, fewer, row) {
            let old = choose|old: QueueRow| #[trigger]
                fewer.contains(old) && can_wait(old) && row == retried(now_ms, old);
            lemma_take_one_more(overdue, count, old);
            assert(more.contains(old));
        }
        if is_retried(now_ms, more, row) {
            let old = choose|old: QueueRow| #[trigger]
                more.contains(old) && can_wait(old) && row == retried(now_ms, old);
            lemma_take_one_more(overdue, count, old);
        }
        lemma_take_one_more(overdue, count, overdue[last]);
        assert(more.contains(overdue[last]));
    }
}

/// A round of the cleanup takes the messages that it lists from the running ones,
/// and leaves the others as they were: all that are not yet past their deadline
/// among them. To the queue it adds those to which a waiting time is left, each
/// with the first one used up, and nothing else.
pub proof fn a_round_moves_the_overdue(
    now_ms: i64,
    before: Tables,
    overdue: Seq<QueueRow>,
    steps: Seq<Requeueing>,
    told: nat,
    after: Tables,
)
    requires
        is_round(now_ms, before, overdue, steps, told, after),
        queue_fits(before),
    ensures
        queue_fits(after),
        after.running == before.running.filter(|row: QueueRow| !overdue.contains(row)),
        forall|row: QueueRow| #[trigger]
            before.running.contains(row) && row.ts > now_ms ==> after.running.contains(row),
        forall|row: QueueRow| #[trigger]
            after.ready.contains(row) <==> before.ready.contains(row) || is_retried(
                now_ms,
                overdue,
                row,
            ),
        forall|i: int|
            0 <= i < overdue.len() ==> (#[trigger] steps[i]).queued == can_wait(overdue[i]),
{
    let count = steps.len() as int;
    assert(overdue.take(count) =~= overdue);
    lemma_running_so_far(now_ms, before, overdue, steps, told, after, count);
    assert forall|row: QueueRow| #[trigger]
        before.running.contains(row) && row.ts > now_ms implies after.running.contains(row) by {
        if overdue.contains(row) {
            let i = choose|i: int| 0 <= i < overdue.len() && overdue[i] == row;
            assert(overdue[i].ts <= now_ms);
        }
    }
    assert forall|row: QueueRow| #[trigger] after.ready.contains(row) <==> (before.ready.contains(
        row,
    ) || is_retried(now_ms, overdue, row)) by {
        lemma_ready_so_far(now_ms, before, overdue, steps, told, after, count, row);
    }
    assert forall|i: int| 0 <= i < overdue.len() implies (#[trigger] steps[i]).queued == can_wait(
        overdue[i],
    ) by {
        lemma_running_so_far(now_ms, before, overdue, steps, told, after, i);
        lemma_next_of_round(now_ms, before, overdue, steps, told, after, i);
    }
}

/// Whether the payload of the message at `index` goes to a key, and that of no
/// message after it.
pub open spec fn is_last_kept(rows: Seq<QueueRow>, key: Seq<u8>, index: int) -> bool {
    &&& 0 <= index < rows.len()
    &&& is_kept_under(rows[index], key)
    &&& forall|i: int| index < i < rows.len() ==> !is_kept_under(#[trigger] rows[i], key)
}

/// Whether the requeueing of a message does this to a key.
spec fn keeps_or_stores(found: Tables, row: QueueRow, left: Tables, key: Seq<u8>) -> bool {
    &&& found.data_version <= left.data_version
    &&& row_at(left.kv, key) == if is_kept_under(row, key) {
        Some(undelivered_row(row.data, left.data_version))
    } else {
        row_at(found.kv, key)
    }
}

/// The last message whose payload goes to a key, among one more.
proof fn lemma_last_kept(rows: Seq<QueueRow>, key: Seq<u8>, count: int, index: int)
    requires
        0 < count <= rows.len(),
    ensures
        is_kept_under(rows[count - 1], key) ==> is_last_kept(rows.take(count), key, count - 1),
        !is_kept_under(rows[count - 1], key) && is_last_kept(rows.take(count - 1), key, index)
            ==> is_last_kept(rows.take(count), key, index),
{
    let fewer = rows.take(count - 1);
    let more = rows.take(count);
    if !is_kept_under(rows[count - 1], key) && is_last_kept(fewer, key, index) {
        assert(more[index] == fewer[index]);
        assert forall|i: int| index < i < more.len() implies !is_kept_under(
            #[trigger] more[i],
            key,
        ) by {
            if i < count - 1 {
                assert(fewer[i] == more[i]);
            }
        }
    }
}

/// What a key holds after `count` of the messages of a round are requeued.
proof fn lemma_values_so_far(
    before: Tables,
    overdue: Seq<QueueRow>,
    steps: Seq<Requeueing>,
    count: int,
    key: Seq<u8>,
) -> (last: Option<int>)
    requires
        steps.len() == overdue.len(),
        forall|i: int|
            0 <= i < steps.len() ==> keeps_or_stores(
                found_by(before, steps, i),
                overdue[i],
                (#[trigger] steps[i]).after,
                key,
            ),
        0 <= count <= steps.len(),
    ensures
        before.data_version <= found_by(before, steps, count).data_version,
        match last {
            Some(j) => {
                &&& is_last_kept(overdue.take(count), key, j)
                &&& row_at(found_by(before, steps, count).kv, key) == Some(
                    undelivered_row(overdue[j].data, steps[j].after.data_version),
                )
            },
            None => {
                &&& forall|i: int| 0 <= i < count ==> !is_kept_under(#[trigger] overdue[i], key)
                &&& row_at(found_by(before, steps, count).kv, key) == row_at(before.kv, key)
            },
        },
    decreases count,
{
    if count == 0 {
        None
    } else {
        let i = count - 1;
        let last = lemma_values_so_far(before, overdue, steps, i, key);
        assert(keeps_or_stores(
            found_by(before, steps, i),
            overdue[i],
            steps[i].after,
            key,
        ));
        if is_kept_under(overdue[i], key) {
            lemma_last_kept(overdue, key, count, i);
            Some(i)
        } else {
            if let Some(j) = last {
                lemma_last_kept(overdue, key, count, j);
            }
            last
        }
    }
}

/// The payloads that a round gives up are stored under the keys that the messages
/// name, at the version that their requeueing made; where several name a key, it
/// holds that of the last one. The other keys hold what they held.
pub proof fn a_round_stores_what_it_gives_up(
    now_ms: i64,
    before: Tables,
    overdue: Seq<QueueRow>,
    steps: Seq<Requeueing>,
    told: nat,
    after: Tables,
    key: Seq<u8>,
) -> (last: Option<int>)
    requires
        is_round(now_ms, before, overdue, steps, told, after),
        queue_fits(before),
    ensures
        before.data_version <= after.data_version,
        match last {
            Some(j) => {
                &&& is_last_kept(overdue, key, j)
                &&& row_at(after.kv, key) == Some(
                    undelivered_row(overdue[j].data, steps[j].after.data_version),
                )
            },
            None => {
                &&& forall|i: int|
                    0 <= i < overdue.len() ==> !is_kept_under(#[trigger] overdue[i], key)
                &&& row_at(after.kv, key) == row_at(before.kv, key)
            },
        },
{
    let count = steps.len() as int;
    assert(overdue.take(count) =~= overdue);
    assert forall|i: int| 0 <= i < steps.len() implies keeps_or_stores(
        found_by(before, steps, i),
        overdue[i],
        (#[trigger] steps[i]).after,
        key,
    ) by {
        lemma_running_so_far(now_ms, before, overdue, steps, told, after, i);
        lemma_next_of_round(now_ms, before, overdue, steps, told, after, i);
        assert(found_by(before, steps, i + 1) == steps[i].after);
    }
    lemma_values_so_far(before, overdue, steps, count, key)
}

/// A message that a round gives up is not known any more, and none that was not
/// known before is known after it.
pub proof fn a_round_makes_no_message(
    now_ms: i64,
    before: Tables,
    overdue: Seq<QueueRow>,
    steps: Seq<Requeueing>,
    told: nat,
    after: Tables,
    id: Seq<char>,
)
    requires
        is_round(now_ms, before, overdue, steps, told, after),
        queue_fits(before),
    ensures
        is_known(after, id) ==> is_known(before, id),
        forall|i: int|
            0 <= i < overdue.len() && !can_wait(#[trigger] overdue[i]) ==> !is_known(
                after,
                overdue[i].id,
            ),
{
    a_round_moves_the_overdue(now_ms, before, overdue, steps, told, after);
    if exists|row: QueueRow| #[trigger] after.ready.contains(row) && row.id == id {
        let row = choose|row: QueueRow| #[trigger] after.ready.contains(row) && row.id == id;
        if !before.ready.contains(row) {
            let old = choose|old: QueueRow| #[trigger]
                overdue.contains(old) && can_wait(old) && row == retried(now_ms, old);
            assert(before.running.contains(old) && old.id == id);
        }
    }
    if exists|row: QueueRow| #[trigger] after.running.contains(row) && row.id == id {
        let row = choose|row: QueueRow| #[trigger] after.running.contains(row) && row.id == id;
        assert(before.running.contains(row));
    }
    assert forall|i: int| 0 <= i < overdue.len() && !can_wait(#[trigger] overdue[i]) implies
        !is_known(after, overdue[i].id) by {
        let gone = overdue[i];
        assert(before.running.contains(gone));
        assert(overdue.contains(gone));
        assert forall|row: QueueRow| #[trigger] after.ready.contains(row) implies row.id
            != gone.id by {
            if !before.ready.contains(row) {
                let old = choose|old: QueueRow| #[trigger]
                    overdue.contains(old) && can_wait(old) && row == retried(now_ms, old);
                assert(before.running.contains(old));
            }
        }
        assert forall|row: QueueRow| #[trigger] after.running.contains(row) implies row.id
            != gone.id by {
            assert(before.running.contains(row));
        }
    }
}

/// What holds of the values after `count` messages are requeued.
proof fn lemma_values_in_order(
    now_ms: i64,
    before: Tables,
    ids: Seq<Seq<char>>,
    steps: Seq<Requeueing>,
    count: int,
)
    requires
        are_requeued(now_ms, before, ids, steps),
        versions_fit(before),
        values_fit(before.kv),
        0 <= count <= steps.len(),
    ensures
        versions_fit(found_by(before, steps, count)),
        values_fit(found_by(before, steps, count).kv),
    decreases count,
{
    if count > 0 {
        let i = count - 1;
        lemma_values_in_order(now_ms, before, ids, steps, i);
        a_requeueing_keeps_values_in_order(
            ids[i],
            now_ms,
            found_by(before, steps, i),
            Move::Done(Ok::<bool, Fault>(steps[i].queued)),
            steps[i].after,
        );
    }
}

/// A round keeps every value readable and of no later version than the data.
pub proof fn a_round_keeps_values_in_order(
    now_ms: i64,
    before: Tables,
    overdue: Seq<QueueRow>,
    steps: Seq<Requeueing>,
    told: nat,
    after: Tables,
)
    requires
        is_round(now_ms, before, overdue, steps, told, after),
        versions_fit(before),
        values_fit(before.kv),
    ensures
        versions_fit(after),
        values_fit(after.kv),
{
    lemma_values_in_order(now_ms, before, ids_of(overdue), steps, steps.len() as int);
}

} // verus!
