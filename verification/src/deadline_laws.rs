//! What a whole cleanup comes to, and what keeps a message from it.

use crate::cleanup_laws::{a_round_requeues_the_overdue, CleanupRun};
use crate::clock::later;
use crate::error::Fault;
use crate::failure_laws::{a_task_that_succeeds_saw_no_failure, the_queue_reports_failures};
use crate::overdue_laws::{
    a_round_keeps_values_in_order, a_round_leaves_no_listed_message_running,
    a_round_makes_no_message, a_round_moves_the_overdue, can_wait, is_retried, is_running, retried,
};
use crate::protocol::{end_of, is_run, lemma_no_exchange, tables_after, times_told, Codec, Exchange};
use crate::queue::MESSAGE_DEADLINE_TIMEOUT_MS;
use crate::queue_laws::{is_known, queue_fits};
use crate::read_laws::values_fit;
use crate::request::Move;
use crate::running_laws::{a_keepalive_puts_deadlines_off, all_put_off, KeepaliveRun};
use crate::store_laws::versions_fit;
use crate::tables::{QueueRow, Tables};
use vstd::prelude::*;

verus! {

/// A round of a cleanup, and the tables after it.
pub struct CleanupRound {
    pub trace: Seq<Exchange>,
    pub after: Tables,
}

/// The tables that the round at `index` finds.
pub open spec fn tables_of_round(before: Tables, rounds: Seq<CleanupRound>, index: int) -> Tables {
    if index == 0 {
        before
    } else {
        rounds[index - 1].after
    }
}

/// Whether a round runs to its end so.
pub open spec fn is_cleanup_round(
    codec: Codec,
    task: CleanupRun,
    before: Tables,
    round: CleanupRound,
    done: bool,
) -> bool {
    &&& is_run(codec, task, task.start(), before, round.trace)
    &&& end_of(task, task.start(), round.trace) == Move::Done(Ok::<bool, Fault>(done))
    &&& round.after == tables_after(before, round.trace)
}

/// Whether `rounds` are those of a cleanup that succeeds: the last one, and no
/// other, is told to be the last one.
pub open spec fn is_cleanup(
    codec: Codec,
    task: CleanupRun,
    before: Tables,
    rounds: Seq<CleanupRound>,
) -> bool {
    &&& rounds.len() > 0
    &&& forall|i: int|
        0 <= i < rounds.len() ==> is_cleanup_round(
            codec,
            task,
            tables_of_round(before, rounds, i),
            #[trigger] rounds[i],
            i == rounds.len() - 1,
        )
}

/// A round that is not the last one leaves fewer messages running.
pub proof fn a_round_leaves_fewer_running(
    codec: Codec,
    task: CleanupRun,
    before: Tables,
    round: CleanupRound,
)
    requires
        is_cleanup_round(codec, task, before, round, false),
        before.running.finite(),
    ensures
        round.after.running.finite(),
        round.after.running.len() < before.running.len(),
{
    let (overdue, steps) = a_round_requeues_the_overdue(codec, task, before, round.trace);
    let told = times_told(task, task.start(), round.trace);
    a_round_leaves_no_listed_message_running(
        task.now_ms,
        before,
        overdue,
        steps,
        told,
        round.after,
        0,
    );
    let gone = overdue[0];
    assert(before.running.contains(gone));
    assert(!round.after.running.contains(gone));
    assert(round.after.running.subset_of(before.running.remove(gone)));
    vstd::set_lib::lemma_len_subset(round.after.running, before.running.remove(gone));
}

/// The last round finds no message past its deadline, and changes nothing.
pub proof fn the_last_round_finds_none(
    codec: Codec,
    task: CleanupRun,
    before: Tables,
    round: CleanupRound,
    row: QueueRow,
)
    requires
        is_cleanup_round(codec, task, before, round, true),
    ensures
        round.after == before,
        times_told(task, task.start(), round.trace) == 0,
        before.running.contains(row) ==> row.ts > task.now_ms,
{
    let (overdue, steps) = a_round_requeues_the_overdue(codec, task, before, round.trace);
    assert(!overdue.contains(row));
}

/// Whether a message that was past its deadline has been dealt with: it is in the
/// queue again where a waiting time was left to it, and is not known any more
/// where none was.
pub open spec fn is_settled(now_ms: i64, row: QueueRow, after: Tables) -> bool {
    if can_wait(row) {
        after.ready.contains(retried(now_ms, row))
    } else {
        !is_known(after, row.id)
    }
}

/// What holds after `count` rounds.
proof fn lemma_rounds_so_far(
    codec: Codec,
    task: CleanupRun,
    before: Tables,
    rounds: Seq<CleanupRound>,
    count: int,
    row: QueueRow,
)
    requires
        is_cleanup(codec, task, before, rounds),
        queue_fits(before),
        0 <= count <= rounds.len(),
    ensures
        ({
            let now = tables_of_round(before, rounds, count);
            &&& queue_fits(now)
            &&& now.running.contains(row) ==> before.running.contains(row)
            &&& before.ready.contains(row) ==> now.ready.contains(row)
            &&& before.running.contains(row) && row.ts > task.now_ms ==> now.running.contains(row)
            &&& before.running.contains(row) && row.ts <= task.now_ms ==> now.running.contains(row)
                || is_settled(task.now_ms, row, now)
        }),
    decreases count,
{
    if count > 0 {
        let i = count - 1;
        lemma_rounds_so_far(codec, task, before, rounds, i, row);
        let found = tables_of_round(before, rounds, i);
        let round = rounds[i];
        assert(is_cleanup_round(codec, task, found, round, i == rounds.len() - 1));
        let (overdue, steps) = a_round_requeues_the_overdue(codec, task, found, round.trace);
        let told = times_told(task, task.start(), round.trace);
        a_round_moves_the_overdue(task.now_ms, found, overdue, steps, told, round.after);
        a_round_makes_no_message(
            task.now_ms,
            found,
            overdue,
            steps,
            told,
            round.after,
            row.id,
        );
        if found.running.contains(row) && !round.after.running.contains(row) {
            assert(overdue.contains(row));
            let j = choose|j: int| 0 <= j < overdue.len() && overdue[j] == row;
            if can_wait(row) {
                assert(is_retried(task.now_ms, overdue, retried(task.now_ms, row)));
            } else {
                assert(!can_wait(overdue[j]));
            }
        }
    }
}

/// A cleanup takes exactly those messages from the running ones that are past
/// their deadline, and leaves the others as they were. Each that it takes is back
/// in the queue with its first waiting time used up, or, where it had none left,
/// is not known any more. No message leaves the queue.
pub proof fn a_cleanup_takes_the_overdue(
    codec: Codec,
    task: CleanupRun,
    before: Tables,
    rounds: Seq<CleanupRound>,
)
    requires
        is_cleanup(codec, task, before, rounds),
        queue_fits(before),
    ensures
        ({
            let after = rounds.last().after;
            &&& queue_fits(after)
            &&& after.running == before.running.filter(|row: QueueRow| row.ts > task.now_ms)
            &&& before.ready.subset_of(after.ready)
            &&& forall|row: QueueRow| #[trigger]
                before.running.contains(row) && row.ts <= task.now_ms ==> is_settled(
                    task.now_ms,
                    row,
                    after,
                )
        }),
{
    let after = rounds.last().after;
    let count = rounds.len() as int;
    let last = count - 1;
    let found = tables_of_round(before, rounds, last);
    assert(is_cleanup_round(codec, task, found, rounds[last], true));
    let left = before.running.filter(|row: QueueRow| row.ts > task.now_ms);
    assert forall|row: QueueRow| after.running.contains(row) <==> left.contains(row) by {
        lemma_rounds_so_far(codec, task, before, rounds, count, row);
        the_last_round_finds_none(codec, task, found, rounds[last], row);
    }
    assert(after.running =~= left);
    assert forall|row: QueueRow| before.ready.contains(row) implies after.ready.contains(row) by {
        lemma_rounds_so_far(codec, task, before, rounds, count, row);
    }
    assert forall|row: QueueRow| #[trigger]
        before.running.contains(row) && row.ts <= task.now_ms implies is_settled(
        task.now_ms,
        row,
        after,
    ) by {
        lemma_rounds_so_far(codec, task, before, rounds, count, row);
    }
    assert(queue_fits(after)) by {
        lemma_rounds_so_far(codec, task, before, rounds, count, arbitrary());
    }
}

/// What holds of the values after `count` rounds.
proof fn lemma_values_after_rounds(
    codec: Codec,
    task: CleanupRun,
    before: Tables,
    rounds: Seq<CleanupRound>,
    count: int,
)
    requires
        is_cleanup(codec, task, before, rounds),
        versions_fit(before),
        values_fit(before.kv),
        0 <= count <= rounds.len(),
    ensures
        versions_fit(tables_of_round(before, rounds, count)),
        values_fit(tables_of_round(before, rounds, count).kv),
    decreases count,
{
    if count > 0 {
        let i = count - 1;
        lemma_values_after_rounds(codec, task, before, rounds, i);
        let found = tables_of_round(before, rounds, i);
        let round = rounds[i];
        assert(is_cleanup_round(codec, task, found, round, i == rounds.len() - 1));
        let (overdue, steps) = a_round_requeues_the_overdue(codec, task, found, round.trace);
        let told = times_told(task, task.start(), round.trace);
        a_round_keeps_values_in_order(task.now_ms, found, overdue, steps, told, round.after);
    }
}

/// A cleanup keeps every value readable and of no later version than the data.
pub proof fn a_cleanup_keeps_values_in_order(
    codec: Codec,
    task: CleanupRun,
    before: Tables,
    rounds: Seq<CleanupRound>,
)
    requires
        is_cleanup(codec, task, before, rounds),
        versions_fit(before),
        values_fit(before.kv),
    ensures
        versions_fit(rounds.last().after),
        values_fit(rounds.last().after.kv),
{
    lemma_values_after_rounds(codec, task, before, rounds, rounds.len() as int);
}

/// Keeping messages alive keeps each in one place.
pub proof fn a_keepalive_keeps_each_in_one_place(
    before: Tables,
    deadline: i64,
    ids: Seq<Seq<char>>,
)
    requires
        queue_fits(before),
    ensures
        queue_fits(Tables { running: all_put_off(before.running, deadline, ids), ..before }),
{
    let put = |row: QueueRow|
        if ids.contains(row.id) {
            QueueRow { ts: deadline, ..row }
        } else {
            row
        };
    let after = all_put_off(before.running, deadline, ids);
    before.running.lemma_map_finite(put);
    assert(after == before.running.map(put));
    assert forall|a: QueueRow, b: QueueRow| #[trigger]
        after.contains(a) && #[trigger] after.contains(b) && a.id == b.id implies a == b by {
        let c = choose|c: QueueRow| before.running.contains(c) && a == put(c);
        let d = choose|d: QueueRow| before.running.contains(d) && b == put(d);
        assert(c.id == d.id);
        assert(c == d);
    }
    assert forall|a: QueueRow, b: QueueRow| #[trigger]
        before.ready.contains(a) && #[trigger] after.contains(b) implies a.id != b.id by {
        let d = choose|d: QueueRow| before.running.contains(d) && b == put(d);
        assert(before.running.contains(d));
    }
}

/// A message that is kept alive stays as it is in a cleanup before the deadline
/// that it got then, and is not running any more after one at that deadline or
/// later.
pub proof fn a_message_that_is_kept_alive_outlives_a_cleanup(
    codec: Codec,
    keepalive: KeepaliveRun,
    before: Tables,
    trace: Seq<Exchange>,
    row: QueueRow,
    cleanup: CleanupRun,
    rounds: Seq<CleanupRound>,
)
    requires
        queue_fits(before),
        keepalive.ids.len() <= usize::MAX,
        is_run(codec, keepalive, keepalive.start(), before, trace),
        end_of(keepalive, keepalive.start(), trace) == Move::Done(Ok::<(), Fault>(())),
        before.running.contains(row),
        keepalive.ids.contains(row.id),
        is_cleanup(codec, cleanup, tables_after(before, trace), rounds),
    ensures
        ({
            let deadline = keepalive.now_ms + MESSAGE_DEADLINE_TIMEOUT_MS;
            let after = rounds.last().after;
            if cleanup.now_ms < deadline {
                after.running.contains(QueueRow { ts: deadline as i64, ..row })
            } else {
                !is_running(after, row.id)
            }
        }),
{
    let kept = tables_after(before, trace);
    let ids = keepalive.ids;
    the_queue_reports_failures(keepalive.now_ms, false, seq![], ids);
    a_task_that_succeeds_saw_no_failure(codec, keepalive, keepalive.start(), before, trace);
    if later(keepalive.now_ms as int, MESSAGE_DEADLINE_TIMEOUT_MS as int) is None {
        lemma_no_exchange(codec, keepalive, keepalive.start(), before, trace);
    }
    a_keepalive_puts_deadlines_off(codec, keepalive, before, trace);
    let deadline = (keepalive.now_ms + MESSAGE_DEADLINE_TIMEOUT_MS) as i64;
    a_keepalive_keeps_each_in_one_place(before, deadline, ids);
    let put = |row: QueueRow|
        if ids.contains(row.id) {
            QueueRow { ts: deadline, ..row }
        } else {
            row
        };
    let new = put(row);
    assert(before.running.map(put).contains(new));
    assert(kept.running.contains(new));
    a_cleanup_takes_the_overdue(codec, cleanup, kept, rounds);
    let after = rounds.last().after;
    if is_running(after, row.id) {
        let found = choose|found: QueueRow| #[trigger]
            after.running.contains(found) && found.id == row.id;
        assert(kept.running.contains(found));
        assert(found == new);
    }
}

} // verus!
