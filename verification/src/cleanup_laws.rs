//! What a cleanup of the running messages comes to.

use crate::error::Fault;
use crate::failure_laws::{a_task_that_succeeds_saw_no_failure, the_queue_reports_failures};
use crate::protocol::{
    end_of, is_run, leads_to, lemma_first_exchange, lemma_leads_on, lemma_next_exchange,
    lemma_no_exchange, no_failure, tables_after, times_told, Codec, Exchange, Protocol,
};
use crate::queue_laws::{a_requeueing_comes_to_what_is_requeued, is_requeued, RequeueRun};
use crate::request::{Action, Answer, Move};
use crate::requeue::{requeue_step, RequeueState};
use crate::running::{cleanup_expects, cleanup_from, cleanup_step, CleanupState};
use crate::tables::{ids_of, is_overdue, QueueRow, Tables};
use vstd::prelude::*;

verus! {

/// The moves of a round of the cleanup.
pub struct CleanupRun {
    pub now_ms: i64,
}

impl Protocol for CleanupRun {
    type State = CleanupState;

    type Output = bool;

    open spec fn next(self, state: CleanupState, answer: Answer, id: Seq<char>) -> (
        CleanupState,
        Move<bool>,
    ) {
        cleanup_step(self.now_ms, state, answer)
    }

    open spec fn expects(self, state: CleanupState, answer: Answer) -> bool {
        cleanup_expects(state, answer)
    }
}

impl CleanupRun {
    /// The first move.
    pub open spec fn start(self) -> (CleanupState, Move<bool>) {
        cleanup_step(self.now_ms, CleanupState::Fresh, Answer::Begin)
    }
}

/// What the requeueing of the message at `index` leads to in a round.
spec fn after_requeueing(
    codec: Codec,
    task: CleanupRun,
    ids: Seq<Seq<char>>,
    index: int,
    at: (CleanupState, Move<bool>),
    end: Move<bool>,
    tables: Tables,
    trace: Seq<Exchange>,
    k: int,
    after: Tables,
) -> bool {
    match end {
        Move::Done(Ok(queued)) => {
            let next = cleanup_from(ids, task.now_ms, index + 1);
            &&& leads_to(codec, task, at, tables, trace, k, next, after)
            &&& times_told(task, at, trace) == times_told(task, next, trace.skip(k)) + if queued {
                1nat
            } else {
                0nat
            }
        },
        _ => end_of(task, at, trace) == end && tables_after(tables, trace) == after,
    }
}

/// The rest of the requeueing of the message at `index`, and of the round after
/// it. `n` exchanges belong to the requeueing.
proof fn lemma_one_requeueing(
    codec: Codec,
    task: CleanupRun,
    ids: Seq<Seq<char>>,
    index: int,
    state: RequeueState,
    action: Action,
    tables: Tables,
    trace: Seq<Exchange>,
) -> (r: (int, int))
    requires
        0 <= index < ids.len(),
        is_run(
            codec,
            task,
            (CleanupState::Requeueing { ids, index, state }, Move::<bool>::Ask(action)),
            tables,
            trace,
        ),
        no_failure(trace),
        action != Action::ScheduleDequeue,
    ensures
        0 <= r.0 <= trace.len(),
        no_failure(trace.take(r.0)),
        is_run(
            codec,
            RequeueRun { id: ids[index], now_ms: task.now_ms },
            (state, Move::<bool>::Ask(action)),
            tables,
            trace.take(r.0),
        ),
        after_requeueing(
            codec,
            task,
            ids,
            index,
            (CleanupState::Requeueing { ids, index, state }, Move::<bool>::Ask(action)),
            end_of(
                RequeueRun { id: ids[index], now_ms: task.now_ms },
                (state, Move::<bool>::Ask(action)),
                trace.take(r.0),
            ),
            tables,
            trace,
            r.1,
            tables_after(tables, trace.take(r.0)),
        ),
    decreases trace.len(),
{
    let alone = RequeueRun { id: ids[index], now_ms: task.now_ms };
    let at = (CleanupState::Requeueing { ids, index, state }, Move::<bool>::Ask(action));
    let here = (state, Move::<bool>::Ask(action));
    lemma_first_exchange(codec, task, at, tables, trace);
    let e = trace[0];
    let next = requeue_step(ids[index], task.now_ms, state, e.answer);
    assert(alone.next(state, e.answer, e.id) == next);
    assert(alone.expects(state, e.answer));
    let then = task.next(at.0, e.answer, e.id);
    if let Move::Ask(asked) = next.1 {
        let (n, m) = lemma_one_requeueing(
            codec,
            task,
            ids,
            index,
            next.0,
            asked,
            e.tables,
            trace.skip(1),
        );
        let k = n + 1;
        let part = trace.take(k);
        assert(part.skip(1) =~= trace.skip(1).take(n));
        assert(is_run(codec, alone, here, tables, part));
        assert(end_of(alone, here, part) == end_of(alone, next, part.skip(1)));
        let after = tables_after(e.tables, part.skip(1));
        assert(tables_after(tables, part) == after);
        if let Move::Done(Ok(_)) = end_of(alone, here, part) {
            let on = cleanup_from(ids, task.now_ms, index + 1);
            lemma_leads_on(codec, task, at, tables, trace, 1, then, e.tables, m, on, after);
            assert(trace.skip(1).skip(m) =~= trace.skip(m + 1));
            assert(times_told(task, at, trace) == times_told(task, then, trace.skip(1)));
        }
        (k, m + 1)
    } else {
        let part = trace.take(1);
        assert(part.skip(1) =~= seq![]);
        assert(is_run(codec, alone, next, e.tables, part.skip(1)));
        assert(is_run(codec, alone, here, tables, part));
        assert(end_of(alone, here, part) == end_of(alone, next, part.skip(1)));
        if let Move::Done(Ok(true)) = next.1 {
            lemma_next_exchange(codec, task, at, tables, trace, 1, then, e.tables);
            let on = cleanup_from(ids, task.now_ms, index + 1);
            let rest = trace.skip(1);
            assert(rest.skip(1) =~= trace.skip(2));
            assert(task.next(then.0, rest[0].answer, rest[0].id) == on);
            assert(times_told(task, at, trace) == times_told(task, then, rest));
            assert(times_told(task, then, rest) == 1 + times_told(task, on, rest.skip(1)));
            (1, 2)
        } else if let Move::Done(Ok(false)) = next.1 {
            assert(times_told(task, at, trace) == times_told(task, then, trace.skip(1)));
            (1, 1)
        } else {
            lemma_no_exchange(codec, task, then, e.tables, trace.skip(1));
            (1, 1)
        }
    }
}

/// The messages from `index` on are requeued, which starts none.
proof fn lemma_starts_none(
    codec: Codec,
    task: CleanupRun,
    ids: Seq<Seq<char>>,
    index: int,
    tables: Tables,
    trace: Seq<Exchange>,
)
    requires
        0 <= index <= ids.len(),
        is_run(codec, task, cleanup_from(ids, task.now_ms, index), tables, trace),
        no_failure(trace),
    ensures
        tables_after(tables, trace).running.subset_of(tables.running),
    decreases ids.len() - index,
{
    let at = cleanup_from(ids, task.now_ms, index);
    if index < ids.len() {
        let alone = RequeueRun { id: ids[index], now_ms: task.now_ms };
        let (state, step) = alone.start();
        let (n, k) = lemma_one_requeueing(
            codec,
            task,
            ids,
            index,
            state,
            step->Ask_0,
            tables,
            trace,
        );
        let part = trace.take(n);
        let after = tables_after(tables, part);
        a_requeueing_comes_to_what_is_requeued(codec, alone, tables, part);
        if let Move::Done(Ok(_)) = end_of(alone, alone.start(), part) {
            lemma_starts_none(codec, task, ids, index + 1, after, trace.skip(k));
        }
    } else {
        lemma_no_exchange(codec, task, at, tables, trace);
    }
}

/// A round of the cleanup starts no message.
pub proof fn a_round_starts_no_message(
    codec: Codec,
    task: CleanupRun,
    before: Tables,
    trace: Seq<Exchange>,
)
    requires
        is_run(codec, task, task.start(), before, trace),
        no_failure(trace),
    ensures
        tables_after(before, trace).running.subset_of(before.running),
{
    lemma_first_exchange(codec, task, task.start(), before, trace);
    lemma_starts_none(codec, task, trace[0].answer->Ids_0, 0, before, trace.skip(1));
}

/// What the requeueing of one of the messages of a round came to: whether it was
/// queued again, and the tables after it.
pub struct Requeueing {
    pub queued: bool,
    pub after: Tables,
}

/// The tables that the requeueing at `index` finds.
pub open spec fn found_by(before: Tables, steps: Seq<Requeueing>, index: int) -> Tables {
    if index == 0 {
        before
    } else {
        steps[index - 1].after
    }
}

/// Whether `steps` are what the requeueings of the messages came to, each on the
/// tables that the one before it has left.
pub open spec fn are_requeued(
    now_ms: i64,
    before: Tables,
    ids: Seq<Seq<char>>,
    steps: Seq<Requeueing>,
) -> bool {
    &&& steps.len() <= ids.len()
    &&& forall|i: int|
        0 <= i < steps.len() ==> is_requeued(
            ids[i],
            now_ms,
            found_by(before, steps, i),
            Move::Done(Ok::<bool, Fault>(steps[i].queued)),
            (#[trigger] steps[i]).after,
        )
}

/// How many messages were queued again.
pub open spec fn times_queued(steps: Seq<Requeueing>) -> nat
    decreases steps.len(),
{
    if steps.len() == 0 {
        0
    } else if steps.last().queued {
        times_queued(steps.drop_last()) + 1
    } else {
        times_queued(steps.drop_last())
    }
}

/// Whether a round that finds the tables `before` requeues these messages, tells
/// those who wait so many times, and leaves the tables `after`.
pub open spec fn is_round(
    now_ms: i64,
    before: Tables,
    overdue: Seq<QueueRow>,
    steps: Seq<Requeueing>,
    told: nat,
    after: Tables,
) -> bool {
    &&& is_overdue(before.running, now_ms, overdue)
    &&& steps.len() == overdue.len()
    &&& are_requeued(now_ms, before, ids_of(overdue), steps)
    &&& told == times_queued(steps)
    &&& after == found_by(before, steps, steps.len() as int)
}

/// The messages that are left, after `steps`.
proof fn lemma_cleanup_from(
    codec: Codec,
    task: CleanupRun,
    ids: Seq<Seq<char>>,
    before: Tables,
    steps: Seq<Requeueing>,
    trace: Seq<Exchange>,
) -> (all: Seq<Requeueing>)
    requires
        are_requeued(task.now_ms, before, ids, steps),
        is_run(
            codec,
            task,
            cleanup_from(ids, task.now_ms, steps.len() as int),
            found_by(before, steps, steps.len() as int),
            trace,
        ),
        no_failure(trace),
        end_of(task, cleanup_from(ids, task.now_ms, steps.len() as int), trace) matches Move::Done(
            Ok(_),
        ),
    ensures
        all.len() == ids.len(),
        are_requeued(task.now_ms, before, ids, all),
        times_queued(all) == times_queued(steps) + times_told(
            task,
            cleanup_from(ids, task.now_ms, steps.len() as int),
            trace,
        ),
        tables_after(found_by(before, steps, steps.len() as int), trace) == found_by(
            before,
            all,
            all.len() as int,
        ),
        end_of(task, cleanup_from(ids, task.now_ms, steps.len() as int), trace) == Move::Done(
            Ok::<bool, Fault>(ids.len() == 0),
        ),
    decreases ids.len() - steps.len(),
{
    let index = steps.len() as int;
    let tables = found_by(before, steps, index);
    let at = cleanup_from(ids, task.now_ms, index);
    if index < ids.len() {
        let alone = RequeueRun { id: ids[index], now_ms: task.now_ms };
        let (state, step) = alone.start();
        let (n, k) = lemma_one_requeueing(
            codec,
            task,
            ids,
            index,
            state,
            step->Ask_0,
            tables,
            trace,
        );
        let part = trace.take(n);
        let after = tables_after(tables, part);
        a_requeueing_comes_to_what_is_requeued(codec, alone, tables, part);
        let queued = end_of(alone, alone.start(), part)->Done_0->Ok_0;
        let longer = steps.push(Requeueing { queued, after });
        assert(longer.drop_last() =~= steps);
        assert forall|i: int| 0 <= i < longer.len() implies is_requeued(
            ids[i],
            task.now_ms,
            found_by(before, longer, i),
            Move::Done(Ok::<bool, Fault>(longer[i].queued)),
            (#[trigger] longer[i]).after,
        ) by {
            assert(found_by(before, longer, i) == found_by(before, steps, i));
            if i < index {
                assert(longer[i] == steps[i]);
            }
        }
        lemma_cleanup_from(codec, task, ids, before, longer, trace.skip(k))
    } else {
        lemma_no_exchange(codec, task, at, tables, trace);
        steps
    }
}

/// A round of the cleanup that succeeds requeues the messages that it finds past
/// their deadline, one after another, and tells those who wait once for each that
/// it queues again. It is the last one exactly where it finds none.
pub proof fn a_round_requeues_the_overdue(
    codec: Codec,
    task: CleanupRun,
    before: Tables,
    trace: Seq<Exchange>,
) -> (round: (Seq<QueueRow>, Seq<Requeueing>))
    requires
        is_run(codec, task, task.start(), before, trace),
        end_of(task, task.start(), trace) matches Move::Done(Ok(_)),
    ensures
        is_round(
            task.now_ms,
            before,
            round.0,
            round.1,
            times_told(task, task.start(), trace),
            tables_after(before, trace),
        ),
        end_of(task, task.start(), trace) == Move::Done(Ok::<bool, Fault>(round.0.len() == 0)),
{
    let at = task.start();
    the_queue_reports_failures(task.now_ms, false, seq![], seq![]);
    a_task_that_succeeds_saw_no_failure(codec, task, at, before, trace);
    lemma_first_exchange(codec, task, at, before, trace);
    let overdue = choose|overdue: Seq<QueueRow>| #[trigger]
        is_overdue(before.running, task.now_ms, overdue) && trace[0].answer == Answer::Ids(
            ids_of(overdue),
        );
    let ids = ids_of(overdue);
    let steps = lemma_cleanup_from(codec, task, ids, before, seq![], trace.skip(1));
    assert(times_told(task, at, trace) == times_told(
        task,
        cleanup_from(ids, task.now_ms, 0),
        trace.skip(1),
    ));
    (overdue, steps)
}

} // verus!
