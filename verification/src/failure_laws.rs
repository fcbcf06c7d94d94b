//! What a failed statement does to a task.

use crate::cleanup_laws::CleanupRun;
use crate::error::{Failure, Fault};
use crate::expiry_laws::CollectRun;
use crate::protocol::{end_of, is_run, no_failure, tables_after, Codec, Exchange, Protocol};
use crate::queue_laws::{DequeueRun, FinishRun, NextReadyRun, RequeueRun};
use crate::read::RangeModel;
use crate::read_laws::SnapshotRun;
use crate::request::{failed, Answer, Move};
use crate::running_laws::KeepaliveRun;
use crate::schema_laws::MigrationRun;
use crate::tables::Tables;
use crate::write::WriteModel;
use crate::write_laws::WriteRun;
use vstd::prelude::*;

verus! {

/// Whether a task ends in the failure of a statement when it is told of one.
pub open spec fn reports_failures<P: Protocol>(task: P) -> bool {
    forall|state: P::State, failure: Failure, id: Seq<char>|
        task.expects(state, Answer::Failed(failure)) ==> (#[trigger] task.next(
            state,
            Answer::Failed(failure),
            id,
        )).1 == failed::<P::Output>(failure)
}

/// A failed statement is the last one of its task, which ends in that failure and
/// leaves the tables as they were before it.
pub proof fn a_failed_statement_ends_a_task<P: Protocol>(
    codec: Codec,
    task: P,
    at: (P::State, Move<P::Output>),
    tables: Tables,
    trace: Seq<Exchange>,
    index: int,
    failure: Failure,
)
    requires
        reports_failures(task),
        is_run(codec, task, at, tables, trace),
        0 <= index < trace.len(),
        trace[index].answer == Answer::Failed(failure),
    ensures
        index == trace.len() - 1,
        end_of(task, at, trace) == Move::Done(Err::<P::Output, Fault>(Fault::Sqlite(failure))),
        tables_after(tables, trace) == tables_after(tables, trace.take(index)),
    decreases trace.len(),
{
    let e = trace[0];
    let next = task.next(at.0, e.answer, e.id);
    if index == 0 {
        assert(next.1 == failed::<P::Output>(failure));
        assert(is_run(codec, task, next, e.tables, trace.skip(1)));
        assert(trace.skip(1).len() == 0);
    } else {
        assert(trace.skip(1)[index - 1] == trace[index]);
        a_failed_statement_ends_a_task(
            codec,
            task,
            next,
            e.tables,
            trace.skip(1),
            index - 1,
            failure,
        );
        if index > 1 {
            assert(trace.skip(1).take(index - 1).last() == trace.take(index).last());
        }
    }
}

/// A task that ends without a fault has seen no failed statement.
pub proof fn a_task_that_succeeds_saw_no_failure<P: Protocol>(
    codec: Codec,
    task: P,
    at: (P::State, Move<P::Output>),
    tables: Tables,
    trace: Seq<Exchange>,
)
    requires
        reports_failures(task),
        is_run(codec, task, at, tables, trace),
        end_of(task, at, trace) matches Move::Done(Ok(_)),
    ensures
        no_failure(trace),
{
    assert forall|i: int| 0 <= i < trace.len() implies !(
    (#[trigger] trace[i]).answer is Failed) by {
        if trace[i].answer is Failed {
            let failure = trace[i].answer->Failed_0;
            a_failed_statement_ends_a_task(codec, task, at, tables, trace, i, failure);
        }
    }
}

/// A write reports the failure of a statement.
pub proof fn a_write_reports_failures(write: WriteModel)
    ensures
        reports_failures(WriteRun { write }),
{
}

/// A snapshot read reports the failure of a statement.
pub proof fn a_read_reports_failures(requests: Seq<RangeModel>)
    ensures
        reports_failures(SnapshotRun { requests }),
{
}

/// The tasks of the queue report the failure of a statement.
pub proof fn the_queue_reports_failures(
    now_ms: i64,
    can_dispatch: bool,
    id: Seq<char>,
    ids: Seq<Seq<char>>,
)
    ensures
        reports_failures(DequeueRun { now_ms, can_dispatch }),
        reports_failures(NextReadyRun {}),
        reports_failures(RequeueRun { id, now_ms }),
        reports_failures(FinishRun { id, now_ms }),
        reports_failures(KeepaliveRun { ids, now_ms }),
        reports_failures(CleanupRun { now_ms }),
{
}

/// A collection reports the failure of a statement.
pub proof fn a_collection_reports_failures(now_ms: i64)
    ensures
        reports_failures(CollectRun { now_ms }),
{
}

/// Bringing the schema up to date reports the failure of a statement.
pub proof fn a_migration_reports_failures()
    ensures
        reports_failures(MigrationRun {}),
{
}

} // verus!
