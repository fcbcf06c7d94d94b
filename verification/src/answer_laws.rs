//! That the tasks can be told whatever their requests are answered.

use crate::batch::{batch_expects, batch_step, Batch, BatchState};
use crate::cleanup_laws::Requeueing;
use crate::expiry::{collect_expects, collect_step, CollectState, Collected};
use crate::le64::Le64Op;
use crate::mutation_laws::numbers_fit;
use crate::protocol::{carries_out, Codec};
use crate::queue::{
    dequeue_expects, dequeue_step, next_ready_expects, next_ready_step, Delivery, DequeueState,
    Dequeued, SingleState,
};
use crate::queue_laws::{queue_fits, DequeueRun};
use crate::read::{snapshot_expects, snapshot_step, RangeModel, Snapshot, SnapshotState};
use crate::request::{Action, Answer, Message, Move, Sql};
use crate::requeue::{requeue_expects, requeue_step, RequeueState, UndeliveredModel};
use crate::running::{
    cleanup_expects, cleanup_step, finish_expects, finish_step, keepalive_expects, keepalive_step,
    CleanupState, FinishState, KeepaliveState,
};
use crate::schema::{migration_expects, migration_step, MigrationState};
use crate::sum::Parameters;
use crate::tables::{of_message, QueueRow, Tables};
use crate::write::{
    begin_mutation, mutation_step, write_expects, write_step, MutationModel, PhaseModel, StageModel,
    WriteModel, WriteMove, WriteOutcome,
};
use vstd::prelude::*;

verus! {

/// Whether a mutation that waits in a stage has asked for this.
spec fn stage_asks(stage: StageModel, action: Action) -> bool {
    match stage {
        StageModel::Storing => action matches Action::Sql(Sql::SetRow { .. }),
        StageModel::Deleting => action matches Action::Sql(Sql::DeleteRow { .. }),
        StageModel::CombiningNumbers { .. } => action matches Action::Sql(Sql::GetValue { .. }),
        StageModel::ReadingSum => action is ReadSum,
        StageModel::LoadingStored { .. } => action matches Action::Sql(Sql::GetValue { .. }),
        StageModel::ReadingStored { .. } => action is ReadStored,
        StageModel::AddingNumbers { .. } => action is AddNumbers,
        StageModel::WritingSum => action is WriteSum,
    }
}

/// Whether a write that waits in a phase has asked for this.
spec fn phase_asks(phase: PhaseModel, action: Action) -> bool {
    match phase {
        PhaseModel::Checking { .. } => action matches Action::Sql(Sql::GetVersion { .. }),
        PhaseModel::Drawing => action == (Action::DrawNumber { low: 1, high: 10 }),
        PhaseModel::Incrementing => action matches Action::Sql(Sql::IncrementDataVersion { .. }),
        PhaseModel::Mutating { stage, .. } => stage_asks(stage, action),
        PhaseModel::Enqueueing { .. } => action matches Action::Sql(Sql::AddReady { .. }),
        _ => false,
    }
}

/// What a move of a write asks for, if it does.
spec fn is_asking(next: WriteMove) -> bool {
    next.1 matches Move::Ask(action) ==> phase_asks(next.0, action)
}

proof fn lemma_begin_asks(mutation: MutationModel, version: i64, index: int)
    ensures
        is_asking(begin_mutation(mutation, version, index)),
{
}

proof fn lemma_mutation_asks(
    mutation: MutationModel,
    version: i64,
    index: int,
    stage: StageModel,
    told: Answer,
)
    ensures
        mutation_step(mutation, version, index, stage, told) matches Some(next) ==> is_asking(next),
{
}

proof fn lemma_write_asks(write: WriteModel, phase: PhaseModel, told: Answer, id: Seq<char>)
    ensures
        is_asking(write_step(write, phase, told, id)),
{
    match phase {
        PhaseModel::Mutating { index, version, stage } => {
            lemma_mutation_asks(write.mutations[index], version, index, stage, told);
            if index + 1 < write.mutations.len() {
                lemma_begin_asks(write.mutations[index + 1], version, index + 1);
            }
        },
        PhaseModel::Incrementing => {
            if let Answer::Version(version) = told {
                if write.mutations.len() > 0 {
                    lemma_begin_asks(write.mutations[0], version, 0);
                }
            }
        },
        _ => {},
    }
}

proof fn lemma_answered(
    codec: Codec,
    phase: PhaseModel,
    action: Action,
    before: Tables,
    answer: Answer,
    after: Tables,
)
    requires
        phase_asks(phase, action),
        carries_out(codec, before, action, answer, after),
        numbers_fit(before.kv),
    ensures
        write_expects(phase, answer),
{
}

/// A write takes every answer to what it asks for, where stored numbers have their
/// eight bytes.
pub proof fn a_write_takes_every_answer(
    codec: Codec,
    write: WriteModel,
    phase: PhaseModel,
    told: Answer,
    id: Seq<char>,
    action: Action,
    before: Tables,
    answer: Answer,
    after: Tables,
)
    requires
        write_step(write, phase, told, id).1 == Move::<WriteOutcome>::Ask(action),
        carries_out(codec, before, action, answer, after),
        numbers_fit(before.kv),
    ensures
        write_expects(write_step(write, phase, told, id).0, answer),
{
    lemma_write_asks(write, phase, told, id);
    let next = write_step(write, phase, told, id);
    assert(phase_asks(next.0, action));
    lemma_answered(codec, next.0, action, before, answer, after);
}

proof fn lemma_batch_asks(writes: Seq<WriteModel>, state: BatchState, told: Answer, id: Seq<char>)
    ensures
        ({
            let next = batch_step(writes, state, told, id);
            next.1 matches Move::Ask(action) ==> next.0 matches BatchState::Writing { phase, .. }
                && phase_asks(phase, action)
        }),
{
    if let BatchState::Writing { index, phase, batch } = state {
        lemma_write_asks(writes[index], phase, told, id);
    }
}

/// A batch takes every answer to what it asks for, where stored numbers have their
/// eight bytes.
pub proof fn a_batch_takes_every_answer(
    codec: Codec,
    writes: Seq<WriteModel>,
    state: BatchState,
    told: Answer,
    id: Seq<char>,
    action: Action,
    before: Tables,
    answer: Answer,
    after: Tables,
)
    requires
        batch_step(writes, state, told, id).1 == Move::<Batch>::Ask(action),
        carries_out(codec, before, action, answer, after),
        numbers_fit(before.kv),
    ensures
        batch_expects(batch_step(writes, state, told, id).0, answer),
{
    lemma_batch_asks(writes, state, told, id);
    let next = batch_step(writes, state, told, id);
    if let BatchState::Writing { phase, .. } = next.0 {
        assert(phase_asks(phase, action));
        lemma_answered(codec, phase, action, before, answer, after);
    }
}

/// A read takes every answer to what it asks for, where stored numbers have their
/// eight bytes.
pub proof fn a_read_takes_every_answer(
    codec: Codec,
    requests: Seq<RangeModel>,
    state: SnapshotState,
    told: Answer,
    action: Action,
    before: Tables,
    answer: Answer,
    after: Tables,
)
    requires
        snapshot_step(requests, state, told).1 == Move::<Snapshot>::Ask(action),
        carries_out(codec, before, action, answer, after),
        numbers_fit(before.kv),
    ensures
        snapshot_expects(snapshot_step(requests, state, told).0.phase, answer),
{
}

/// A dequeueing takes every answer to what it asks for, unless the message that it
/// takes is not in the queue just once.
pub proof fn a_dequeueing_takes_every_answer(
    codec: Codec,
    task: DequeueRun,
    state: DequeueState,
    told: Answer,
    action: Action,
    before: Tables,
    answer: Answer,
    after: Tables,
)
    requires
        dequeue_step(task.now_ms, task.can_dispatch, state, told).1 == Move::<Dequeued>::Ask(
            action,
        ),
        carries_out(codec, before, action, answer, after),
        action matches Action::Sql(Sql::RemoveReady { id }) ==> of_message(before.ready, id).len()
            == 1,
    ensures
        dequeue_expects(
            dequeue_step(task.now_ms, task.can_dispatch, state, told).0,
            answer,
        ),
{
}

/// A look at the queue takes every answer.
pub proof fn a_look_takes_every_answer(
    codec: Codec,
    state: SingleState,
    told: Answer,
    action: Action,
    before: Tables,
    answer: Answer,
    after: Tables,
)
    requires
        next_ready_step(state, told).1 == Move::<Option<i64>>::Ask(action),
        carries_out(codec, before, action, answer, after),
    ensures
        next_ready_expects(next_ready_step(state, told).0, answer),
{
}

/// A requeueing takes every answer to what it asks for, unless the message that it
/// takes is not running just once.
pub proof fn a_requeueing_takes_every_answer(
    codec: Codec,
    id: Seq<char>,
    now_ms: i64,
    state: RequeueState,
    told: Answer,
    action: Action,
    before: Tables,
    answer: Answer,
    after: Tables,
)
    requires
        requeue_step(id, now_ms, state, told).1 == Move::<bool>::Ask(action),
        carries_out(codec, before, action, answer, after),
        action matches Action::Sql(Sql::RemoveRunning { id }) ==> of_message(
            before.running,
            id,
        ).len() == 1,
    ensures
        requeue_expects(requeue_step(id, now_ms, state, told).0, answer),
{
}

/// The rows of a message that is in a table at most once.
proof fn lemma_at_most_one(rows: Set<QueueRow>, id: Seq<char>)
    requires
        rows.finite(),
        forall|a: QueueRow, b: QueueRow| #[trigger]
            rows.contains(a) && #[trigger] rows.contains(b) && a.id == b.id ==> a == b,
    ensures
        of_message(rows, id).len() <= 1,
{
    let own = of_message(rows, id);
    rows.lemma_len_filter(|row: QueueRow| row.id == id);
    if exists|row: QueueRow| own.contains(row) {
        let row = choose|row: QueueRow| own.contains(row);
        assert(own =~= Set::empty().insert(row));
    } else {
        assert(own =~= Set::empty());
    }
}

/// The end of a message takes every answer to what it asks for, where each message
/// is running once; a requeueing, where the message still is.
pub proof fn the_end_of_a_message_takes_every_answer(
    codec: Codec,
    id: Seq<char>,
    now_ms: i64,
    state: FinishState,
    told: Answer,
    action: Action,
    before: Tables,
    answer: Answer,
    after: Tables,
)
    requires
        finish_step(id, now_ms, state, told).1 == Move::<bool>::Ask(action),
        carries_out(codec, before, action, answer, after),
        queue_fits(before),
        state is Requeueing ==> (action matches Action::Sql(Sql::RemoveRunning { id })
            ==> of_message(before.running, id).len() == 1),
    ensures
        finish_expects(finish_step(id, now_ms, state, told).0, answer),
{
    if let FinishState::Requeueing(inner) = state {
        a_requeueing_takes_every_answer(
            codec,
            id,
            now_ms,
            inner,
            told,
            action,
            before,
            answer,
            after,
        );
    } else {
        lemma_at_most_one(before.running, id);
    }
}

/// Keeping messages alive takes every answer, where each message is running once.
pub proof fn a_keepalive_takes_every_answer(
    codec: Codec,
    ids: Seq<Seq<char>>,
    now_ms: i64,
    state: KeepaliveState,
    told: Answer,
    action: Action,
    before: Tables,
    answer: Answer,
    after: Tables,
)
    requires
        keepalive_step(ids, now_ms, state, told).1 == Move::<()>::Ask(action),
        carries_out(codec, before, action, answer, after),
        queue_fits(before),
    ensures
        keepalive_expects(keepalive_step(ids, now_ms, state, told).0, answer),
{
    if let Action::Sql(Sql::UpdateDeadline { id, .. }) = action {
        lemma_at_most_one(before.running, id);
    }
}

/// A round of the cleanup takes every answer to what it asks for, where the message
/// that it takes is running once.
pub proof fn a_cleanup_takes_every_answer(
    codec: Codec,
    now_ms: i64,
    state: CleanupState,
    told: Answer,
    action: Action,
    before: Tables,
    answer: Answer,
    after: Tables,
)
    requires
        cleanup_step(now_ms, state, told).1 == Move::<bool>::Ask(action),
        carries_out(codec, before, action, answer, after),
        action matches Action::Sql(Sql::RemoveRunning { id }) ==> of_message(
            before.running,
            id,
        ).len() == 1,
    ensures
        cleanup_expects(cleanup_step(now_ms, state, told).0, answer),
{
    if let CleanupState::Requeueing { ids, index, state: inner } = state {
        if let Move::Ask(_) = requeue_step(ids[index], now_ms, inner, told).1 {
            a_requeueing_takes_every_answer(
                codec,
                ids[index],
                now_ms,
                inner,
                told,
                action,
                before,
                answer,
                after,
            );
        }
    }
}

/// A collection takes every answer.
pub proof fn a_collection_takes_every_answer(
    codec: Codec,
    now_ms: i64,
    state: CollectState,
    told: Answer,
    action: Action,
    before: Tables,
    answer: Answer,
    after: Tables,
)
    requires
        collect_step(now_ms, state, told).1 == Move::<Collected>::Ask(action),
        carries_out(codec, before, action, answer, after),
    ensures
        collect_expects(collect_step(now_ms, state, told).0, answer),
{
}

/// Bringing the schema up to date takes every answer.
pub proof fn a_migration_takes_every_answer(
    codec: Codec,
    state: MigrationState,
    told: Answer,
    action: Action,
    before: Tables,
    answer: Answer,
    after: Tables,
)
    requires
        migration_step(state, told).1 == Move::<()>::Ask(action),
        carries_out(codec, before, action, answer, after),
    ensures
        migration_expects(migration_step(state, told).0, answer),
{
}

/// The number by which the data version is to grow is drawn from one up to nine.
pub proof fn versions_grow_by_one_to_nine(
    write: WriteModel,
    phase: PhaseModel,
    told: Answer,
    name: Seq<char>,
    id: Seq<char>,
    now_ms: i64,
    state: RequeueState,
)
    ensures
        write_step(write, phase, told, name).1 matches Move::Ask(Action::DrawNumber { low, high })
            ==> low == 1 && high == 10,
        requeue_step(id, now_ms, state, told).1 matches Move::Ask(Action::DrawNumber { low, high })
            ==> low == 1 && high == 10,
{
    lemma_write_asks(write, phase, told, name);
}

/// A message that a write queues gets just the name that was drawn for it.
pub proof fn a_message_gets_its_name(
    write: WriteModel,
    phase: PhaseModel,
    told: Answer,
    name: Seq<char>,
)
    ensures
        write_step(write, phase, told, name).1 matches Move::Ask(
            Action::Sql(Sql::AddReady { id, .. }),
        ) ==> id == name,
{
    match phase {
        PhaseModel::Mutating { index, version, stage } => {
            lemma_no_message(write.mutations[index], version, index, stage, told);
            if index + 1 < write.mutations.len() {
                lemma_begin_asks(write.mutations[index + 1], version, index + 1);
            }
        },
        PhaseModel::Incrementing => {
            if let Answer::Version(version) = told {
                if write.mutations.len() > 0 {
                    lemma_begin_asks(write.mutations[0], version, 0);
                }
            }
        },
        _ => {},
    }
}

proof fn lemma_no_message(
    mutation: MutationModel,
    version: i64,
    index: int,
    stage: StageModel,
    told: Answer,
)
    ensures
        mutation_step(mutation, version, index, stage, told) matches Some(next) ==> !(
        next.1 matches Move::Ask(Action::Sql(Sql::AddReady { .. }))),
{
}

/// A write goes on only where just one row was stored or queued, at most one was
/// deleted, and a stored number has its eight bytes.
pub proof fn a_write_minds_what_has_changed(
    index: int,
    version: i64,
    op: Le64Op,
    operand: u64,
    parameters: Parameters,
    bytes: Seq<u8>,
    n: usize,
    drawn: i64,
)
    ensures
        ({
            let at = |stage: StageModel| PhaseModel::Mutating { index, version, stage };
            let eight = Answer::RowValue(Some((bytes, 2i64)));
            &&& write_expects(at(StageModel::Storing), Answer::Changed(n)) <==> n == 1
            &&& write_expects(at(StageModel::Deleting), Answer::Changed(n)) <==> n <= 1
            &&& write_expects(at(StageModel::CombiningNumbers { op, operand }), eight)
                <==> bytes.len() == 8
            &&& write_expects(at(StageModel::LoadingStored { parameters }), eight) <==> bytes.len()
                == 8
            &&& write_expects(PhaseModel::Enqueueing { index, version }, Answer::Changed(n)) <==> n
                == 1
            &&& write_expects(PhaseModel::Drawing, Answer::Drawn(drawn)) <==> 1 <= drawn < 10
        }),
{
}

/// The tasks of the queue go on only where just one row of the message was added or
/// taken; the end of a message and a keepalive, where at most one was.
pub proof fn the_queue_minds_what_has_changed(
    message: Message,
    delivery: Delivery,
    id: Seq<char>,
    undelivered: UndeliveredModel,
    version: i64,
    at: int,
    requeued: bool,
    index: usize,
    n: usize,
)
    ensures
        dequeue_expects(DequeueState::Removing { message }, Answer::Changed(n)) <==> n == 1,
        dequeue_expects(DequeueState::Starting { message: delivery }, Answer::Changed(n)) <==> n
            == 1,
        requeue_expects(RequeueState::AddingReady { id }, Answer::Changed(n)) <==> n == 1,
        requeue_expects(
            RequeueState::Storing { message: undelivered, version, index: at },
            Answer::Changed(n),
        ) <==> n == 1,
        requeue_expects(RequeueState::Removing { requeued }, Answer::Changed(n)) <==> n == 1,
        finish_expects(FinishState::Removing, Answer::Changed(n)) <==> n <= 1,
        keepalive_expects(KeepaliveState::Updating { index }, Answer::Changed(n)) <==> n <= 1,
{
}

} // verus!
