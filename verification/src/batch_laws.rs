//! What a batch of atomic writes comes to.

use crate::batch::{
    batch_after, batch_expects, batch_from, batch_step, batch_updates, batch_with, mutated_keys,
    paired, Batch, BatchState, WriteVerdict,
};
use crate::bytes::{bytes_less, lemma_bytes_less_asymmetric, lemma_bytes_less_irreflexive};
use crate::error::Fault;
use crate::notify::{updates_of, Update};
use crate::protocol::{end_of, is_run, lemma_no_exchange, tables_after, Codec, Exchange, Protocol};
use crate::read_laws::values_fit;
use crate::request::{Action, Answer, Move};
use crate::store_laws::{
    a_commit_makes_a_later_version, a_write_keeps_versions_in_order,
    a_write_never_lowers_the_version, a_write_stores_readable_values, a_write_tells_of_its_messages,
    versions_fit, writes,
};
use crate::tables::Tables;
use crate::versionstamp::{versionstamp_of, versionstamps_are_ordered};
use crate::write::{check_from, write_step, PhaseModel, WriteModel, WriteOutcome};
use crate::write_laws::WriteRun;
use vstd::prelude::*;

verus! {

/// The moves of a batch.
pub struct BatchRun {
    pub writes: Seq<WriteModel>,
}

impl Protocol for BatchRun {
    type State = BatchState;

    type Output = Batch;

    open spec fn next(self, state: BatchState, answer: Answer, id: Seq<char>) -> (
        BatchState,
        Move<Batch>,
    ) {
        batch_step(self.writes, state, answer, id)
    }

    open spec fn expects(self, state: BatchState, answer: Answer) -> bool {
        batch_expects(state, answer)
    }
}

/// The batch before its first write.
pub open spec fn empty_batch() -> Batch {
    Batch { has_enqueues: false, results: seq![] }
}

/// The last move of a write that runs by itself.
pub open spec fn write_end(write: WriteModel, trace: Seq<Exchange>) -> Move<WriteOutcome> {
    end_of(WriteRun { write }, check_from(write, 0), trace)
}

/// The exchanges of one write of a batch, and the tables after them.
pub struct Part {
    pub trace: Seq<Exchange>,
    pub after: Tables,
}

/// The tables that the write at `index` finds.
pub open spec fn tables_at(before: Tables, parts: Seq<Part>, index: int) -> Tables {
    if index == 0 {
        before
    } else {
        parts[index - 1].after
    }
}

/// Whether a part is a run of a write by itself, to its end.
pub open spec fn is_part(codec: Codec, write: WriteModel, before: Tables, part: Part) -> bool {
    &&& is_run(codec, WriteRun { write }, check_from(write, 0), before, part.trace)
    &&& write_end(write, part.trace) is Done
    &&& part.after == tables_after(before, part.trace)
}

/// Whether `parts` are runs of the writes, each on the tables that the one before
/// it has left.
pub open spec fn are_parts(
    codec: Codec,
    writes: Seq<WriteModel>,
    before: Tables,
    parts: Seq<Part>,
) -> bool {
    &&& parts.len() <= writes.len()
    &&& forall|i: int|
        0 <= i < parts.len() ==> is_part(
            codec,
            writes[i],
            tables_at(before, parts, i),
            #[trigger] parts[i],
        )
}

/// What the parts come to together.
pub open spec fn batch_of(writes: Seq<WriteModel>, parts: Seq<Part>) -> Batch
    decreases parts.len(),
{
    if parts.len() == 0 {
        empty_batch()
    } else {
        batch_with(
            batch_of(writes, parts.drop_last()),
            write_end(writes[parts.len() - 1], parts.last().trace)->Done_0,
        )
    }
}

/// The exchanges of the parts, one part after another.
pub open spec fn joined(parts: Seq<Part>) -> Seq<Exchange>
    decreases parts.len(),
{
    if parts.len() == 0 {
        seq![]
    } else {
        joined(parts.drop_last()) + parts.last().trace
    }
}

/// The rest of the write at `index`, and of the batch after it.
proof fn lemma_one_write(
    codec: Codec,
    writes: Seq<WriteModel>,
    index: int,
    phase: PhaseModel,
    action: Action,
    batch: Batch,
    tables: Tables,
    trace: Seq<Exchange>,
) -> (k: int)
    requires
        0 <= index < writes.len(),
        is_run(
            codec,
            BatchRun { writes },
            (BatchState::Writing { index, phase, batch }, Move::<Batch>::Ask(action)),
            tables,
            trace,
        ),
    ensures
        0 < k <= trace.len(),
        is_run(
            codec,
            WriteRun { write: writes[index] },
            (phase, Move::<WriteOutcome>::Ask(action)),
            tables,
            trace.take(k),
        ),
        ({
            let end = end_of(
                WriteRun { write: writes[index] },
                (phase, Move::<WriteOutcome>::Ask(action)),
                trace.take(k),
            );
            let after = tables_after(tables, trace.take(k));
            let next = batch_from(writes, batch_with(batch, end->Done_0), index + 1);
            &&& end is Done
            &&& is_run(codec, BatchRun { writes }, next, after, trace.skip(k))
            &&& end_of(
                BatchRun { writes },
                (BatchState::Writing { index, phase, batch }, Move::<Batch>::Ask(action)),
                trace,
            ) == end_of(BatchRun { writes }, next, trace.skip(k))
            &&& tables_after(tables, trace) == tables_after(after, trace.skip(k))
        }),
    decreases trace.len(),
{
    let task = BatchRun { writes };
    let alone = WriteRun { write: writes[index] };
    let at = (BatchState::Writing { index, phase, batch }, Move::<Batch>::Ask(action));
    let e = trace[0];
    let next = write_step(writes[index], phase, e.answer, e.id);
    let here = (phase, Move::<WriteOutcome>::Ask(action));
    assert(task.next(at.0, e.answer, e.id) == batch_after(writes, batch, index, next));
    assert(alone.next(phase, e.answer, e.id) == next);
    assert(alone.expects(phase, e.answer));
    if let Move::Ask(asked) = next.1 {
        let n = lemma_one_write(
            codec,
            writes,
            index,
            next.0,
            asked,
            batch,
            e.tables,
            trace.skip(1),
        );
        let k = n + 1;
        let part = trace.take(k);
        assert(part.skip(1) =~= trace.skip(1).take(n));
        assert(trace.skip(1).skip(n) =~= trace.skip(k));
        assert(is_run(codec, alone, here, tables, part));
        assert(end_of(alone, here, part) == end_of(alone, next, part.skip(1)));
        assert(tables_after(tables, part) == tables_after(e.tables, part.skip(1)));
        k
    } else {
        let part = trace.take(1);
        assert(part.skip(1) =~= seq![]);
        assert(is_run(codec, alone, next, e.tables, part.skip(1)));
        assert(is_run(codec, alone, here, tables, part));
        assert(end_of(alone, here, part) == end_of(alone, next, part.skip(1)));
        1
    }
}

/// A part takes its exchanges from the front of those that are left.
proof fn lemma_joined(parts: Seq<Part>, part: Part, trace: Seq<Exchange>, k: int)
    requires
        0 <= k <= trace.len(),
        part.trace == trace.take(k),
    ensures
        joined(parts.push(part)) + trace.skip(k) == joined(parts) + trace,
{
    let longer = parts.push(part);
    assert(longer.drop_last() =~= parts);
    assert(trace.take(k) + trace.skip(k) =~= trace);
    assert(joined(longer) == joined(parts) + trace.take(k));
    assert((joined(parts) + trace.take(k)) + trace.skip(k) =~= joined(parts) + trace);
}

/// The writes from `index` on.
proof fn lemma_batch_from(
    codec: Codec,
    writes: Seq<WriteModel>,
    before: Tables,
    parts: Seq<Part>,
    trace: Seq<Exchange>,
) -> (all: Seq<Part>)
    requires
        are_parts(codec, writes, before, parts),
        is_run(
            codec,
            BatchRun { writes },
            batch_from(writes, batch_of(writes, parts), parts.len() as int),
            tables_at(before, parts, parts.len() as int),
            trace,
        ),
    ensures
        all.len() == writes.len(),
        are_parts(codec, writes, before, all),
        joined(all) == joined(parts) + trace,
        end_of(
            BatchRun { writes },
            batch_from(writes, batch_of(writes, parts), parts.len() as int),
            trace,
        ) == Move::Done(Ok::<Batch, Fault>(batch_of(writes, all))),
        tables_after(tables_at(before, parts, parts.len() as int), trace) == tables_at(
            before,
            all,
            all.len() as int,
        ),
    decreases writes.len() - parts.len(),
{
    let task = BatchRun { writes };
    let index = parts.len() as int;
    let batch = batch_of(writes, parts);
    let tables = tables_at(before, parts, index);
    let at = batch_from(writes, batch, index);
    if index < writes.len() {
        let write = writes[index];
        let (phase, step) = check_from(write, 0);
        let k = lemma_one_write(
            codec,
            writes,
            index,
            phase,
            step->Ask_0,
            batch,
            tables,
            trace,
        );
        let part = Part { trace: trace.take(k), after: tables_after(tables, trace.take(k)) };
        let longer = parts.push(part);
        assert(longer.drop_last() =~= parts);
        assert(are_parts(codec, writes, before, longer)) by {
            assert forall|i: int| 0 <= i < longer.len() implies is_part(
                codec,
                writes[i],
                tables_at(before, longer, i),
                #[trigger] longer[i],
            ) by {
                assert(tables_at(before, longer, i) == tables_at(before, parts, i));
                if i < index {
                    assert(longer[i] == parts[i]);
                }
            }
        }
        lemma_joined(parts, part, trace, k);
        lemma_batch_from(codec, writes, before, longer, trace.skip(k))
    } else {
        lemma_no_exchange(codec, task, at, tables, trace);
        assert(joined(parts) + trace =~= joined(parts));
        parts
    }
}

/// The result of a write that came to its end so.
pub open spec fn verdict_of(end: Move<WriteOutcome>) -> WriteVerdict {
    match end->Done_0 {
        Ok(outcome) => Ok(outcome.commit),
        Err(fault) => Err(fault),
    }
}

proof fn lemma_batch_results(writes: Seq<WriteModel>, parts: Seq<Part>)
    ensures
        batch_of(writes, parts).results.len() == parts.len(),
        forall|i: int|
            0 <= i < parts.len() ==> #[trigger] batch_of(writes, parts).results[i] == verdict_of(
                write_end(writes[i], parts[i].trace),
            ),
    decreases parts.len(),
{
    if parts.len() > 0 {
        let fewer = parts.drop_last();
        lemma_batch_results(writes, fewer);
        assert forall|i: int| 0 <= i < parts.len() implies #[trigger] batch_of(
            writes,
            parts,
        ).results[i] == verdict_of(write_end(writes[i], parts[i].trace)) by {
            if i < fewer.len() {
                assert(batch_of(writes, fewer).results[i] == verdict_of(
                    write_end(writes[i], fewer[i].trace),
                ));
            }
        }
    }
}

/// Whether `parts` are those of a batch that ends so: its exchanges are theirs,
/// each part is a run of its write on the tables that the one before it has
/// left, and the results are theirs.
pub open spec fn is_split(
    codec: Codec,
    writes: Seq<WriteModel>,
    before: Tables,
    trace: Seq<Exchange>,
    parts: Seq<Part>,
) -> bool {
    let batch = batch_of(writes, parts);
    &&& parts.len() == writes.len()
    &&& are_parts(codec, writes, before, parts)
    &&& trace == joined(parts)
    &&& tables_after(before, trace) == tables_at(before, parts, parts.len() as int)
    &&& end_of(BatchRun { writes }, batch_from(writes, empty_batch(), 0), trace) == Move::Done(
        Ok::<Batch, Fault>(batch),
    )
    &&& batch.results.len() == writes.len()
    &&& forall|i: int|
        0 <= i < writes.len() ==> #[trigger] batch.results[i] == verdict_of(
            write_end(writes[i], parts[i].trace),
        )
}

/// A batch carries its writes out one after another, each on the tables that the
/// one before it has left, whatever became of that one, and gives a result for
/// each of them.
pub proof fn a_batch_is_its_writes(
    codec: Codec,
    writes: Seq<WriteModel>,
    before: Tables,
    trace: Seq<Exchange>,
) -> (parts: Seq<Part>)
    requires
        is_run(
            codec,
            BatchRun { writes },
            batch_from(writes, empty_batch(), 0),
            before,
            trace,
        ),
    ensures
        is_split(codec, writes, before, trace, parts),
{
    let parts = lemma_batch_from(codec, writes, before, seq![], trace);
    lemma_batch_results(writes, parts);
    assert(joined(seq![]) + trace =~= trace);
    parts
}

/// A part is a write.
proof fn lemma_part_writes(
    codec: Codec,
    batch: Seq<WriteModel>,
    before: Tables,
    parts: Seq<Part>,
    i: int,
)
    requires
        are_parts(codec, batch, before, parts),
        0 <= i < parts.len(),
    ensures
        writes(
            codec,
            batch[i],
            tables_at(before, parts, i),
            parts[i].trace,
            write_end(batch[i], parts[i].trace),
            tables_at(before, parts, i + 1),
        ),
{
    assert(is_part(codec, batch[i], tables_at(before, parts, i), parts[i]));
}

/// Later writes of a batch do not find an earlier version of the data.
proof fn lemma_versions_climb(
    codec: Codec,
    writes: Seq<WriteModel>,
    before: Tables,
    parts: Seq<Part>,
    i: int,
    j: int,
)
    requires
        are_parts(codec, writes, before, parts),
        0 <= i <= j <= parts.len(),
    ensures
        tables_at(before, parts, i).data_version <= tables_at(before, parts, j).data_version,
    decreases j - i,
{
    if i < j {
        lemma_part_writes(codec, writes, before, parts, i);
        a_write_never_lowers_the_version(
            codec,
            writes[i],
            tables_at(before, parts, i),
            parts[i].trace,
            write_end(writes[i], parts[i].trace),
            tables_at(before, parts, i + 1),
        );
        lemma_versions_climb(codec, writes, before, parts, i + 1, j);
    }
}

/// A write of a batch that commits hands out the versionstamp of a later version
/// than it has found.
proof fn lemma_part_version(
    codec: Codec,
    writes: Seq<WriteModel>,
    before: Tables,
    parts: Seq<Part>,
    i: int,
)
    requires
        are_parts(codec, writes, before, parts),
        0 <= i < parts.len(),
        verdict_of(write_end(writes[i], parts[i].trace)) matches Ok(Some(_)),
    ensures
        tables_at(before, parts, i).data_version < tables_at(before, parts, i + 1).data_version,
        verdict_of(write_end(writes[i], parts[i].trace))->Ok_0->0 == versionstamp_of(
            tables_at(before, parts, i + 1).data_version as int,
        ),
{
    lemma_part_writes(codec, writes, before, parts, i);
    assert(is_part(codec, writes[i], tables_at(before, parts, i), parts[i]));
    a_commit_makes_a_later_version(
        codec,
        writes[i],
        tables_at(before, parts, i),
        parts[i].trace,
        write_end(writes[i], parts[i].trace),
        tables_at(before, parts, i + 1),
    );
}

/// The versionstamps of two versions are in their order.
proof fn lemma_not_later(first: i64, second: i64)
    requires
        0 <= first <= second,
    ensures
        !bytes_less(versionstamp_of(second as int), versionstamp_of(first as int)),
{
    let a = versionstamp_of(first as int);
    let b = versionstamp_of(second as int);
    if first < second {
        versionstamps_are_ordered(first, second);
        lemma_bytes_less_asymmetric(a, b);
    } else {
        lemma_bytes_less_irreflexive(a);
    }
}

/// A versionstamp that a batch hands out comes after that of the version before
/// the batch, and is not later than that of the version after it.
pub proof fn the_versionstamps_of_a_batch_are_its_own(
    codec: Codec,
    writes: Seq<WriteModel>,
    before: Tables,
    trace: Seq<Exchange>,
    batch: Batch,
    i: int,
)
    requires
        is_run(
            codec,
            BatchRun { writes },
            batch_from(writes, empty_batch(), 0),
            before,
            trace,
        ),
        end_of(BatchRun { writes }, batch_from(writes, empty_batch(), 0), trace) == Move::Done(
            Ok::<Batch, Fault>(batch),
        ),
        before.data_version >= 0,
        0 <= i < writes.len(),
        batch.results[i] matches Ok(Some(_)),
    ensures
        bytes_less(versionstamp_of(before.data_version as int), batch.results[i]->Ok_0->0),
        !bytes_less(
            versionstamp_of(tables_after(before, trace).data_version as int),
            batch.results[i]->Ok_0->0,
        ),
{
    let parts = a_batch_is_its_writes(codec, writes, before, trace);
    let count = parts.len() as int;
    assert(batch.results[i] == verdict_of(write_end(writes[i], parts[i].trace)));
    lemma_part_version(codec, writes, before, parts, i);
    lemma_versions_climb(codec, writes, before, parts, 0, i);
    lemma_versions_climb(codec, writes, before, parts, i + 1, count);
    let own = tables_at(before, parts, i + 1).data_version;
    versionstamps_are_ordered(before.data_version, own);
    lemma_not_later(own, tables_at(before, parts, count).data_version);
}

/// The versionstamps that a batch hands out climb from write to write, whatever
/// became of those between. They come after that of the version before the batch,
/// and are not later than that of the version after it.
pub proof fn the_versionstamps_of_a_batch_climb(
    codec: Codec,
    writes: Seq<WriteModel>,
    before: Tables,
    trace: Seq<Exchange>,
    batch: Batch,
    i: int,
    j: int,
)
    requires
        is_run(
            codec,
            BatchRun { writes },
            batch_from(writes, empty_batch(), 0),
            before,
            trace,
        ),
        end_of(BatchRun { writes }, batch_from(writes, empty_batch(), 0), trace) == Move::Done(
            Ok::<Batch, Fault>(batch),
        ),
        before.data_version >= 0,
        0 <= i < j < writes.len(),
        batch.results[i] matches Ok(Some(_)),
        batch.results[j] matches Ok(Some(_)),
    ensures
        bytes_less(versionstamp_of(before.data_version as int), batch.results[i]->Ok_0->0),
        bytes_less(batch.results[i]->Ok_0->0, batch.results[j]->Ok_0->0),
        !bytes_less(
            versionstamp_of(tables_after(before, trace).data_version as int),
            batch.results[j]->Ok_0->0,
        ),
{
    the_versionstamps_of_a_batch_are_its_own(codec, writes, before, trace, batch, i);
    the_versionstamps_of_a_batch_are_its_own(codec, writes, before, trace, batch, j);
    let parts = a_batch_is_its_writes(codec, writes, before, trace);
    assert(batch.results[i] == verdict_of(write_end(writes[i], parts[i].trace)));
    assert(batch.results[j] == verdict_of(write_end(writes[j], parts[j].trace)));
    lemma_part_version(codec, writes, before, parts, i);
    lemma_part_version(codec, writes, before, parts, j);
    lemma_versions_climb(codec, writes, before, parts, 0, i);
    lemma_versions_climb(codec, writes, before, parts, i + 1, j);
    versionstamps_are_ordered(
        tables_at(before, parts, i + 1).data_version,
        tables_at(before, parts, j + 1).data_version,
    );
}

/// Whether a write with that result has queued messages.
pub open spec fn queues_messages(write: WriteModel, result: WriteVerdict) -> bool {
    result matches Ok(Some(_)) && write.enqueues.len() > 0
}

/// Whether a write that ends so makes its messages known.
spec fn tells_of_messages(write: WriteModel, end: Move<WriteOutcome>) -> bool {
    match end->Done_0 {
        Ok(outcome) => outcome.has_enqueues == queues_messages(write, verdict_of(end)),
        Err(_) => true,
    }
}

/// What the parts make known of messages.
proof fn lemma_batch_notice(writes: Seq<WriteModel>, parts: Seq<Part>)
    requires
        forall|i: int|
            0 <= i < parts.len() ==> tells_of_messages(
                writes[i],
                write_end(writes[i], (#[trigger] parts[i]).trace),
            ),
    ensures
        batch_of(writes, parts).has_enqueues <==> exists|i: int|
            0 <= i < parts.len() && queues_messages(
                writes[i],
                verdict_of(write_end(writes[i], (#[trigger] parts[i]).trace)),
            ),
    decreases parts.len(),
{
    if parts.len() > 0 {
        let fewer = parts.drop_last();
        let last = parts.len() - 1;
        assert forall|i: int| 0 <= i < fewer.len() implies tells_of_messages(
            writes[i],
            write_end(writes[i], (#[trigger] fewer[i]).trace),
        ) by {
            assert(fewer[i] == parts[i]);
        }
        lemma_batch_notice(writes, fewer);
        let end = write_end(writes[last], parts[last].trace);
        assert(tells_of_messages(writes[last], end));
        assert(batch_of(writes, parts).has_enqueues == (batch_of(writes, fewer).has_enqueues
            || queues_messages(writes[last], verdict_of(end))));
        if batch_of(writes, fewer).has_enqueues {
            let i = choose|i: int|
                0 <= i < fewer.len() && queues_messages(
                    writes[i],
                    verdict_of(write_end(writes[i], (#[trigger] fewer[i]).trace)),
                );
            assert(parts[i] == fewer[i]);
        }
        if exists|i: int|
            0 <= i < parts.len() && queues_messages(
                writes[i],
                verdict_of(write_end(writes[i], (#[trigger] parts[i]).trace)),
            ) {
            let i = choose|i: int|
                0 <= i < parts.len() && queues_messages(
                    writes[i],
                    verdict_of(write_end(writes[i], (#[trigger] parts[i]).trace)),
                );
            if i < last {
                assert(parts[i] == fewer[i]);
            }
        }
    }
}

/// Those who wait for messages are told of a batch exactly where one of its
/// writes has committed and has messages.
pub proof fn a_batch_tells_of_its_messages(
    codec: Codec,
    writes: Seq<WriteModel>,
    before: Tables,
    trace: Seq<Exchange>,
    batch: Batch,
)
    requires
        is_run(
            codec,
            BatchRun { writes },
            batch_from(writes, empty_batch(), 0),
            before,
            trace,
        ),
        end_of(BatchRun { writes }, batch_from(writes, empty_batch(), 0), trace) == Move::Done(
            Ok::<Batch, Fault>(batch),
        ),
    ensures
        batch.has_enqueues <==> exists|i: int|
            0 <= i < writes.len() && queues_messages(writes[i], #[trigger] batch.results[i]),
{
    let parts = a_batch_is_its_writes(codec, writes, before, trace);
    assert forall|i: int| 0 <= i < parts.len() implies tells_of_messages(
        writes[i],
        write_end(writes[i], (#[trigger] parts[i]).trace),
    ) by {
        let end = write_end(writes[i], parts[i].trace);
        lemma_part_writes(codec, writes, before, parts, i);
        assert(is_part(codec, writes[i], tables_at(before, parts, i), parts[i]));
        if end->Done_0 is Ok {
            a_write_tells_of_its_messages(
                codec,
                writes[i],
                tables_at(before, parts, i),
                parts[i].trace,
                end,
                tables_at(before, parts, i + 1),
            );
        }
    }
    lemma_batch_notice(writes, parts);
    if batch.has_enqueues {
        let i = choose|i: int|
            0 <= i < parts.len() && queues_messages(
                writes[i],
                verdict_of(write_end(writes[i], (#[trigger] parts[i]).trace)),
            );
        assert(queues_messages(writes[i], batch.results[i]));
    }
    if exists|i: int|
        0 <= i < writes.len() && queues_messages(writes[i], #[trigger] batch.results[i]) {
        let i = choose|i: int|
            0 <= i < writes.len() && queues_messages(writes[i], #[trigger] batch.results[i]);
        assert(parts[i].trace == parts[i].trace);
    }
}

proof fn lemma_parts_in_order(
    codec: Codec,
    writes: Seq<WriteModel>,
    before: Tables,
    parts: Seq<Part>,
    count: int,
)
    requires
        are_parts(codec, writes, before, parts),
        0 <= count <= parts.len(),
        versions_fit(before),
        values_fit(before.kv),
    ensures
        versions_fit(tables_at(before, parts, count)),
        values_fit(tables_at(before, parts, count).kv),
    decreases count,
{
    if count > 0 {
        let i = count - 1;
        lemma_parts_in_order(codec, writes, before, parts, i);
        lemma_part_writes(codec, writes, before, parts, i);
        let found = tables_at(before, parts, i);
        let left = tables_at(before, parts, count);
        let trace = parts[i].trace;
        let end = write_end(writes[i], trace);
        a_write_keeps_versions_in_order(codec, writes[i], found, trace, end, left);
        a_write_stores_readable_values(codec, writes[i], found, trace, end, left);
    }
}

/// A batch keeps every value readable and of a version that the data has had,
/// and does not lower the version of the data, whatever became of its writes.
pub proof fn a_batch_keeps_values_in_order(
    codec: Codec,
    writes: Seq<WriteModel>,
    before: Tables,
    trace: Seq<Exchange>,
)
    requires
        is_run(
            codec,
            BatchRun { writes },
            batch_from(writes, empty_batch(), 0),
            before,
            trace,
        ),
        versions_fit(before),
        values_fit(before.kv),
    ensures
        versions_fit(tables_after(before, trace)),
        values_fit(tables_after(before, trace).kv),
        before.data_version <= tables_after(before, trace).data_version,
{
    let parts = a_batch_is_its_writes(codec, writes, before, trace);
    lemma_parts_in_order(codec, writes, before, parts, parts.len() as int);
    lemma_versions_climb(codec, writes, before, parts, 0, parts.len() as int);
}

proof fn lemma_batch_updates(
    writes: Seq<WriteModel>,
    results: Seq<WriteVerdict>,
    count: int,
    update: Update,
)
    requires
        0 <= count <= writes.len(),
        count <= results.len(),
    ensures
        batch_updates(writes, results, count).contains(update) <==> exists|i: int|
            0 <= i < count && #[trigger] announces(writes[i], results[i], update),
    decreases count,
{
    if count > 0 {
        let earlier = batch_updates(writes, results, count - 1);
        lemma_batch_updates(writes, results, count - 1, update);
        let write = writes[count - 1];
        let result = results[count - 1];
        let new = match result {
            Ok(Some(versionstamp)) => updates_of(mutated_keys(write.mutations), versionstamp),
            _ => seq![],
        };
        assert(batch_updates(writes, results, count) =~= earlier + new);
        assert(new.contains(update) <==> announces(write, result, update)) by {
            if new.contains(update) {
                let j = choose|j: int| 0 <= j < new.len() && new[j] == update;
                assert(write.mutations[j].key == update.key);
            }
            if announces(write, result, update) {
                let j = choose|j: int|
                    0 <= j < write.mutations.len() && (#[trigger] write.mutations[j]).key
                        == update.key;
                assert(new[j] == update);
            }
        }
        assert((earlier + new).contains(update) <==> earlier.contains(update) || new.contains(
            update,
        )) by {
            if earlier.contains(update) {
                let j = choose|j: int| 0 <= j < earlier.len() && earlier[j] == update;
                assert((earlier + new)[j] == update);
            }
            if new.contains(update) {
                let j = choose|j: int| 0 <= j < new.len() && new[j] == update;
                assert((earlier + new)[earlier.len() + j] == update);
            }
        }
        if announces(write, result, update) {
            assert(announces(writes[count - 1], results[count - 1], update));
        }
    }
}

/// Whether a write with that result makes it known that a key has changed.
pub open spec fn announces(write: WriteModel, result: WriteVerdict, update: Update) -> bool {
    &&& result == Ok::<Option<Seq<u8>>, Fault>(Some(update.versionstamp))
    &&& exists|j: int|
        0 <= j < write.mutations.len() && (#[trigger] write.mutations[j]).key == update.key
}

/// Those who watch keys are told of every key that a mutation of a committed
/// write speaks of, with the versionstamp of that write, and of no others.
pub proof fn every_commit_is_announced(
    writes: Seq<WriteModel>,
    results: Seq<WriteVerdict>,
    update: Update,
)
    requires
        results.len() == writes.len(),
    ensures
        batch_updates(writes, results, paired(writes, results)).contains(update) <==> exists|
            i: int,
        | 0 <= i < writes.len() && #[trigger] announces(writes[i], results[i], update),
{
    lemma_batch_updates(writes, results, writes.len() as int, update);
}

} // verus!
