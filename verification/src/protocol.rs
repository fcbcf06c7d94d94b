//! What a task comes to when its requests are carried out on the tables.

use crate::request::{Action, Answer, Move};
use crate::sum::{NumberSum, Operand};
use crate::tables::{performs, Tables};
use crate::value::Value;
use vstd::prelude::*;

verus! {

/// How the operands of sums are read, written and added.
pub struct Codec {
    /// A value read as an operand.
    pub read: spec_fn(Value) -> Result<Operand, Seq<char>>,
    /// A limit read as an operand, which may be none.
    pub read_limit: spec_fn(Seq<u8>) -> Result<Option<Operand>, Seq<char>>,
    /// Two doubles added, and the sum compared with the limits.
    pub add_numbers: spec_fn(u64, u64, Option<u64>, Option<u64>) -> NumberSum,
    /// An operand written as a value.
    pub write: spec_fn(Operand) -> Value,
}

/// Whether a request that is carried out on the tables `before` can be answered
/// so and leave the tables `after`. A statement that fails leaves them as they
/// were, while the version of the data fits in 64 bits.
pub open spec fn carries_out(
    codec: Codec,
    before: Tables,
    action: Action,
    answer: Answer,
    after: Tables,
) -> bool {
    match action {
        Action::Sql(sql) => (answer is Failed && after == before) || performs(
            before,
            sql,
            answer,
            after,
        ),
        Action::DrawNumber { low, high } => after == before && (answer matches Answer::Drawn(n)
            && low <= n < high),
        Action::ReadSum { operand, min_v8, max_v8 } => after == before && answer
            == Answer::SumRead {
            operand: (codec.read)(operand),
            min: (codec.read_limit)(min_v8),
            max: (codec.read_limit)(max_v8),
        },
        Action::ReadStored { value } => after == before && answer == Answer::StoredRead(
            (codec.read)(value),
        ),
        Action::AddNumbers { current, operand, min, max } => after == before && answer
            == Answer::NumbersAdded((codec.add_numbers)(current, operand, min, max)),
        Action::WriteSum { operand } => after == before && answer == Answer::SumWritten(
            (codec.write)(operand),
        ),
        Action::ScheduleDequeue => after == before && answer == Answer::Performed,
    }
}

/// The moves of a task. `id` names the message that it queues next, if it does.
pub trait Protocol: Sized {
    /// Where the task can stand.
    type State;

    /// What it ends in.
    type Output;

    /// The task goes on with what it is told.
    spec fn next(self, state: Self::State, answer: Answer, id: Seq<char>) -> (
        Self::State,
        Move<Self::Output>,
    );

    /// Whether the task can be told this.
    spec fn expects(self, state: Self::State, answer: Answer) -> bool;
}

/// One request: what it was answered, and the tables after it.
pub struct Exchange {
    pub answer: Answer,
    pub id: Seq<char>,
    pub tables: Tables,
}

/// Whether `trace` are the exchanges of a task from a move to its end, on tables
/// that were `tables` before.
pub open spec fn is_run<P: Protocol>(
    codec: Codec,
    task: P,
    at: (P::State, Move<P::Output>),
    tables: Tables,
    trace: Seq<Exchange>,
) -> bool
    decreases trace.len(),
{
    match at.1 {
        Move::Ask(action) => {
            &&& trace.len() > 0
            &&& task.expects(at.0, trace[0].answer)
            &&& carries_out(codec, tables, action, trace[0].answer, trace[0].tables)
            &&& is_run(
                codec,
                task,
                task.next(at.0, trace[0].answer, trace[0].id),
                trace[0].tables,
                trace.skip(1),
            )
        },
        _ => trace.len() == 0,
    }
}

/// The last move of a task.
pub open spec fn end_of<P: Protocol>(
    task: P,
    at: (P::State, Move<P::Output>),
    trace: Seq<Exchange>,
) -> Move<P::Output>
    decreases trace.len(),
{
    if trace.len() == 0 {
        at.1
    } else {
        end_of(task, task.next(at.0, trace[0].answer, trace[0].id), trace.skip(1))
    }
}

/// The tables after the exchanges.
pub open spec fn tables_after(tables: Tables, trace: Seq<Exchange>) -> Tables {
    if trace.len() == 0 {
        tables
    } else {
        trace.last().tables
    }
}

/// How often those who wait for messages are told to dequeue.
pub open spec fn times_told<P: Protocol>(
    task: P,
    at: (P::State, Move<P::Output>),
    trace: Seq<Exchange>,
) -> nat
    decreases trace.len(),
{
    if trace.len() == 0 {
        0
    } else {
        let rest = times_told(
            task,
            task.next(at.0, trace[0].answer, trace[0].id),
            trace.skip(1),
        );
        if at.1 matches Move::Ask(Action::ScheduleDequeue) {
            1 + rest
        } else {
            rest
        }
    }
}

/// Whether no statement failed.
pub open spec fn no_failure(trace: Seq<Exchange>) -> bool {
    forall|i: int| 0 <= i < trace.len() ==> !((#[trigger] trace[i]).answer is Failed)
}

/// Whether a run that makes a move on `tables` makes a later move on `then`, after
/// `k` exchanges.
pub open spec fn leads_to<P: Protocol>(
    codec: Codec,
    task: P,
    at: (P::State, Move<P::Output>),
    tables: Tables,
    trace: Seq<Exchange>,
    k: int,
    later: (P::State, Move<P::Output>),
    then: Tables,
) -> bool {
    &&& 0 <= k <= trace.len()
    &&& is_run(codec, task, later, then, trace.skip(k))
    &&& no_failure(trace.skip(k))
    &&& end_of(task, at, trace) == end_of(task, later, trace.skip(k))
    &&& tables_after(tables, trace) == tables_after(then, trace.skip(k))
}

/// A run without failures goes on after its first exchange.
pub proof fn lemma_first_exchange<P: Protocol>(
    codec: Codec,
    task: P,
    at: (P::State, Move<P::Output>),
    tables: Tables,
    trace: Seq<Exchange>,
)
    requires
        is_run(codec, task, at, tables, trace),
        no_failure(trace),
        at.1 is Ask,
    ensures
        trace.len() > 0,
        !(trace[0].answer is Failed),
        task.expects(at.0, trace[0].answer),
        carries_out(codec, tables, at.1->Ask_0, trace[0].answer, trace[0].tables),
        leads_to(
            codec,
            task,
            at,
            tables,
            trace,
            1,
            task.next(at.0, trace[0].answer, trace[0].id),
            trace[0].tables,
        ),
{
    assert forall|i: int| 0 <= i < trace.skip(1).len() implies !(
    (#[trigger] trace.skip(1)[i]).answer is Failed) by {
        assert(trace.skip(1)[i] == trace[i + 1]);
    }
}

/// A run leads to its first move.
pub proof fn lemma_start<P: Protocol>(
    codec: Codec,
    task: P,
    at: (P::State, Move<P::Output>),
    tables: Tables,
    trace: Seq<Exchange>,
)
    requires
        is_run(codec, task, at, tables, trace),
        no_failure(trace),
    ensures
        leads_to(codec, task, at, tables, trace, 0, at, tables),
{
    assert(trace.skip(0) =~= trace);
}

/// A run that leads to a move leads to whatever that move leads to.
pub proof fn lemma_leads_on<P: Protocol>(
    codec: Codec,
    task: P,
    at: (P::State, Move<P::Output>),
    tables: Tables,
    trace: Seq<Exchange>,
    k: int,
    later: (P::State, Move<P::Output>),
    then: Tables,
    n: int,
    last: (P::State, Move<P::Output>),
    finally: Tables,
)
    requires
        leads_to(codec, task, at, tables, trace, k, later, then),
        leads_to(codec, task, later, then, trace.skip(k), n, last, finally),
    ensures
        leads_to(codec, task, at, tables, trace, k + n, last, finally),
{
    assert(trace.skip(k).skip(n) =~= trace.skip(k + n));
}

/// A run that leads to a request goes on with its answer.
pub proof fn lemma_next_exchange<P: Protocol>(
    codec: Codec,
    task: P,
    at: (P::State, Move<P::Output>),
    tables: Tables,
    trace: Seq<Exchange>,
    k: int,
    later: (P::State, Move<P::Output>),
    then: Tables,
)
    requires
        leads_to(codec, task, at, tables, trace, k, later, then),
        later.1 is Ask,
    ensures
        k < trace.len(),
        !(trace[k].answer is Failed),
        task.expects(later.0, trace[k].answer),
        carries_out(codec, then, later.1->Ask_0, trace[k].answer, trace[k].tables),
        leads_to(
            codec,
            task,
            at,
            tables,
            trace,
            k + 1,
            task.next(later.0, trace[k].answer, trace[k].id),
            trace[k].tables,
        ),
{
    let rest = trace.skip(k);
    lemma_first_exchange(codec, task, later, then, rest);
    let next = task.next(later.0, rest[0].answer, rest[0].id);
    lemma_leads_on(codec, task, at, tables, trace, k, later, then, 1, next, rest[0].tables);
}

/// A run that asks for nothing more is over.
pub proof fn lemma_no_exchange<P: Protocol>(
    codec: Codec,
    task: P,
    at: (P::State, Move<P::Output>),
    tables: Tables,
    trace: Seq<Exchange>,
)
    requires
        is_run(codec, task, at, tables, trace),
        !(at.1 is Ask),
    ensures
        trace.len() == 0,
        end_of(task, at, trace) == at.1,
        tables_after(tables, trace) == tables,
{
}

} // verus!
