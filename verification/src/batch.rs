//! A batch of atomic writes in one transaction.

use crate::error::{Fault, SqliteBackendError};
use crate::notify::{push_update, updates_of, KeyUpdate, Update};
use crate::request::{Answer, Move, Reply, Step};
use crate::versionstamp::Versionstamp;
use crate::views::{opt_view, result_view, seq_view};
use crate::write::{
    check_from, write_expects, write_step, AtomicWrite, CommitResult, MutationModel, PhaseModel,
    WriteModel, WriteOutcome, WriteOutput,
};
use crate::write_task::{atomic_write_once, is_uuid, lemma_uuid_exists, WriteTask};
use vstd::prelude::*;

verus! {

/// What a write of a batch comes to: its versionstamp if its checks passed, or an
/// error.
pub type WriteResult = Result<Option<CommitResult>, SqliteBackendError>;

/// What a `WriteResult` stands for.
pub type WriteVerdict = Result<Option<Seq<u8>>, Fault>;

/// The result of a write, by what it stands for.
pub open spec fn verdict(result: WriteResult) -> WriteVerdict {
    match result {
        Ok(commit) => Ok(opt_view(commit)),
        Err(e) => Err(e@),
    }
}

/// The results of a list of writes, by what they stand for.
pub open spec fn verdicts(results: Seq<WriteResult>) -> Seq<WriteVerdict> {
    Seq::new(results.len(), |i: int| verdict(results[i]))
}

/// What a batch comes to: whether messages were queued, and the result of each
/// write, in their order.
#[derive(Debug)]
pub struct BatchOutput {
    pub has_enqueues: bool,
    pub results: Vec<WriteResult>,
}

/// What a `BatchOutput` stands for.
pub struct Batch {
    pub has_enqueues: bool,
    pub results: Seq<WriteVerdict>,
}

impl View for BatchOutput {
    type V = Batch;

    open spec fn view(&self) -> Batch {
        Batch { has_enqueues: self.has_enqueues, results: verdicts(self.results@) }
    }
}

/// What the task that carries out a batch waits for.
pub enum BatchPhase<'a> {
    /// To begin.
    Fresh,
    /// For the next thing that a write needs.
    Writing { index: usize, task: WriteTask<'a> },
    /// For nothing any more.
    Finished,
}

/// Where a batch stands.
pub enum BatchState {
    Fresh,
    Writing { index: int, phase: PhaseModel, batch: Batch },
    Finished,
}

/// The batch after a write.
pub open spec fn batch_with(batch: Batch, result: Result<WriteOutcome, Fault>) -> Batch {
    match result {
        Ok(outcome) => Batch {
            has_enqueues: batch.has_enqueues || outcome.has_enqueues,
            results: batch.results.push(Ok(outcome.commit)),
        },
        Err(fault) => Batch {
            has_enqueues: batch.has_enqueues,
            results: batch.results.push(Err(fault)),
        },
    }
}

/// The batch goes on after a move of the write at `index`. A write that fails
/// does not keep the others from being tried.
pub open spec fn batch_after(
    writes: Seq<WriteModel>,
    batch: Batch,
    index: int,
    next: (PhaseModel, Move<WriteOutcome>),
) -> (BatchState, Move<Batch>) {
    match next {
        (phase, Move::Ask(action)) => (
            BatchState::Writing { index, phase, batch },
            Move::Ask(action),
        ),
        (_, Move::Done(result)) => batch_from(writes, batch_with(batch, result), index + 1),
        (_, Move::ClockOverflow) => (BatchState::Finished, Move::ClockOverflow),
    }
}

/// The batch goes on with the write at `index`; after the last one it is done.
pub open spec fn batch_from(writes: Seq<WriteModel>, batch: Batch, index: int) -> (
    BatchState,
    Move<Batch>,
) {
    if index < writes.len() {
        match check_from(writes[index], 0) {
            (phase, Move::Ask(action)) => (
                BatchState::Writing { index, phase, batch },
                Move::Ask(action),
            ),
            _ => (BatchState::Finished, Move::ClockOverflow),
        }
    } else {
        (BatchState::Finished, Move::Done(Ok(batch)))
    }
}

/// The batch goes on with what it is told. `id` names the message that it queues
/// next.
pub open spec fn batch_step(
    writes: Seq<WriteModel>,
    state: BatchState,
    answer: Answer,
    id: Seq<char>,
) -> (BatchState, Move<Batch>) {
    match state {
        BatchState::Fresh => batch_from(
            writes,
            Batch { has_enqueues: false, results: seq![] },
            0,
        ),
        BatchState::Writing { index, phase, batch } => batch_after(
            writes,
            batch,
            index,
            write_step(writes[index], phase, answer, id),
        ),
        BatchState::Finished => (state, Move::ClockOverflow),
    }
}

/// Whether a batch can be told this.
pub open spec fn batch_expects(state: BatchState, answer: Answer) -> bool {
    match (state, answer) {
        (BatchState::Fresh, Answer::Begin) => true,
        (BatchState::Writing { phase, .. }, _) => write_expects(phase, answer),
        _ => false,
    }
}

/// A batch under way.
pub struct BatchTask<'a> {
    writes: &'a Vec<AtomicWrite>,
    output: BatchOutput,
    phase: BatchPhase<'a>,
}

fn record(output: &mut BatchOutput, result: Result<WriteOutput, SqliteBackendError>)
    ensures
        final(output)@ == batch_with(old(output)@, result_view(result)),
{
    let ghost before = output.results@;
    match result {
        Ok(done) => {
            output.has_enqueues = output.has_enqueues || done.has_enqueues;
            output.results.push(Ok(done.commit));
        },
        Err(e) => {
            output.results.push(Err(e));
        },
    }
    assert(verdicts(output.results@) =~= verdicts(before).push(verdict(output.results@.last())));
}

impl<'a> BatchTask<'a> {
    /// The writes.
    pub closed spec fn writes(&self) -> Seq<WriteModel> {
        seq_view(self.writes@)
    }

    /// Where the batch stands.
    pub closed spec fn state(&self) -> BatchState {
        match self.phase {
            BatchPhase::Fresh => BatchState::Fresh,
            BatchPhase::Writing { index, task } => BatchState::Writing {
                index: index as int,
                phase: task.phase(),
                batch: self.output@,
            },
            BatchPhase::Finished => BatchState::Finished,
        }
    }

    /// Whether it can stand there.
    pub closed spec fn fits(&self) -> bool {
        match self.phase {
            BatchPhase::Fresh => self.output@ == (Batch { has_enqueues: false, results: seq![] }),
            BatchPhase::Writing { index, task } => {
                &&& index < self.writes@.len()
                &&& task.fits()
                &&& task.write() == self.writes@[index as int]@
            },
            BatchPhase::Finished => true,
        }
    }

    /// Starts a batch.
    pub fn new(writes: &'a Vec<AtomicWrite>) -> (task: BatchTask<'a>)
        ensures
            task.writes() == seq_view(writes@),
            task.state() == BatchState::Fresh,
            task.fits(),
    {
        let results: Vec<WriteResult> = Vec::new();
        assert(verdicts(results@) =~= seq![]);
        BatchTask {
            writes,
            output: BatchOutput { has_enqueues: false, results },
            phase: BatchPhase::Fresh,
        }
    }

    /// Whether the task can be told this.
    pub fn accepts(&self, reply: &Reply) -> (accepted: bool)
        ensures
            accepted == batch_expects(self.state(), reply@),
    {
        match (&self.phase, reply) {
            (BatchPhase::Fresh, Reply::Begin) => true,
            (BatchPhase::Writing { task, .. }, _) => task.accepts(reply),
            _ => false,
        }
    }

    fn go_on(&mut self, index: usize) -> (step: Step<BatchOutput>)
        requires
            index <= old(self).writes().len(),
        ensures
            final(self).writes() == old(self).writes(),
            final(self).fits(),
            (final(self).state(), step@) == batch_from(
                old(self).writes(),
                old(self).output@,
                index as int,
            ),
    {
        if index < self.writes.len() {
            let mut task = atomic_write_once(&self.writes[index]);
            match task.resume(Reply::Begin) {
                Step::Ask(request) => {
                    self.phase = BatchPhase::Writing { index, task };
                    Step::Ask(request)
                },
                _ => {
                    self.phase = BatchPhase::Finished;
                    Step::ClockOverflow
                },
            }
        } else {
            let mut output = BatchOutput { has_enqueues: false, results: Vec::new() };
            core::mem::swap(&mut output, &mut self.output);
            self.phase = BatchPhase::Finished;
            Step::Done(Ok(output))
        }
    }

    /// Goes on with what it is told.
    pub fn resume(&mut self, reply: Reply) -> (step: Step<BatchOutput>)
        requires
            old(self).fits(),
            batch_expects(old(self).state(), reply@),
        ensures
            final(self).writes() == old(self).writes(),
            final(self).fits(),
            exists|id: Seq<char>|
                is_uuid(id) && (final(self).state(), step@) == #[trigger] batch_step(
                    old(self).writes(),
                    old(self).state(),
                    reply@,
                    id,
                ),
    {
        let ghost state = self.state();
        let ghost writes = self.writes();
        let ghost answer = reply@;
        let ghost mut id = lemma_uuid_exists();
        let mut phase = BatchPhase::Finished;
        core::mem::swap(&mut phase, &mut self.phase);
        let step = match phase {
            BatchPhase::Fresh => self.go_on(0),
            BatchPhase::Writing { index, mut task } => {
                assert(index < self.writes.len());
                let ghost before = task.phase();
                let next = task.resume(reply);
                proof {
                    assert(writes[index as int] == self.writes@[index as int]@);
                    id = choose|id: Seq<char>|
                        is_uuid(id) && (task.phase(), next@) == #[trigger] write_step(
                            writes[index as int],
                            before,
                            answer,
                            id,
                        );
                }
                match next {
                    Step::Ask(request) => {
                        self.phase = BatchPhase::Writing { index, task };
                        Step::Ask(request)
                    },
                    Step::Done(result) => {
                        record(&mut self.output, result);
                        self.go_on(index + 1)
                    },
                    Step::ClockOverflow => Step::ClockOverflow,
                }
            },
            BatchPhase::Finished => Step::ClockOverflow,
        };
        assert((self.state(), step@) == batch_step(writes, state, answer, id));
        step
    }
}

/// What is left to do after a batch.
#[derive(Debug)]
pub struct BatchEnd {
    /// The result of each write.
    pub results: Vec<WriteResult>,
    /// Whether those who wait for messages are told that one may be due.
    pub schedule_dequeue: bool,
    /// What those who watch keys are told.
    pub updates: Vec<KeyUpdate>,
}

/// The results of `count` writes whose transaction failed: the first of them gets
/// the error.
pub open spec fn failed_batch(count: nat, fault: Fault) -> Seq<WriteVerdict> {
    Seq::new(
        count,
        |i: int|
            if i == 0 {
                Err(fault)
            } else {
                Err(Fault::Generic("batch transaction failed"@))
            },
    )
}

/// The results of `count` writes to a database that is only read.
pub open spec fn refused_batch(count: nat) -> Seq<WriteVerdict> {
    Seq::new(count, |i: int| Err(Fault::WriteDisabled))
}

/// The keys that mutations speak of.
pub open spec fn mutated_keys(mutations: Seq<MutationModel>) -> Seq<Seq<u8>> {
    Seq::new(mutations.len(), |i: int| mutations[i].key)
}

/// The updates of the first `count` writes: every key that a mutation speaks of,
/// for each write whose checks passed.
pub open spec fn batch_updates(
    writes: Seq<WriteModel>,
    results: Seq<WriteVerdict>,
    count: int,
) -> Seq<Update>
    decreases count,
{
    if count <= 0 {
        seq![]
    } else {
        batch_updates(writes, results, count - 1) + match results[count - 1] {
            Ok(Some(versionstamp)) => updates_of(
                mutated_keys(writes[count - 1].mutations),
                versionstamp,
            ),
            _ => seq![],
        }
    }
}

/// How many results belong to a write.
pub open spec fn paired(writes: Seq<WriteModel>, results: Seq<WriteVerdict>) -> int {
    if writes.len() < results.len() {
        writes.len() as int
    } else {
        results.len() as int
    }
}

fn push_updates(updates: &mut Vec<KeyUpdate>, write: &AtomicWrite, versionstamp: Versionstamp)
    ensures
        seq_view(final(updates)@) == seq_view(old(updates)@) + updates_of(
            mutated_keys(write@.mutations),
            versionstamp@,
        ),
{
    let ghost added = updates_of(mutated_keys(write@.mutations), versionstamp@);
    let mut i: usize = 0;
    while i < write.mutations.len()
        invariant
            i <= write.mutations@.len(),
            added == updates_of(mutated_keys(write@.mutations), versionstamp@),
            seq_view(updates@) =~= seq_view(old(updates)@) + added.take(i as int),
        decreases write.mutations@.len() - i,
    {
        push_update(updates, &write.mutations[i].key, versionstamp);
        i = i + 1;
    }
    assert(added.take(i as int) =~= added);
}

fn updates_after(writes: &Vec<AtomicWrite>, results: &Vec<WriteResult>) -> (updates: Vec<KeyUpdate>)
    ensures
        seq_view(updates@) == batch_updates(
            seq_view(writes@),
            verdicts(results@),
            paired(seq_view(writes@), verdicts(results@)),
        ),
{
    let mut updates: Vec<KeyUpdate> = Vec::new();
    let mut i: usize = 0;
    while i < writes.len() && i < results.len()
        invariant
            i <= writes@.len(),
            i <= results@.len(),
            seq_view(updates@) =~= batch_updates(
                seq_view(writes@),
                verdicts(results@),
                i as int,
            ),
        decreases writes@.len() - i,
    {
        assert(verdicts(results@)[i as int] == verdict(results@[i as int]));
        assert(seq_view(writes@)[i as int] == writes@[i as int]@);
        if let Ok(Some(commit)) = &results[i] {
            push_updates(&mut updates, &writes[i], commit.versionstamp);
        }
        i = i + 1;
    }
    updates
}

/// The results of writes whose transaction failed.
fn fail_all(count: usize, e: SqliteBackendError) -> (results: Vec<WriteResult>)
    ensures
        verdicts(results@) == failed_batch(count as nat, e@),
{
    let mut results: Vec<WriteResult> = Vec::new();
    if count > 0 {
        results.push(Err(e));
        let mut i: usize = 1;
        while i < count
            invariant
                1 <= i <= count,
                results@.len() == i,
                verdict(results@[0]) == Err::<Option<Seq<u8>>, Fault>(e@),
                forall|j: int|
                    1 <= j < i ==> verdict(#[trigger] results@[j]) == Err::<
                        Option<Seq<u8>>,
                        Fault,
                    >(Fault::Generic("batch transaction failed"@)),
            decreases count - i,
        {
            results.push(
                Err(SqliteBackendError::GenericError("batch transaction failed".to_owned())),
            );
            i = i + 1;
        }
    }
    assert(verdicts(results@) =~= failed_batch(count as nat, e@));
    results
}

/// The results of writes to a database that is only read.
pub fn refuse_all(count: usize) -> (results: Vec<WriteResult>)
    ensures
        verdicts(results@) == refused_batch(count as nat),
{
    let mut results: Vec<WriteResult> = Vec::new();
    let mut i: usize = 0;
    while i < count
        invariant
            i <= count,
            verdicts(results@) =~= refused_batch(i as nat),
        decreases count - i,
    {
        let ghost before = results@;
        results.push(Err(SqliteBackendError::WriteDisabled));
        assert(verdicts(results@) =~= verdicts(before).push(Err(Fault::WriteDisabled)));
        i = i + 1;
    }
    results
}

/// What is left to do after the transaction of a batch, which was committed or
/// failed.
pub fn finish_batch(
    writes: &Vec<AtomicWrite>,
    outcome: Result<BatchOutput, SqliteBackendError>,
) -> (end: BatchEnd)
    ensures
        match outcome {
            Ok(output) => {
                &&& end.results == output.results
                &&& end.schedule_dequeue == output.has_enqueues
                &&& seq_view(end.updates@) == batch_updates(
                    seq_view(writes@),
                    output@.results,
                    paired(seq_view(writes@), output@.results),
                )
            },
            Err(e) => {
                &&& verdicts(end.results@) == failed_batch(writes@.len(), e@)
                &&& !end.schedule_dequeue
                &&& end.updates@.len() == 0
            },
        },
{
    match outcome {
        Ok(output) => {
            let updates = updates_after(writes, &output.results);
            BatchEnd { results: output.results, schedule_dequeue: output.has_enqueues, updates }
        },
        Err(e) => BatchEnd {
            results: fail_all(writes.len(), e),
            schedule_dequeue: false,
            updates: Vec::new(),
        },
    }
}

} // verus!
