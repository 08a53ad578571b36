//! Laws of the record state machine and of the simulator, proved from the
//! invariants that the constructors establish and the methods preserve.

use crate::algorithm::{performed, CasDescriptor, CasDescriptors, NormalizedLockFree};
use crate::record::OperationRecordBox;
use crate::simulator::{Progress, Trial, WaitFreeSimulator};
use vstd::prelude::*;

verus! {

/// In the history of a box, each state is exactly one phase past the state
/// it was installed over, except that `PreCas` may follow `PostCas`.
pub proof fn lemma_history_is_monotone<LF: NormalizedLockFree>(
    record: OperationRecordBox<LF>,
    i: int,
)
    requires
        record.wf(),
        0 <= i < record.history().len() - 1,
    ensures
        record.history()[i + 1].phase() == record.history()[i].phase() + 1 || (
        record.history()[i] is PostCas && record.history()[i + 1] is PreCas),
{
    assert(record.history()[i].precedes(record.history()[i + 1]));
}

/// In a box of a simulator, every installed transition was the algorithm's,
/// made with a fresh contention measure: a list that it generated for the
/// input, the result of executing that list, or what its wrap-up decided.
pub proof fn lemma_history_is_lawful<LF: NormalizedLockFree>(
    simulator: WaitFreeSimulator<LF>,
    ticket: usize,
    i: int,
)
    requires
        simulator.wf(),
        ticket < simulator.boxes().len(),
        0 <= i < simulator.boxes()[ticket as int].history().len() - 1,
    ensures
        simulator.advances(
            simulator.boxes()[ticket as int].input(),
            simulator.boxes()[ticket as int].history()[i],
            simulator.boxes()[ticket as int].history()[i + 1],
        ),
{
    assert(simulator.sound(simulator.boxes()[ticket as int]));
}

/// A record goes back from `PostCas` to `PreCas` only where the wrap-up,
/// handed the recorded result and list and a fresh measure, asked for a
/// retry.
pub proof fn lemma_regression_is_a_retry<LF: NormalizedLockFree>(
    simulator: WaitFreeSimulator<LF>,
    ticket: usize,
    i: int,
)
    requires
        simulator.wf(),
        ticket < simulator.boxes().len(),
        0 <= i < simulator.boxes()[ticket as int].history().len() - 1,
        simulator.boxes()[ticket as int].history()[i].phase()
            > simulator.boxes()[ticket as int].history()[i + 1].phase(),
    ensures
        simulator.boxes()[ticket as int].history()[i] is PostCas,
        simulator.boxes()[ticket as int].history()[i + 1] is PreCas,
        simulator.concluded(
            simulator.boxes()[ticket as int].history()[i]->PostCas_1,
            simulator.boxes()[ticket as int].history()[i]->PostCas_0,
            0,
            Err(()),
        ),
{
    lemma_history_is_lawful(simulator, ticket, i);
}

/// A `Completed` state is the last of its history: nothing is installed
/// over it.
pub proof fn lemma_completed_is_last<LF: NormalizedLockFree>(
    record: OperationRecordBox<LF>,
    i: int,
)
    requires
        record.wf(),
        0 <= i < record.history().len(),
        record.history()[i] is Completed,
    ensures
        i == record.history().len() - 1,
        record.state() == record.history()[i],
{
    if i < record.history().len() - 1 {
        assert(record.history()[i].precedes(record.history()[i + 1]));
    }
}

/// Once a record is `Completed`, it is the same record with the same output
/// whenever it is looked at later.
pub proof fn lemma_completed_stays<LF: NormalizedLockFree>(
    before: OperationRecordBox<LF>,
    after: OperationRecordBox<LF>,
)
    requires
        before.wf(),
        after.wf(),
        after.continues(&before),
        before.state() is Completed,
    ensures
        after.history() == before.history(),
        after.state() == before.state(),
{
    let last = before.history().len() - 1;
    assert(after.history()[last] == before.history()[last]);
    lemma_completed_is_last(after, last);
}

/// Whatever a simulator does after an operation is completed, the operation
/// keeps its output.
pub proof fn lemma_output_is_settled<LF: NormalizedLockFree>(
    before: WaitFreeSimulator<LF>,
    after: WaitFreeSimulator<LF>,
    ticket: usize,
)
    requires
        before.wf(),
        after.wf(),
        after.extends(&before),
        ticket < before.boxes().len(),
        before.boxes()[ticket as int].state() is Completed,
    ensures
        after.boxes()[ticket as int].state() == before.boxes()[ticket as int].state(),
{
    assert(before.sound(before.boxes()[ticket as int]));
    assert(after.sound(after.boxes()[ticket as int]));
    lemma_completed_stays(before.boxes()[ticket as int], after.boxes()[ticket as int]);
}

/// The output of a completed operation is what the wrap-up gave for a list
/// that was generated for the operation's input and then executed.
pub proof fn lemma_completed_answers<LF: NormalizedLockFree>(
    simulator: WaitFreeSimulator<LF>,
    ticket: usize,
)
    requires
        simulator.wf(),
        ticket < simulator.boxes().len(),
        simulator.boxes()[ticket as int].state() is Completed,
    ensures
        simulator.answers(
            simulator.boxes()[ticket as int].input(),
            simulator.boxes()[ticket as int].state()->Completed_0,
        ),
{
    assert(simulator.sound(simulator.boxes()[ticket as int]));
}

/// When nothing waits in the help queue, every published operation is
/// completed.
pub proof fn lemma_idle_means_done<LF: NormalizedLockFree>(
    simulator: WaitFreeSimulator<LF>,
    ticket: usize,
)
    requires
        simulator.wf(),
        ticket < simulator.boxes().len(),
        simulator.queue().len() == 0,
    ensures
        simulator.boxes()[ticket as int].state() is Completed,
{
    assert(simulator.sound(simulator.boxes()[ticket as int]));
    assert(simulator.boxes()[ticket as int].state() is Completed || simulator.queue().contains(
        ticket,
    ));
}

/// Where each descriptor of a list admits one outcome only, as a resolved
/// descriptor does, executing the list again gives the result that it gave
/// before.
pub proof fn lemma_resolved_list_repeats<D: CasDescriptor, C: CasDescriptors<D>>(
    list: &C,
    first: Result<(), usize>,
    second: Result<(), usize>,
)
    requires
        forall|j: usize|
            j < list.spec_len() ==> !((#[trigger] list.spec_index(j)).may_yield(true)
                && list.spec_index(j).may_yield(false)),
        performed(list, first),
        performed(list, second),
    ensures
        first == second,
{
    match (first, second) {
        (Ok(a), Ok(b)) => {
            assert(a =~= b);
        },
        (Err(i), Err(j)) => {
            if i < j {
                assert(list.spec_index(i).may_yield(true));
            } else if j < i {
                assert(list.spec_index(j).may_yield(true));
            }
        },
        (Ok(_), Err(j)) => {
            assert(list.spec_index(j).may_yield(true));
        },
        (Err(i), Ok(_)) => {
            assert(list.spec_index(i).may_yield(true));
        },
    }
}

/// Where the algorithm accepts every first attempt on `op`, a call of `run`
/// with `op` finishes on the fast path: it makes one attempt and publishes
/// nothing.
pub proof fn lemma_accepted_attempt_finishes<LF: NormalizedLockFree>(
    before: WaitFreeSimulator<LF>,
    after: WaitFreeSimulator<LF>,
    owner: u64,
    op: LF::Input,
    progress: Progress<LF::Output>,
)
    requires
        after.ran(&before, owner, op, progress),
        forall|trial: Trial<LF>| #[trigger]
            before.tried(op, trial) ==> WaitFreeSimulator::<LF>::decided(trial, 1) is Output,
    ensures
        progress is Finished,
        after.boxes().len() == before.boxes().len(),
        after.attempts() == before.attempts() + 1,
{
    let (helped, tried, fast) = choose|
        helped: WaitFreeSimulator<LF>,
        tried: WaitFreeSimulator<LF>,
        fast: Option<LF::Output>,
    |
        {
            &&& helped.helped_first(&before, before.spec_patience())
            &&& #[trigger] tried.tried_fast(&helped, op, fast)
            &&& match fast {
                Some(out) => after == tried && progress == Progress::Finished(out),
                None => exists|entered: WaitFreeSimulator<LF>|
                    {
                        &&& #[trigger] entered.published_from(&tried, owner, op)
                        &&& after.resumed(&entered, tried.boxes().len() as usize, progress)
                    },
            }
        };
    let trials = choose|trials: Seq<Trial<LF>>|
        {
            &&& #[trigger] tried.fast_run(op, trials, fast)
            &&& tried.attempts() == helped.attempts() + trials.len()
        };
    assert(tried.tried(op, trials[0]));
    assert(before.tried(op, trials[0]));
}

/// Where the generator leaves the contention above the threshold on every
/// first attempt on `op`, a call of `run` with `op` makes that one attempt
/// and publishes the operation.
pub proof fn lemma_crowded_attempt_escalates<LF: NormalizedLockFree>(
    before: WaitFreeSimulator<LF>,
    after: WaitFreeSimulator<LF>,
    owner: u64,
    op: LF::Input,
    progress: Progress<LF::Output>,
)
    requires
        after.ran(&before, owner, op, progress),
        forall|trial: Trial<LF>| #[trigger]
            before.tried(op, trial) ==> WaitFreeSimulator::<LF>::decided(trial, 1) is Escalate,
    ensures
        after.boxes().len() == before.boxes().len() + 1,
        after.boxes().last().owner() == owner,
        after.boxes().last().input() == op,
        after.attempts() == before.attempts() + 1,
{
    let (helped, tried, fast) = choose|
        helped: WaitFreeSimulator<LF>,
        tried: WaitFreeSimulator<LF>,
        fast: Option<LF::Output>,
    |
        {
            &&& helped.helped_first(&before, before.spec_patience())
            &&& #[trigger] tried.tried_fast(&helped, op, fast)
            &&& match fast {
                Some(out) => after == tried && progress == Progress::Finished(out),
                None => exists|entered: WaitFreeSimulator<LF>|
                    {
                        &&& #[trigger] entered.published_from(&tried, owner, op)
                        &&& after.resumed(&entered, tried.boxes().len() as usize, progress)
                    },
            }
        };
    let trials = choose|trials: Seq<Trial<LF>>|
        {
            &&& #[trigger] tried.fast_run(op, trials, fast)
            &&& tried.attempts() == helped.attempts() + trials.len()
        };
    assert(tried.tried(op, trials[0]));
    assert(before.tried(op, trials[0]));
    let entered = choose|entered: WaitFreeSimulator<LF>|
        {
            &&& #[trigger] entered.published_from(&tried, owner, op)
            &&& after.resumed(&entered, tried.boxes().len() as usize, progress)
        };
    let last = entered.boxes().len() - 1;
    assert(after.boxes()[last].continues(&entered.boxes()[last]));
}

} // verus!
