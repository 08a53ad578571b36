//! The simulator: the optimistic fast path, the escalation to the help queue
//! and the cooperative completion of queued operations.

use crate::algorithm::{performed, CasDescriptor, CasDescriptors, NormalizedLockFree};
use crate::contention::{ContentionMeasure, CONTENTION_THRESHOLD, RETRY_THRESHOLD};
use crate::help_queue::HelpQueue;
use crate::record::{OperationRecordBox, OperationState};
use vstd::prelude::*;

verus! {

/// How far a call got with its operation.
pub enum Progress<T> {
    /// The operation is complete; this is its output.
    Finished(T),
    /// The operation waits in the help queue under this ticket.
    Pending(usize),
}

/// What the fast path does after one attempt.
pub enum Attempt<T> {
    /// The wrap-up accepted the attempt; this is the output.
    Output(T),
    /// Another optimistic attempt is made.
    Retry,
    /// The operation is handed to the help queue.
    Escalate,
}

/// What follows an attempt of the fast path, the `attempts`-th of its call,
/// whose wrap-up gave `verdict` and left the contention at `count`. An
/// accepted attempt ends the call with its output. Otherwise the operation
/// escalates if the contention exceeds `CONTENTION_THRESHOLD` or
/// `RETRY_THRESHOLD` attempts have been made, and is tried again if not.
pub open spec fn judged<T>(verdict: Result<T, ()>, count: nat, attempts: nat) -> Attempt<T> {
    match verdict {
        Ok(output) => Attempt::Output(output),
        Err(_) => if count > CONTENTION_THRESHOLD || attempts >= RETRY_THRESHOLD {
            Attempt::Escalate
        } else {
            Attempt::Retry
        },
    }
}

/// Decides what follows an attempt of the fast path, as `judged` says.
pub fn judge<T>(verdict: Result<T, ()>, contention: &ContentionMeasure, attempts: usize) -> (next:
    Attempt<T>)
    ensures
        next == judged(verdict, contention.count(), attempts as nat),
{
    match verdict {
        Ok(output) => Attempt::Output(output),
        Err(_) => {
            if contention.use_slow_path() || attempts >= RETRY_THRESHOLD {
                Attempt::Escalate
            } else {
                Attempt::Retry
            }
        },
    }
}

/// What one attempt of the fast path saw: the list that the generator
/// produced and the contention it left, and, where that contention let the
/// attempt go on, the result of executing the list, what the wrap-up decided
/// and the contention it left.
pub struct Trial<LF: NormalizedLockFree> {
    pub list: LF::Cases,
    pub generated: nat,
    pub executed: Result<(), usize>,
    pub verdict: Result<LF::Output, ()>,
    pub wrapped: nat,
}

/// The number of installs that the boxes of `boxes` have seen together.
pub open spec fn installs_of<LF: NormalizedLockFree>(boxes: Seq<OperationRecordBox<LF>>) -> nat
    decreases boxes.len(),
{
    if boxes.len() == 0 {
        0
    } else {
        installs_of(boxes.drop_last()) + (boxes.last().history().len() - 1) as nat
    }
}

/// Where two sequences of boxes differ in the box at `t` at most, their
/// installs differ by what that box has seen more.
proof fn lemma_installs_change<LF: NormalizedLockFree>(
    before: Seq<OperationRecordBox<LF>>,
    after: Seq<OperationRecordBox<LF>>,
    t: int,
)
    requires
        before.len() == after.len(),
        0 <= t,
        forall|i: int| 0 <= i < before.len() ==> (#[trigger] before[i]).history().len() >= 1,
        forall|i: int|
            0 <= i < before.len() && i != t ==> (#[trigger] after[i]).history().len()
                == before[i].history().len(),
        t < before.len() ==> after[t].history().len() >= before[t].history().len(),
    ensures
        installs_of(after) - installs_of(before) == if t < before.len() {
            after[t].history().len() - before[t].history().len()
        } else {
            0
        },
    decreases before.len(),
{
    if before.len() > 0 {
        lemma_installs_change(before.drop_last(), after.drop_last(), t);
        let last = before.len() - 1;
        assert(before[last].history().len() >= 1);
        if t != last {
            assert(after[last].history().len() == before[last].history().len());
        }
    }
}

/// A box that has seen no install adds nothing to the installs.
proof fn lemma_installs_push<LF: NormalizedLockFree>(
    boxes: Seq<OperationRecordBox<LF>>,
    fresh: OperationRecordBox<LF>,
)
    requires
        fresh.history().len() == 1,
    ensures
        installs_of(boxes.push(fresh)) == installs_of(boxes),
{
    assert(boxes.push(fresh).drop_last() =~= boxes);
}

/// A suffix of a suffix is a suffix.
proof fn lemma_suffix_of_suffix(inner: Seq<usize>, middle: Seq<usize>, outer: Seq<usize>)
    requires
        inner.is_suffix_of(middle),
        middle.is_suffix_of(outer),
    ensures
        inner.is_suffix_of(outer),
{
}

/// Runs the operations of a normalized lock-free algorithm.
pub struct WaitFreeSimulator<LF: NormalizedLockFree> {
    algorithm: LF,
    help: HelpQueue,
    boxes: Vec<OperationRecordBox<LF>>,
    patience: usize,
    attempts: Ghost<nat>,
}

impl<LF: NormalizedLockFree> WaitFreeSimulator<LF> {
    /// The algorithm that the simulator runs.
    pub closed spec fn spec_algorithm(&self) -> &LF {
        &self.algorithm
    }

    /// The tickets that wait for help, oldest first.
    pub closed spec fn queue(&self) -> Seq<usize> {
        self.help@
    }

    /// Every record box that was ever published; a ticket is a position in
    /// this sequence.
    pub closed spec fn boxes(&self) -> Seq<OperationRecordBox<LF>> {
        self.boxes@
    }

    /// The number of helping rounds one call may spend on each of its two
    /// helping stretches.
    pub closed spec fn spec_patience(&self) -> usize {
        self.patience
    }

    /// The number of attempts that the fast path has made so far.
    pub closed spec fn attempts(&self) -> nat {
        self.attempts@
    }

    /// The number of record transitions installed so far, over all boxes.
    pub open spec fn work(&self) -> nat {
        installs_of(self.boxes())
    }

    /// The number of steps taken so far: optimistic attempts and installed
    /// record transitions.
    pub open spec fn steps(&self) -> nat {
        self.attempts() + self.work()
    }

    /// The number of states that the box of `ticket` has held, the initial
    /// `PreCas` included.
    pub open spec fn installs(&self, ticket: usize) -> nat {
        self.boxes()[ticket as int].history().len()
    }

    /// Whether the generator, handed `input` and a fresh measure, can produce
    /// `list`.
    pub open spec fn generated(&self, input: LF::Input, list: LF::Cases) -> bool {
        exists|counted: nat| #[trigger] self.spec_algorithm().generates(input, 0, list, counted)
    }

    /// Whether the wrap-up, handed `executed`, `list` and a measure that
    /// counts `seen`, can give `verdict`.
    pub open spec fn concluded(
        &self,
        executed: Result<(), usize>,
        list: LF::Cases,
        seen: nat,
        verdict: Result<LF::Output, ()>,
    ) -> bool {
        exists|counted: nat| #[trigger]
            self.spec_algorithm().concludes(executed, list, seen, verdict, counted)
    }

    /// Whether `output` is what a wrap-up gave for a list that was generated
    /// for `input` with a fresh measure and then executed.
    pub open spec fn answers(&self, input: LF::Input, output: LF::Output) -> bool {
        exists|list: LF::Cases, executed: Result<(), usize>, seen: nat|
            {
                &&& self.generated(input, list)
                &&& performed(&list, executed)
                &&& #[trigger] self.concluded(executed, list, seen, Ok(output))
            }
    }

    /// Whether the algorithm, working on `input` and handed a fresh measure,
    /// can turn `before` into `after` in one transition.
    pub open spec fn advances(
        &self,
        input: LF::Input,
        before: OperationState<LF>,
        after: OperationState<LF>,
    ) -> bool {
        match before {
            OperationState::PreCas => {
                &&& after is ExecuteCas
                &&& self.generated(input, after->ExecuteCas_0)
            },
            OperationState::ExecuteCas(list) => {
                &&& after is PostCas
                &&& after->PostCas_0 == list
                &&& performed(&list, after->PostCas_1)
            },
            OperationState::PostCas(list, executed) => {
                ||| after is Completed && self.concluded(executed, list, 0, Ok(after->Completed_0))
                ||| after is PreCas && self.concluded(executed, list, 0, Err(()))
            },
            OperationState::Completed(_) => false,
        }
    }

    /// Whether `state` can have been reached by the algorithm working on
    /// `input`.
    pub open spec fn justified(&self, input: LF::Input, state: OperationState<LF>) -> bool {
        match state {
            OperationState::PreCas => true,
            OperationState::ExecuteCas(list) => self.generated(input, list),
            OperationState::PostCas(list, executed) => {
                &&& self.generated(input, list)
                &&& performed(&list, executed)
            },
            OperationState::Completed(output) => self.answers(input, output),
        }
    }

    /// Whether every transition in the history of `record` was one of the
    /// algorithm's.
    pub open spec fn lawful(&self, record: OperationRecordBox<LF>) -> bool {
        forall|i: int|
            0 <= i < record.history().len() - 1 ==> self.advances(
                record.input(),
                #[trigger] record.history()[i],
                record.history()[i + 1],
            )
    }

    /// Whether `record` is well formed and its history and state are the
    /// algorithm's doing.
    pub open spec fn sound(&self, record: OperationRecordBox<LF>) -> bool {
        &&& record.wf()
        &&& self.lawful(record)
        &&& self.justified(record.input(), record.state())
    }

    /// The simulator's invariant: every box is well formed, its history and
    /// its state are the algorithm's doing, every waiting ticket names a box
    /// and waits once, and every operation that is not completed waits in the
    /// queue.
    pub open spec fn wf(&self) -> bool {
        &&& forall|t: int| 0 <= t < self.boxes().len() ==> self.sound(#[trigger] self.boxes()[t])
        &&& forall|t: usize|
            t < self.boxes().len() ==> (#[trigger] self.boxes()[t as int]).state() is Completed
                || self.queue().contains(t)
        &&& forall|k: int|
            0 <= k < self.queue().len() ==> (#[trigger] self.queue()[k]) < self.boxes().len()
        &&& self.queue().no_duplicates()
    }

    /// Whether `self` is `before` after some calls: the algorithm and the
    /// patience are the same, no box was lost, and each box of `before` has
    /// only seen further installs.
    pub open spec fn extends(&self, before: &Self) -> bool {
        &&& self.spec_algorithm() == before.spec_algorithm()
        &&& self.spec_patience() == before.spec_patience()
        &&& before.boxes().len() <= self.boxes().len()
        &&& before.attempts() <= self.attempts()
        &&& forall|t: int|
            0 <= t < before.boxes().len() ==> (#[trigger] self.boxes()[t]).continues(
                &before.boxes()[t],
            )
    }

    /// Whether `trial` is what one attempt of the fast path on `op` can see:
    /// the generator is handed a fresh measure; where it leaves the
    /// contention within the threshold, the list is executed and the wrap-up
    /// is handed the result and the measure, one higher after a failure.
    pub open spec fn tried(&self, op: LF::Input, trial: Trial<LF>) -> bool {
        &&& self.spec_algorithm().generates(op, 0, trial.list, trial.generated)
        &&& trial.generated <= CONTENTION_THRESHOLD ==> {
            &&& performed(&trial.list, trial.executed)
            &&& self.spec_algorithm().concludes(
                trial.executed,
                trial.list,
                if trial.executed is Err {
                    trial.generated + 1
                } else {
                    trial.generated
                },
                trial.verdict,
                trial.wrapped,
            )
        }
    }

    /// What follows `trial`, the `attempts`-th attempt of its call: the
    /// operation escalates where the generator left the contention above the
    /// threshold, and otherwise `judged` decides.
    pub open spec fn decided(trial: Trial<LF>, attempts: nat) -> Attempt<LF::Output> {
        if trial.generated > CONTENTION_THRESHOLD {
            Attempt::Escalate
        } else {
            judged(trial.verdict, trial.wrapped, attempts)
        }
    }

    /// Whether the fast path on `op` can go through the attempts `trials` and
    /// end with `output`: every attempt but the last is followed by a retry,
    /// and the last ends the path, with its output or by escalating.
    pub open spec fn fast_run(
        &self,
        op: LF::Input,
        trials: Seq<Trial<LF>>,
        output: Option<LF::Output>,
    ) -> bool {
        &&& 1 <= trials.len() <= RETRY_THRESHOLD
        &&& forall|i: int| 0 <= i < trials.len() ==> self.tried(op, #[trigger] trials[i])
        &&& forall|i: int|
            0 <= i < trials.len() - 1 ==> Self::decided(#[trigger] trials[i], (i + 1) as nat)
                is Retry
        &&& match Self::decided(trials.last(), trials.len()) {
            Attempt::Output(out) => output == Some(out),
            Attempt::Escalate => output is None,
            Attempt::Retry => false,
        }
    }

    /// Whether `self` is `before` after the fast path ran on `op` and gave
    /// `output`: nothing but the count of attempts has changed.
    pub open spec fn tried_fast(
        &self,
        before: &Self,
        op: LF::Input,
        output: Option<LF::Output>,
    ) -> bool {
        &&& self.spec_algorithm() == before.spec_algorithm()
        &&& self.spec_patience() == before.spec_patience()
        &&& self.boxes() == before.boxes()
        &&& self.queue() == before.queue()
        &&& exists|trials: Seq<Trial<LF>>|
            {
                &&& #[trigger] self.fast_run(op, trials, output)
                &&& self.attempts() == before.attempts() + trials.len()
            }
    }

    /// Whether `self` is `before` after the front of the help queue, if there
    /// was one, was helped with up to `budget` transitions: its box has seen
    /// `budget` installs, or fewer and is `Completed`; where it is
    /// `Completed` its ticket has left the queue; nothing else has changed.
    pub open spec fn helped_first(&self, before: &Self, budget: usize) -> bool {
        &&& self.extends(before)
        &&& self.boxes().len() == before.boxes().len()
        &&& self.attempts() == before.attempts()
        &&& before.queue().len() == 0 ==> *self == *before
        &&& before.queue().len() > 0 ==> {
            let front = before.queue()[0];
            let done = self.boxes()[front as int].state() is Completed;
            &&& forall|t: int|
                0 <= t < before.boxes().len() && t != front ==> self.boxes()[t]
                    == before.boxes()[t]
            &&& self.queue() == if done {
                before.queue().drop_first()
            } else {
                before.queue()
            }
            &&& self.work() - before.work() == self.installs(front) - before.installs(front)
            &&& self.work() - before.work() <= budget
            &&& !done ==> self.work() - before.work() == budget
        }
    }

    /// Whether `self` is `before` after a record for `op`, entered by
    /// `owner`, was published and its ticket enqueued.
    pub open spec fn published_from(&self, before: &Self, owner: u64, op: LF::Input) -> bool {
        &&& self.spec_algorithm() == before.spec_algorithm()
        &&& self.spec_patience() == before.spec_patience()
        &&& self.attempts() == before.attempts()
        &&& self.boxes().len() == before.boxes().len() + 1
        &&& self.boxes().drop_last() == before.boxes()
        &&& self.boxes().last().owner() == owner
        &&& self.boxes().last().input() == op
        &&& self.boxes().last().history() == seq![OperationState::<LF>::PreCas]
        &&& self.queue() == before.queue().push(before.boxes().len() as usize)
    }

    /// Whether `states` are the states that the simulator went through, from
    /// `before` to `self`, in rounds of pursuing the operation of `ticket`:
    /// before each round the record was not `Completed`, and in each round
    /// the front of the help queue was helped with one transition.
    pub open spec fn spun(&self, before: &Self, ticket: usize, states: Seq<Self>) -> bool {
        &&& states.len() >= 1
        &&& states[0] == *before
        &&& states.last() == *self
        &&& forall|i: int|
            0 <= i < states.len() - 1 ==> {
                &&& !((#[trigger] states[i]).boxes()[ticket as int].state() is Completed)
                &&& states[i + 1].helped_first(&states[i], 1)
            }
    }

    /// Whether `self` is `before` after the operation of `ticket` was
    /// pursued for up to the simulator's patience in rounds, with `progress`
    /// as the result: the rounds went on until the record was `Completed`,
    /// which finishes the call with a clone of the output, or for the whole
    /// patience, after which the operation is pending.
    pub open spec fn resumed(
        &self,
        before: &Self,
        ticket: usize,
        progress: Progress<LF::Output>,
    ) -> bool {
        &&& exists|states: Seq<Self>|
            {
                &&& #[trigger] self.spun(before, ticket, states)
                &&& states.len() - 1 <= before.spec_patience()
                &&& progress is Pending ==> states.len() - 1 == before.spec_patience()
            }
        &&& self.extends(before)
        &&& self.boxes().len() == before.boxes().len()
        &&& self.attempts() == before.attempts()
        &&& self.queue().is_suffix_of(before.queue())
        &&& before.work() <= self.work() <= before.work() + before.spec_patience()
        &&& before.boxes()[ticket as int].state() is Completed ==> *self == *before
        &&& match progress {
            Progress::Finished(out) => {
                &&& self.boxes()[ticket as int].state() is Completed
                &&& cloned(self.boxes()[ticket as int].state()->Completed_0, out)
            },
            Progress::Pending(waiting) => {
                &&& waiting == ticket
                &&& !(self.boxes()[ticket as int].state() is Completed)
                &&& self.queue().contains(ticket)
                &&& self.work() - before.work() + before.queue().len() - self.queue().len()
                    >= before.spec_patience()
            },
        }
    }

    /// Whether `self` is `before` after `run` was called for `owner` with
    /// `op` and returned `progress`: the front of the help queue was helped
    /// for the simulator's patience; then the fast path ran on `op`; where
    /// it gave an output the call finished with it; where it gave none, a
    /// record for `op` was published and pursued.
    pub open spec fn ran(
        &self,
        before: &Self,
        owner: u64,
        op: LF::Input,
        progress: Progress<LF::Output>,
    ) -> bool {
        exists|helped: Self, tried: Self, fast: Option<LF::Output>|
            {
                &&& helped.helped_first(before, before.spec_patience())
                &&& #[trigger] tried.tried_fast(&helped, op, fast)
                &&& match fast {
                    Some(out) => *self == tried && progress == Progress::Finished(out),
                    None => exists|entered: Self|
                        {
                            &&& #[trigger] entered.published_from(&tried, owner, op)
                            &&& self.resumed(&entered, tried.boxes().len() as usize, progress)
                        },
                }
            }
    }

    /// What is sound for one simulator is sound for another with the same
    /// algorithm.
    proof fn lemma_sound_transfers(&self, other: &Self, record: OperationRecordBox<LF>)
        requires
            self.spec_algorithm() == other.spec_algorithm(),
            self.sound(record),
        ensures
            other.sound(record),
    {
        assert forall|i: int| 0 <= i < record.history().len() - 1 implies other.advances(
            record.input(),
            #[trigger] record.history()[i],
            record.history()[i + 1],
        ) by {
            assert(self.advances(record.input(), record.history()[i], record.history()[i + 1]));
        }
        if record.state() is Completed {
            let output = record.state()->Completed_0;
            let (list, executed, seen) = choose|
                list: LF::Cases,
                executed: Result<(), usize>,
                seen: nat,
            |
                {
                    &&& self.generated(record.input(), list)
                    &&& performed(&list, executed)
                    &&& #[trigger] self.concluded(executed, list, seen, Ok(output))
                };
            assert(other.concluded(executed, list, seen, Ok(output)));
        }
    }

    /// The invariant does not depend on the number of attempts made.
    proof fn lemma_wf_transfers(&self, other: &Self)
        requires
            self.wf(),
            self.spec_algorithm() == other.spec_algorithm(),
            self.boxes() == other.boxes(),
            self.queue() == other.queue(),
        ensures
            other.wf(),
    {
        assert forall|t: int| 0 <= t < other.boxes().len() implies other.sound(
            #[trigger] other.boxes()[t],
        ) by {
            self.lemma_sound_transfers(other, self.boxes()[t]);
        }
    }

    /// A simulator for `algorithm` with an empty help queue, in which a call
    /// spends at most `patience` rounds on each helping stretch.
    pub fn new(algorithm: LF, patience: usize) -> (simulator: Self)
        ensures
            simulator.wf(),
            simulator.spec_algorithm() == algorithm,
            simulator.spec_patience() == patience,
            simulator.queue() == Seq::<usize>::empty(),
            simulator.boxes() == Seq::<OperationRecordBox<LF>>::empty(),
            simulator.attempts() == 0,
            simulator.steps() == 0,
    {
        let attempts = Ghost(0nat);
        WaitFreeSimulator {
            algorithm,
            help: HelpQueue::new(),
            boxes: Vec::new(),
            patience,
            attempts,
        }
    }

    /// The algorithm that the simulator runs.
    #[verifier::when_used_as_spec(spec_algorithm)]
    pub fn algorithm(&self) -> (algorithm: &LF)
        ensures
            algorithm == self.spec_algorithm(),
    {
        &self.algorithm
    }

    /// The simulator's patience, as given at construction.
    #[verifier::when_used_as_spec(spec_patience)]
    pub fn patience(&self) -> (patience: usize)
        ensures
            patience == self.spec_patience(),
    {
        self.patience
    }

    /// The number of record boxes published so far. The tickets in use are
    /// the numbers below it.
    pub fn published(&self) -> (count: usize)
        ensures
            count == self.boxes().len(),
    {
        self.boxes.len()
    }

    /// The record box that `ticket` names.
    pub fn record_box(&self, ticket: usize) -> (published: &OperationRecordBox<LF>)
        requires
            ticket < self.boxes().len(),
        ensures
            *published == self.boxes()[ticket as int],
    {
        &self.boxes[ticket]
    }

    /// The number of tickets that wait in the help queue.
    pub fn pending(&self) -> (waiting: usize)
        ensures
            waiting == self.queue().len(),
    {
        self.help.len()
    }

    /// Executes the descriptors of `descriptors` in order. Stops at the
    /// first one that fails, records the failure in `contention` and returns
    /// its position; returns `Ok` when all of them have succeeded.
    pub fn cas_execute(
        &self,
        descriptors: &LF::Cases,
        contention: &mut ContentionMeasure,
    ) -> (executed: Result<(), usize>)
        requires
            old(contention).count() < usize::MAX,
        ensures
            performed(descriptors, executed),
            executed.is_ok() ==> final(contention).count() == old(contention).count(),
            executed.is_err() ==> final(contention).count() == old(contention).count() + 1,
    {
        let len: usize = descriptors.len();
        let mut i: usize = 0;
        while i < len
            invariant
                len == descriptors.spec_len(),
                i <= len,
                *contention == *old(contention),
                contention.count() < usize::MAX,
                forall|j: usize| j < i ==> (#[trigger] descriptors.spec_index(j)).may_yield(true),
            decreases len - i,
        {
            if descriptors.get(i).execute().is_err() {
                let _ = contention.detected();
                return Err(i);
            }
            i = i + 1;
        }
        Ok(())
    }

    /// Advances the record of `ticket` by one transition, computed from the
    /// state it is in and with a fresh contention measure: `PreCas`
    /// generates the list, `ExecuteCas` executes it, `PostCas` wraps up and
    /// either completes the record or sends it back to `PreCas`. A
    /// `Completed` record is left alone.
    pub fn help_step(&mut self, ticket: usize) -> (moved: bool)
        requires
            old(self).wf(),
            ticket < old(self).boxes().len(),
        ensures
            final(self).wf(),
            final(self).extends(old(self)),
            final(self).queue() == old(self).queue(),
            final(self).attempts() == old(self).attempts(),
            final(self).boxes().len() == old(self).boxes().len(),
            forall|t: int|
                0 <= t < old(self).boxes().len() && t != ticket ==> final(self).boxes()[t] == old(
                    self,
                ).boxes()[t],
            moved == !(old(self).boxes()[ticket as int].state() is Completed),
            moved ==> {
                &&& final(self).advances(
                    old(self).boxes()[ticket as int].input(),
                    old(self).boxes()[ticket as int].state(),
                    final(self).boxes()[ticket as int].state(),
                )
                &&& final(self).boxes()[ticket as int].history() == old(
                    self,
                ).boxes()[ticket as int].history().push(final(self).boxes()[ticket as int].state())
                &&& final(self).work() == old(self).work() + 1
            },
            !moved ==> *final(self) == *old(self),
    {
        let mut contention = ContentionMeasure::new();
        let ghost prior = *self;
        let ghost before = self.boxes()[ticket as int];
        assert(self.sound(before));
        let moved = match &self.boxes[ticket].record().state {
            OperationState::PreCas => {
                let list = self.algorithm.generator(
                    &self.boxes[ticket].record().input,
                    &mut contention,
                );
                assert(self.spec_algorithm().generates(
                    before.input(),
                    0,
                    list,
                    contention.count(),
                ));
                let ghost counted = contention.count();
                self.boxes[ticket].install_generated(list);
                assert(self.spec_algorithm().generates(before.input(), 0, list, counted));
                true
            },
            OperationState::ExecuteCas(list) => {
                let executed = self.cas_execute(list, &mut contention);
                self.boxes[ticket].install_executed(executed);
                true
            },
            OperationState::PostCas(list, executed) => {
                let verdict = self.algorithm.wrap_up(*executed, list, &mut contention);
                assert(verdict is Err ==> verdict->Err_0 =~= ());
                let ghost counted = contention.count();
                let ghost wrapped = (*executed, *list);
                self.boxes[ticket].install_concluded(verdict);
                assert(self.spec_algorithm().concludes(wrapped.0, wrapped.1, 0, verdict, counted));
                true
            },
            OperationState::Completed(_) => false,
        };
        proof {
            let after = self.boxes()[ticket as int];
            prior.lemma_sound_transfers(self, before);
            if moved {
                assert(after.state() == after.history().last());
                assert(self.advances(before.input(), before.state(), after.state()));
                assert(self.lawful(after)) by {
                    assert forall|i: int|
                        0 <= i < after.history().len() - 1 implies self.advances(
                        after.input(),
                        #[trigger] after.history()[i],
                        after.history()[i + 1],
                    ) by {
                        if i < before.history().len() - 1 {
                            assert(self.advances(
                                before.input(),
                                before.history()[i],
                                before.history()[i + 1],
                            ));
                        }
                    }
                }
                if after.state() is Completed {
                    assert(self.concluded(
                        before.state()->PostCas_1,
                        before.state()->PostCas_0,
                        0,
                        Ok(after.state()->Completed_0),
                    ));
                }
                assert(self.sound(after));
                assert forall|i: int| 0 <= i < prior.boxes().len() implies (
                #[trigger] prior.boxes()[i]).history().len() >= 1 by {
                    assert(prior.sound(prior.boxes()[i]));
                }
                lemma_installs_change(prior.boxes(), self.boxes(), ticket as int);
            }
            assert forall|t: int| 0 <= t < self.boxes().len() implies self.sound(
                #[trigger] self.boxes()[t],
            ) by {
                if t != ticket {
                    prior.lemma_sound_transfers(self, prior.boxes()[t]);
                }
            }
        }
        moved
    }

    /// Advances the record of `ticket` until it is `Completed` or `budget`
    /// transitions have been installed. Once the record is `Completed`, the
    /// ticket is removed from the help queue if it stands at its front.
    /// Returns whether the record is `Completed`.
    pub fn help_op(&mut self, ticket: usize, budget: usize) -> (done: bool)
        requires
            old(self).wf(),
            ticket < old(self).boxes().len(),
        ensures
            final(self).wf(),
            final(self).extends(old(self)),
            final(self).attempts() == old(self).attempts(),
            final(self).boxes().len() == old(self).boxes().len(),
            forall|t: int|
                0 <= t < old(self).boxes().len() && t != ticket ==> final(self).boxes()[t] == old(
                    self,
                ).boxes()[t],
            done == (final(self).boxes()[ticket as int].state() is Completed),
            final(self).queue() == if done && old(self).queue().len() > 0 && old(self).queue()[0]
                == ticket {
                old(self).queue().drop_first()
            } else {
                old(self).queue()
            },
            done ==> final(self).queue().len() == 0 || final(self).queue()[0] != ticket,
            final(self).work() - old(self).work() == final(self).installs(ticket) - old(
                self,
            ).installs(ticket),
            final(self).work() - old(self).work() <= budget,
            !done ==> final(self).work() - old(self).work() == budget,
    {
        let mut left: usize = budget;
        loop
            invariant
                self.wf(),
                self.extends(old(self)),
                self.attempts() == old(self).attempts(),
                ticket < self.boxes().len(),
                self.boxes().len() == old(self).boxes().len(),
                forall|t: int|
                    0 <= t < old(self).boxes().len() && t != ticket ==> self.boxes()[t] == old(
                        self,
                    ).boxes()[t],
                self.queue() == old(self).queue(),
                left <= budget,
                self.work() - old(self).work() == budget - left,
                self.work() - old(self).work() == self.installs(ticket) - old(self).installs(
                    ticket,
                ),
            decreases left,
        {
            if self.boxes[ticket].is_completed() {
                let ghost waiting = self.help@;
                let ghost prior = *self;
                let removed = self.help.try_remove_front(ticket);
                proof {
                    assert forall|k: int| 0 <= k < self.queue().len() implies (
                    #[trigger] self.queue()[k]) < self.boxes().len() by {
                        if removed.is_ok() {
                            assert(self.queue()[k] == waiting[k + 1]);
                        }
                    }
                    assert forall|t: int| 0 <= t < self.boxes().len() implies self.sound(
                        #[trigger] self.boxes()[t],
                    ) by {
                        prior.lemma_sound_transfers(self, prior.boxes()[t]);
                    }
                    assert forall|t: usize| t < self.boxes().len() implies (
                    #[trigger] self.boxes()[t as int]).state() is Completed
                        || self.queue().contains(t) by {
                        if removed.is_ok() && !(self.boxes()[t as int].state() is Completed) {
                            let k = choose|k: int| 0 <= k < waiting.len() && waiting[k] == t;
                            assert(self.queue()[k - 1] == t);
                        }
                    }
                    if removed.is_ok() {
                        assert forall|i: int, j: int|
                            0 <= i < self.queue().len() && 0 <= j < self.queue().len() && i
                                != j implies self.queue()[i] != self.queue()[j] by {
                            assert(waiting[i + 1] != waiting[j + 1]);
                        }
                        if self.queue().len() > 0 {
                            assert(self.queue()[0] == waiting[1]);
                            assert(waiting[0] != waiting[1]);
                        }
                    }
                }
                return true;
            }
            if left == 0 {
                return false;
            }
            let _ = self.help_step(ticket);
            left = left - 1;
        }
    }

    /// Helps the operation at the front of the help queue, if there is one,
    /// with up to `budget` transitions.
    pub fn help_first(&mut self, budget: usize)
        requires
            old(self).wf(),
        ensures
            final(self).wf(),
            final(self).helped_first(old(self), budget),
            final(self).queue().is_suffix_of(old(self).queue()),
            old(self).queue().len() > 0 ==> {
                let front = old(self).queue()[0];
                final(self).boxes()[front as int].state() is Completed ==> final(
                    self
                ).queue().len() == 0 || final(self).queue()[0] != front
            },
    {
        match self.help.peek() {
            Some(front) => {
                let _ = self.help_op(front, budget);
            },
            None => {},
        }
    }

    /// The optimistic path: at least one and at most `RETRY_THRESHOLD`
    /// attempts, each with a fresh contention measure, to generate, execute
    /// and wrap up without publishing anything. An attempt ends the path
    /// without output if its generator leaves the contention above the
    /// threshold, and otherwise as `judge` decides. Returns the output of the
    /// first attempt whose wrap-up succeeds.
    pub fn fast_path(&mut self, op: &LF::Input) -> (output: Option<LF::Output>)
        ensures
            final(self).tried_fast(old(self), *op, output),
            old(self).attempts() < final(self).attempts() <= old(self).attempts()
                + RETRY_THRESHOLD,
            output matches Some(out) ==> final(self).answers(*op, out),
    {
        let mut attempts: usize = 0;
        let ghost mut trials: Seq<Trial<LF>> = Seq::empty();
        while attempts < RETRY_THRESHOLD
            invariant
                attempts < RETRY_THRESHOLD,
                trials.len() == attempts,
                forall|i: int| 0 <= i < trials.len() ==> self.tried(*op, #[trigger] trials[i]),
                forall|i: int|
                    0 <= i < trials.len() ==> Self::decided(#[trigger] trials[i], (i + 1) as nat)
                        is Retry,
                self.spec_algorithm() == old(self).spec_algorithm(),
                self.spec_patience() == old(self).spec_patience(),
                self.boxes() == old(self).boxes(),
                self.queue() == old(self).queue(),
                self.attempts() == old(self).attempts() + attempts,
            decreases RETRY_THRESHOLD - attempts,
        {
            let mut contention = ContentionMeasure::new();
            let cases = self.algorithm.generator(op, &mut contention);
            attempts = attempts + 1;
            let ghost generated = contention.count();
            proof {
                self.attempts@ = self.attempts@ + 1;
            }
            if contention.use_slow_path() {
                proof {
                    let trial = Trial::<LF> {
                        list: cases,
                        generated,
                        executed: Ok(()),
                        verdict: Err(()),
                        wrapped: 0,
                    };
                    let ghost earlier = trials;
                    trials = trials.push(trial);
                    assert forall|i: int| 0 <= i < trials.len() - 1 implies Self::decided(
                        #[trigger] trials[i],
                        (i + 1) as nat,
                    ) is Retry by {
                        assert(trials[i] == earlier[i]);
                    }
                    assert(self.fast_run(*op, trials, None));
                }
                return None;
            }
            let executed = self.cas_execute(&cases, &mut contention);
            let verdict = self.algorithm.wrap_up(executed, &cases, &mut contention);
            let ghost trial = Trial::<LF> {
                list: cases,
                generated,
                executed,
                verdict,
                wrapped: contention.count(),
            };
            let ghost earlier = trials;
            proof {
                trials = trials.push(trial);
                assert(self.tried(*op, trial));
                assert forall|i: int| 0 <= i < trials.len() - 1 implies Self::decided(
                    #[trigger] trials[i],
                    (i + 1) as nat,
                ) is Retry by {
                    assert(trials[i] == earlier[i]);
                }
            }
            match judge(verdict, &contention, attempts) {
                Attempt::Output(out) => {
                    proof {
                        assert(trial.verdict == Ok::<LF::Output, ()>(out));
                        assert(self.fast_run(*op, trials, Some(out)));
                        assert(self.generated(*op, cases));
                        let seen = if executed is Err {
                            generated + 1
                        } else {
                            generated
                        };
                        assert(self.spec_algorithm().concludes(
                            executed,
                            cases,
                            seen,
                            Ok(out),
                            trial.wrapped,
                        ));
                        assert(self.concluded(executed, cases, seen, Ok(out)));
                    }
                    return Some(out);
                },
                Attempt::Escalate => {
                    proof {
                        assert(self.fast_run(*op, trials, None));
                    }
                    return None;
                },
                Attempt::Retry => {},
            }
        }
        None
    }

    /// Pursues the queued operation of `ticket`: while its record is not
    /// `Completed`, helps the front of the help queue by one transition, for
    /// at most the simulator's patience in rounds. Returns a clone of the
    /// output once the record is `Completed`.
    pub fn resume(&mut self, ticket: usize) -> (progress: Progress<LF::Output>)
        requires
            old(self).wf(),
            ticket < old(self).boxes().len(),
        ensures
            final(self).wf(),
            final(self).resumed(old(self), ticket, progress),
            final(self).steps() - old(self).steps() == final(self).work() - old(self).work(),
    {
        let mut left: usize = self.patience;
        let ghost mut states: Seq<Self> = Seq::empty().push(*self);
        loop
            invariant
                self.wf(),
                self.extends(old(self)),
                self.attempts() == old(self).attempts(),
                ticket < self.boxes().len(),
                self.boxes().len() == old(self).boxes().len(),
                left <= self.spec_patience(),
                old(self).work() <= self.work() <= old(self).work() + self.spec_patience() - left,
                left < self.spec_patience() ==> !(old(self).boxes()[ticket as int].state()
                    is Completed),
                left == self.spec_patience() ==> *self == *old(self),
                self.queue().is_suffix_of(old(self).queue()),
                self.work() - old(self).work() + old(self).queue().len() - self.queue().len()
                    >= self.spec_patience() - left,
                self.spun(old(self), ticket, states),
                states.len() - 1 == self.spec_patience() - left,
            decreases left,
        {
            match self.boxes[ticket].output() {
                Some(out) => {
                    return Progress::Finished(out.clone());
                },
                None => {},
            }
            if left == 0 {
                return Progress::Pending(ticket);
            }
            let ghost waiting = self.queue();
            let ghost earlier = *self;
            self.help_first(1);
            proof {
                assert(waiting.contains(ticket));
                lemma_suffix_of_suffix(self.queue(), waiting, old(self).queue());
                let so_far = states;
                states = states.push(*self);
                assert forall|i: int| 0 <= i < states.len() - 1 implies {
                    &&& !((#[trigger] states[i]).boxes()[ticket as int].state() is Completed)
                    &&& states[i + 1].helped_first(&states[i], 1)
                } by {
                    if i < so_far.len() - 1 {
                        assert(states[i] == so_far[i]);
                        assert(states[i + 1] == so_far[i + 1]);
                    } else {
                        assert(states[i] == earlier);
                    }
                }
            }
            left = left - 1;
        }
    }

    /// Runs `op` for the caller `owner`.
    ///
    /// First helps the operation at the front of the help queue. Then tries
    /// `op` on the fast path, and finishes with its output if it gives one.
    /// If it gives none, publishes a `PreCas` record for `op`, enqueues its
    /// ticket and pursues it as `resume` does.
    pub fn run(&mut self, owner: u64, op: LF::Input) -> (progress: Progress<LF::Output>)
        requires
            old(self).wf(),
        ensures
            final(self).wf(),
            final(self).extends(old(self)),
            final(self).ran(old(self), owner, op, progress),
            1 <= final(self).attempts() - old(self).attempts() <= RETRY_THRESHOLD,
            final(self).work() - old(self).work() <= 2 * old(self).spec_patience(),
            final(self).steps() - old(self).steps() == final(self).attempts() - old(
                self,
            ).attempts() + final(self).work() - old(self).work(),
            final(self).boxes().len() <= old(self).boxes().len() + 1,
            match progress {
                Progress::Finished(out) => exists|output: LF::Output|
                    #[trigger] final(self).answers(op, output) && cloned(output, out),
                Progress::Pending(ticket) => {
                    &&& ticket == old(self).boxes().len()
                    &&& final(self).boxes().len() == ticket + 1
                    &&& !(final(self).boxes()[ticket as int].state() is Completed)
                    &&& final(self).queue().contains(ticket)
                },
            },
    {
        self.help_first(self.patience);
        let ghost helped = *self;
        let fast = self.fast_path(&op);
        let ghost tried = *self;
        proof {
            helped.lemma_wf_transfers(self);
        }
        match fast {
            Some(out) => {
                assert(tried.tried_fast(&helped, op, Some(out)));
                return Progress::Finished(out);
            },
            None => {},
        }
        let ticket = self.boxes.len();
        self.boxes.push(OperationRecordBox::new(owner, op));
        self.help.enqueue(ticket);
        let ghost entered = *self;
        proof {
            assert(self.boxes().drop_last() =~= tried.boxes());
            assert(entered.published_from(&tried, owner, op));
            lemma_installs_push(tried.boxes(), self.boxes().last());
            assert forall|t: int| 0 <= t < self.boxes().len() implies self.sound(
                #[trigger] self.boxes()[t],
            ) by {
                if t < ticket {
                    helped.lemma_sound_transfers(self, helped.boxes()[t]);
                }
            }
            assert forall|t: usize| t < self.boxes().len() implies (
            #[trigger] self.boxes()[t as int]).state() is Completed || self.queue().contains(
                t,
            ) by {
                if t < ticket {
                    if !(self.boxes()[t as int].state() is Completed) {
                        let k = choose|k: int|
                            0 <= k < helped.queue().len() && helped.queue()[k] == t;
                        assert(self.queue()[k] == t);
                    }
                } else {
                    assert(self.queue()[self.queue().len() - 1] == t);
                }
            }
        }
        let progress = self.resume(ticket);
        proof {
            assert(tried.tried_fast(&helped, op, None));
            assert(self.resumed(&entered, ticket, progress));
        }
        progress
    }
}

} // verus!
