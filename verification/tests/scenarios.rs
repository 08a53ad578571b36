//! End-to-end scenarios on a shared counter. The one operation adds a fixed
//! step to the counter with a single descriptor and returns the value that it
//! replaced. Several callers are played by taking turns on one simulator.

use std::cell::Cell;
use std::rc::Rc;
use wait_free::{
    CasDescriptor, CasDescriptors, ContentionMeasure, NormalizedLockFree, OperationState,
    Progress, WaitFreeSimulator, RETRY_THRESHOLD,
};

/// The counter, the disturbances that a test can switch on, and what the
/// algorithm was asked to do.
#[derive(Default)]
struct Shared {
    value: Cell<u64>,
    /// How many of the next executions of unresolved descriptors fail
    /// whatever the counter holds.
    failing_cas: Cell<u64>,
    /// Whether every generator pass reports contention above the threshold.
    crowded: Cell<bool>,
    generator_calls: Cell<u64>,
    executions: Cell<u64>,
    wrap_up_calls: Cell<u64>,
}

impl Shared {
    fn calls(&self) -> u64 {
        self.generator_calls.get() + self.executions.get() + self.wrap_up_calls.get()
    }
}

fn bump(cell: &Cell<u64>) {
    cell.set(cell.get() + 1);
}

/// Writes `new` over `expected`. The first execution resolves the
/// descriptor; later ones report the same outcome and write nothing.
struct CounterCas {
    shared: Rc<Shared>,
    expected: u64,
    new: u64,
    resolved: Cell<Option<bool>>,
}

impl CasDescriptor for CounterCas {
    fn execute(&self) -> Result<(), ()> {
        bump(&self.shared.executions);
        let succeeded = match self.resolved.get() {
            Some(outcome) => outcome,
            None => {
                let outcome = if self.shared.failing_cas.get() > 0 {
                    self.shared.failing_cas.set(self.shared.failing_cas.get() - 1);
                    false
                } else if self.shared.value.get() == self.expected {
                    self.shared.value.set(self.new);
                    true
                } else {
                    false
                };
                self.resolved.set(Some(outcome));
                outcome
            }
        };
        if succeeded {
            Ok(())
        } else {
            Err(())
        }
    }
}

#[derive(Clone)]
struct CasList(Rc<Vec<CounterCas>>);

impl CasDescriptors<CounterCas> for CasList {
    fn spec_len(&self) -> usize {
        self.0.len()
    }

    fn spec_index(&self, i: usize) -> &CounterCas {
        &self.0[i]
    }

    fn len(&self) -> usize {
        self.0.len()
    }

    fn get(&self, i: usize) -> &CounterCas {
        &self.0[i]
    }
}

#[derive(Clone)]
struct Increment;

struct Counter {
    shared: Rc<Shared>,
    step: u64,
}

impl Counter {
    fn starting_at(value: u64) -> Counter {
        let shared = Shared::default();
        shared.value.set(value);
        Counter { shared: Rc::new(shared), step: 1 }
    }

    /// A counter whose operation writes back the value that it read.
    fn identity_at(value: u64) -> Counter {
        Counter { step: 0, ..Counter::starting_at(value) }
    }

    fn value(&self) -> u64 {
        self.shared.value.get()
    }
}

impl NormalizedLockFree for Counter {
    type Input = Increment;
    type Output = u64;
    type Cas = CounterCas;
    type Cases = CasList;

    fn generator(&self, _op: &Increment, contention: &mut ContentionMeasure) -> CasList {
        bump(&self.shared.generator_calls);
        if self.shared.crowded.get() {
            for _ in 0..3 {
                let _ = contention.detected();
            }
        }
        let seen = self.shared.value.get();
        CasList(Rc::new(vec![CounterCas {
            shared: self.shared.clone(),
            expected: seen,
            new: seen + self.step,
            resolved: Cell::new(None),
        }]))
    }

    fn wrap_up(
        &self,
        executed: Result<(), usize>,
        performed: &CasList,
        _contention: &mut ContentionMeasure,
    ) -> Result<u64, ()> {
        bump(&self.shared.wrap_up_calls);
        match executed {
            Ok(()) => Ok(performed.0[0].expected),
            Err(_) => Err(()),
        }
    }
}

fn finished(progress: Progress<u64>) -> u64 {
    match progress {
        Progress::Finished(out) => out,
        Progress::Pending(ticket) => panic!("still pending under ticket {}", ticket),
    }
}

fn pending(progress: Progress<u64>) -> usize {
    match progress {
        Progress::Finished(out) => panic!("already finished with {}", out),
        Progress::Pending(ticket) => ticket,
    }
}

/// One caller in a round of turns: the operations it still has to enter, the
/// ticket it waits on, and how often it had to resume its current operation.
struct Caller {
    owner: u64,
    to_enter: usize,
    waiting: Option<usize>,
    resumed: usize,
}

struct Outcome {
    outputs: Vec<u64>,
    /// The largest number of resumes that one operation needed.
    most_resumes: usize,
}

/// Lets `callers` callers take turns until each has finished `each`
/// operations. Before every turn `disturb` may change the faults. A caller
/// that is through takes no more turns.
fn take_turns(
    simulator: &mut WaitFreeSimulator<Counter>,
    callers: usize,
    each: usize,
    mut disturb: impl FnMut(&Shared),
) -> Outcome {
    let mut team: Vec<Caller> = (0..callers)
        .map(|owner| Caller { owner: owner as u64, to_enter: each, waiting: None, resumed: 0 })
        .collect();
    let mut outcome = Outcome { outputs: Vec::new(), most_resumes: 0 };
    let mut turns = 0usize;
    while team.iter().any(|caller| caller.to_enter > 0 || caller.waiting.is_some()) {
        for caller in team.iter_mut() {
            turns += 1;
            assert!(
                turns <= 100 * callers * each + 1000,
                "no end after {} turns: {} finished, {} published, {} waiting, {} failures armed",
                turns,
                outcome.outputs.len(),
                simulator.published(),
                simulator.pending(),
                simulator.algorithm().shared.failing_cas.get()
            );
            if caller.waiting.is_none() && caller.to_enter == 0 {
                continue;
            }
            disturb(&simulator.algorithm().shared);
            let progress = match caller.waiting {
                Some(ticket) => {
                    assert!(ticket < simulator.published());
                    caller.resumed += 1;
                    simulator.resume(ticket)
                }
                None => {
                    caller.to_enter -= 1;
                    caller.resumed = 0;
                    simulator.run(caller.owner, Increment)
                }
            };
            match progress {
                Progress::Finished(out) => {
                    outcome.outputs.push(out);
                    outcome.most_resumes = outcome.most_resumes.max(caller.resumed);
                    caller.waiting = None;
                }
                Progress::Pending(ticket) => caller.waiting = Some(ticket),
            }
        }
    }
    outcome
}

fn sorted(mut values: Vec<u64>) -> Vec<u64> {
    values.sort();
    values
}

#[test]
fn single_increment_returns_old_value() {
    let mut simulator = WaitFreeSimulator::new(Counter::starting_at(0), 8);
    assert_eq!(finished(simulator.run(1, Increment)), 0);
    assert_eq!(simulator.algorithm().value(), 1);
    assert_eq!(simulator.pending(), 0);
    // The fast path sufficed: nothing was published.
    assert_eq!(simulator.published(), 0);
}

#[test]
fn increments_in_a_row_return_consecutive_values() {
    let mut simulator = WaitFreeSimulator::new(Counter::starting_at(40), 8);
    for expected in 40..50 {
        assert_eq!(finished(simulator.run(1, Increment)), expected);
    }
    assert_eq!(simulator.algorithm().value(), 50);
}

#[test]
fn four_callers_with_a_thousand_increments_each() {
    let mut simulator = WaitFreeSimulator::new(Counter::starting_at(0), 2);
    let outcome = take_turns(&mut simulator, 4, 1000, |_| {});
    assert_eq!(simulator.algorithm().value(), 4000);
    assert_eq!(sorted(outcome.outputs), (0..4000).collect::<Vec<u64>>());
    assert_eq!(simulator.pending(), 0);
}

#[test]
fn cas_that_fails_twice_sends_the_call_to_the_slow_path() {
    let mut simulator = WaitFreeSimulator::new(Counter::starting_at(0), 8);
    simulator.algorithm().shared.failing_cas.set(2);
    let first = finished(simulator.run(1, Increment));
    // Both optimistic attempts failed, so the operation was published and
    // completed by helping.
    assert_eq!(simulator.published(), 1);
    assert!(simulator.record_box(0).is_completed());
    let second = finished(simulator.run(2, Increment));
    assert_eq!(simulator.published(), 1);
    assert_eq!(simulator.algorithm().value(), 2);
    assert_eq!(sorted(vec![first, second]), vec![0, 1]);
    assert_eq!(simulator.pending(), 0);
}

#[test]
fn forced_contention_sends_every_call_to_the_help_queue() {
    let mut simulator = WaitFreeSimulator::new(Counter::starting_at(100), 1);
    simulator.algorithm().shared.crowded.set(true);
    let outcome = take_turns(&mut simulator, 8, 10, |_| {});
    assert_eq!(simulator.algorithm().value(), 180);
    assert_eq!(sorted(outcome.outputs), (100..180).collect::<Vec<u64>>());
    // Every operation went through a record box, and none is left waiting.
    assert_eq!(simulator.published(), 80);
    assert_eq!(simulator.pending(), 0);
    for ticket in 0..80 {
        assert!(simulator.record_box(ticket).is_completed());
    }
}

#[test]
fn one_retry_costs_one_more_generator_call() {
    let mut simulator = WaitFreeSimulator::new(Counter::starting_at(0), 8);
    simulator.algorithm().shared.failing_cas.set(1);
    assert_eq!(finished(simulator.run(1, Increment)), 0);
    assert_eq!(simulator.algorithm().value(), 1);
    assert_eq!(simulator.algorithm().shared.generator_calls.get(), 2);
    assert_eq!(simulator.algorithm().shared.wrap_up_calls.get(), 2);
    assert_eq!(simulator.published(), 0);
}

#[test]
fn sixteen_callers_under_random_contention() {
    let mut simulator = WaitFreeSimulator::new(Counter::starting_at(0), 2);
    let mut seed: u64 = 0x2545_f491_4f6c_dd1d;
    let outcome = take_turns(&mut simulator, 16, 10_000, |shared| {
        seed = seed.wrapping_mul(6364136223846793005).wrapping_add(1442695040888963407);
        let draw = seed >> 33;
        shared.crowded.set(draw % 4 == 0);
        if draw % 8 == 1 {
            shared.failing_cas.set(1);
        }
    });
    assert_eq!(simulator.algorithm().value(), 160_000);
    assert_eq!(sorted(outcome.outputs), (0..160_000).collect::<Vec<u64>>());
    assert_eq!(simulator.pending(), 0);
    // Every queued operation returned after a bounded number of its owner's
    // own turns.
    assert!(outcome.most_resumes <= 64, "an operation took {} resumes", outcome.most_resumes);
}

#[test]
fn identity_operation_leaves_the_counter_unchanged() {
    for callers in [1, 2, 5, 16] {
        let mut simulator = WaitFreeSimulator::new(Counter::identity_at(73), 1);
        let mut turn = 0u64;
        let outcome = take_turns(&mut simulator, callers, 50, |shared| {
            turn += 1;
            shared.crowded.set(turn % 3 == 0);
            if turn % 7 == 0 {
                shared.failing_cas.set(1);
            }
            assert_eq!(shared.value.get(), 73);
        });
        assert_eq!(simulator.algorithm().value(), 73);
        assert_eq!(outcome.outputs, vec![73; callers * 50]);
        assert_eq!(simulator.pending(), 0);
    }
}

#[test]
fn completed_operation_shows_the_same_output_at_every_look() {
    let mut simulator = WaitFreeSimulator::new(Counter::starting_at(5), 0);
    simulator.algorithm().shared.crowded.set(true);
    let ticket = pending(simulator.run(1, Increment));
    assert_eq!(pending(simulator.resume(ticket)), ticket);
    assert!(simulator.help_op(ticket, 3));
    for _ in 0..3 {
        assert_eq!(finished(simulator.resume(ticket)), 5);
    }
    // Later operations change the counter, not the completed record.
    simulator.algorithm().shared.crowded.set(false);
    assert_eq!(finished(simulator.run(2, Increment)), 6);
    simulator.help_first(10);
    let _ = simulator.help_step(ticket);
    assert_eq!(finished(simulator.resume(ticket)), 5);
    assert_eq!(simulator.record_box(ticket).output(), Some(&5));
    assert_eq!(simulator.algorithm().value(), 7);
}

#[test]
fn resume_of_a_completed_operation_does_no_work() {
    let mut simulator = WaitFreeSimulator::new(Counter::starting_at(0), 4);
    simulator.algorithm().shared.failing_cas.set(2);
    assert_eq!(finished(simulator.run(1, Increment)), 0);
    let calls = simulator.algorithm().shared.calls();
    assert_eq!(finished(simulator.resume(0)), 0);
    assert_eq!(simulator.algorithm().shared.calls(), calls);
    assert_eq!(simulator.algorithm().value(), 1);
}

#[test]
fn pending_operation_is_published_with_owner_and_input() {
    let mut simulator = WaitFreeSimulator::new(Counter::starting_at(0), 0);
    simulator.algorithm().shared.crowded.set(true);
    assert_eq!(pending(simulator.run(11, Increment)), 0);
    assert_eq!(pending(simulator.run(12, Increment)), 1);
    assert_eq!(simulator.published(), 2);
    assert_eq!(simulator.pending(), 2);
    assert_eq!(simulator.record_box(0).record().owner, 11);
    assert_eq!(simulator.record_box(1).record().owner, 12);
    assert!(matches!(simulator.record_box(0).record().state, OperationState::PreCas));
    assert!(matches!(simulator.record_box(1).record().state, OperationState::PreCas));
    // Nothing took effect yet.
    assert_eq!(simulator.algorithm().value(), 0);
}

#[test]
fn later_caller_helps_the_front_before_its_own_operation() {
    let mut simulator = WaitFreeSimulator::new(Counter::starting_at(0), 1);
    simulator.algorithm().shared.crowded.set(true);
    let first = pending(simulator.run(1, Increment));
    assert!(matches!(simulator.record_box(first).record().state, OperationState::ExecuteCas(_)));
    assert_eq!(simulator.algorithm().value(), 0);

    // The second caller first executes the list of the first, then runs its
    // own operation on the fast path.
    simulator.algorithm().shared.crowded.set(false);
    assert_eq!(finished(simulator.run(2, Increment)), 1);
    assert!(matches!(
        simulator.record_box(first).record().state,
        OperationState::PostCas(_, Ok(()))
    ));
    assert_eq!(simulator.algorithm().value(), 2);

    // The first caller wraps its own operation up.
    assert_eq!(finished(simulator.resume(first)), 0);
    assert_eq!(simulator.pending(), 0);
}

#[test]
fn stale_list_fails_and_the_operation_starts_over() {
    let mut simulator = WaitFreeSimulator::new(Counter::starting_at(0), 0);
    simulator.algorithm().shared.crowded.set(true);
    let ticket = pending(simulator.run(1, Increment));
    simulator.algorithm().shared.crowded.set(false);
    // The list is generated while the counter holds 0.
    assert!(simulator.help_step(ticket));
    // Another operation gets in first.
    assert_eq!(simulator.fast_path(&Increment), Some(0));
    // The list's descriptor finds the counter changed.
    assert!(simulator.help_step(ticket));
    assert!(matches!(
        simulator.record_box(ticket).record().state,
        OperationState::PostCas(_, Err(0))
    ));
    assert!(simulator.help_step(ticket));
    assert!(matches!(simulator.record_box(ticket).record().state, OperationState::PreCas));
    assert!(simulator.help_op(ticket, 3));
    assert_eq!(simulator.record_box(ticket).output(), Some(&1));
    assert_eq!(simulator.algorithm().value(), 2);
}

#[test]
fn zero_patience_publishes_without_helping() {
    let mut simulator = WaitFreeSimulator::new(Counter::starting_at(0), 0);
    simulator.algorithm().shared.failing_cas.set(2);
    let ticket = pending(simulator.run(1, Increment));
    assert_eq!(ticket, 0);
    assert_eq!(simulator.algorithm().shared.generator_calls.get(), RETRY_THRESHOLD as u64);
    assert_eq!(pending(simulator.resume(ticket)), ticket);
    assert_eq!(simulator.algorithm().shared.generator_calls.get(), RETRY_THRESHOLD as u64);
    assert_eq!(simulator.algorithm().value(), 0);
}

#[test]
fn work_of_one_call_is_bounded_whatever_the_contention() {
    let patience = 3;
    let mut simulator = WaitFreeSimulator::new(Counter::starting_at(0), patience);
    assert_eq!(simulator.patience(), patience);
    // No descriptor ever succeeds.
    simulator.algorithm().shared.failing_cas.set(u64::MAX);
    let bound = (3 * RETRY_THRESHOLD + 2 * patience) as u64;
    let mut tickets = Vec::new();
    for owner in 0..20 {
        let before = simulator.algorithm().shared.calls();
        tickets.push(pending(simulator.run(owner, Increment)));
        let spent = simulator.algorithm().shared.calls() - before;
        assert!(spent <= bound);
        // Two attempts of three calls each and three rounds of helping; from
        // the second call on, three more transitions for the waiting front.
        assert_eq!(spent, if owner == 0 { 9 } else { 12 });
    }
    for ticket in tickets {
        let before = simulator.algorithm().shared.calls();
        assert_eq!(pending(simulator.resume(ticket)), ticket);
        assert_eq!(simulator.algorithm().shared.calls() - before, patience as u64);
    }
    assert_eq!(simulator.algorithm().value(), 0);
    assert_eq!(simulator.pending(), 20);
}

#[test]
fn pending_operations_finish_once_the_contention_ends() {
    let mut simulator = WaitFreeSimulator::new(Counter::starting_at(0), 2);
    simulator.algorithm().shared.failing_cas.set(u64::MAX);
    let tickets: Vec<usize> =
        (0..5).map(|owner| pending(simulator.run(owner, Increment))).collect();
    simulator.algorithm().shared.failing_cas.set(0);
    let mut outputs = Vec::new();
    for ticket in tickets {
        loop {
            match simulator.resume(ticket) {
                Progress::Finished(out) => {
                    outputs.push(out);
                    break;
                }
                Progress::Pending(_) => {}
            }
        }
    }
    assert_eq!(sorted(outputs), vec![0, 1, 2, 3, 4]);
    assert_eq!(simulator.algorithm().value(), 5);
    assert_eq!(simulator.pending(), 0);
}

#[test]
fn executing_a_list_twice_is_executing_it_once() {
    let simulator = WaitFreeSimulator::new(Counter::starting_at(10), 4);
    let mut contention = ContentionMeasure::new();
    let list = simulator.algorithm().generator(&Increment, &mut contention);
    assert_eq!(simulator.cas_execute(&list, &mut contention), Ok(()));
    assert_eq!(simulator.algorithm().value(), 11);
    // A second helper runs the same list from its first descriptor again.
    assert_eq!(simulator.cas_execute(&list, &mut contention), Ok(()));
    assert_eq!(simulator.algorithm().value(), 11);
    // So does one that holds a clone of the list.
    assert_eq!(simulator.cas_execute(&list.clone(), &mut contention), Ok(()));
    assert_eq!(simulator.algorithm().value(), 11);
    assert!(!contention.use_slow_path());
}

#[test]
fn failed_list_fails_again_and_changes_nothing() {
    let simulator = WaitFreeSimulator::new(Counter::starting_at(10), 4);
    let mut contention = ContentionMeasure::new();
    let list = simulator.algorithm().generator(&Increment, &mut contention);
    simulator.algorithm().shared.failing_cas.set(1);
    assert_eq!(simulator.cas_execute(&list, &mut contention), Err(0));
    assert_eq!(simulator.algorithm().value(), 10);
    // The counter still holds what the descriptor expects, but the
    // descriptor is resolved: it reports its failure and writes nothing.
    assert_eq!(simulator.cas_execute(&list, &mut contention), Err(0));
    assert_eq!(simulator.algorithm().value(), 10);
}

#[test]
fn output_is_the_one_that_the_wrap_up_gave() {
    let mut simulator = WaitFreeSimulator::new(Counter::starting_at(30), 0);
    simulator.algorithm().shared.crowded.set(true);
    let ticket = pending(simulator.run(4, Increment));
    assert!(simulator.help_op(ticket, 2) == false);
    let expected = match &simulator.record_box(ticket).record().state {
        OperationState::PostCas(list, Ok(())) => list.0[0].expected,
        _ => panic!("the list was not executed"),
    };
    assert_eq!(expected, 30);
    assert!(simulator.help_op(ticket, 1));
    assert_eq!(finished(simulator.resume(ticket)), expected);
}
