//! Operation records: the state machine that carries one operation from its
//! input to its output, and the cell in which successive states are
//! installed.

use crate::algorithm::{performed, NormalizedLockFree};
use vstd::prelude::*;

verus! {

/// Where an operation stands.
pub enum OperationState<LF: NormalizedLockFree> {
    /// Nothing has been generated yet, or a retry was asked for.
    PreCas,
    /// The descriptor list has been generated.
    ExecuteCas(LF::Cases),
    /// The list has been executed, with the given result.
    PostCas(LF::Cases, Result<(), usize>),
    /// The wrap-up has produced the output.
    Completed(LF::Output),
}

impl<LF: NormalizedLockFree> OperationState<LF> {
    /// The position of the state in the order
    /// `PreCas < ExecuteCas < PostCas < Completed`.
    pub open spec fn phase(self) -> nat {
        match self {
            OperationState::PreCas => 0,
            OperationState::ExecuteCas(_) => 1,
            OperationState::PostCas(_, _) => 2,
            OperationState::Completed(_) => 3,
        }
    }

    /// Whether `next` may be installed over `self`: one phase forward with
    /// the list kept, or from `PostCas` back to `PreCas`. Nothing follows
    /// `Completed`.
    pub open spec fn precedes(self, next: Self) -> bool {
        match self {
            OperationState::PreCas => next is ExecuteCas,
            OperationState::ExecuteCas(list) => next is PostCas && next->PostCas_0 == list,
            OperationState::PostCas(_, _) => next is Completed || next is PreCas,
            OperationState::Completed(_) => false,
        }
    }
}

/// An operation together with its state.
pub struct OperationRecord<LF: NormalizedLockFree> {
    /// Identity of the caller that entered the operation.
    pub owner: u64,
    pub input: LF::Input,
    pub state: OperationState<LF>,
}

/// Whether each state of `history` but the first was installed over its
/// predecessor by a permitted transition.
pub open spec fn monotone<LF: NormalizedLockFree>(history: Seq<OperationState<LF>>) -> bool {
    forall|i: int| 0 <= i < history.len() - 1 ==> (#[trigger] history[i]).precedes(history[i + 1])
}

/// The cell that holds the current record of one operation.
///
/// A box is created in `PreCas`. Only the simulator that published it
/// installs further states, each computed from the state that it replaces.
pub struct OperationRecordBox<LF: NormalizedLockFree> {
    record: OperationRecord<LF>,
    installed: Ghost<Seq<OperationState<LF>>>,
}

impl<LF: NormalizedLockFree> OperationRecordBox<LF> {
    /// Identity of the caller that entered the operation.
    pub closed spec fn owner(&self) -> u64 {
        self.record.owner
    }

    /// The operation's input. It stays the same through every install.
    pub closed spec fn input(&self) -> LF::Input {
        self.record.input
    }

    /// The state currently installed.
    pub closed spec fn state(&self) -> OperationState<LF> {
        self.record.state
    }

    /// Every state that was ever installed, oldest first.
    pub closed spec fn history(&self) -> Seq<OperationState<LF>> {
        self.installed@
    }

    /// The history starts at `PreCas`, ends at the current state, and each
    /// state was installed by a permitted transition.
    pub open spec fn wf(&self) -> bool {
        &&& self.history().len() >= 1
        &&& self.history()[0] is PreCas
        &&& self.history().last() == self.state()
        &&& monotone(self.history())
    }

    /// Whether `self` is `before` after zero or more installs.
    pub open spec fn continues(&self, before: &Self) -> bool {
        &&& self.owner() == before.owner()
        &&& self.input() == before.input()
        &&& before.history().is_prefix_of(self.history())
    }

    /// A box whose record is `PreCas` for `input`.
    pub fn new(owner: u64, input: LF::Input) -> (fresh: Self)
        ensures
            fresh.wf(),
            fresh.owner() == owner,
            fresh.input() == input,
            fresh.history() == seq![OperationState::<LF>::PreCas],
    {
        let installed = Ghost(Seq::empty().push(OperationState::<LF>::PreCas));
        OperationRecordBox {
            record: OperationRecord { owner, input, state: OperationState::PreCas },
            installed,
        }
    }

    /// The current record.
    pub fn record(&self) -> (current: &OperationRecord<LF>)
        ensures
            current.owner == self.owner(),
            current.input == self.input(),
            current.state == self.state(),
    {
        &self.record
    }

    /// Whether the record has reached `Completed`.
    pub fn is_completed(&self) -> (done: bool)
        ensures
            done == (self.state() is Completed),
    {
        match &self.record.state {
            OperationState::Completed(_) => true,
            _ => false,
        }
    }

    /// The output, once the record is `Completed`.
    pub fn output(&self) -> (out: Option<&LF::Output>)
        ensures
            match out {
                Some(output) => self.state() == OperationState::<LF>::Completed(*output),
                None => !(self.state() is Completed),
            },
    {
        match &self.record.state {
            OperationState::Completed(output) => Some(output),
            _ => None,
        }
    }

    /// Installs `ExecuteCas(list)` over `PreCas`.
    pub(crate) fn install_generated(&mut self, list: LF::Cases)
        requires
            old(self).wf(),
            old(self).state() is PreCas,
        ensures
            final(self).wf(),
            final(self).continues(old(self)),
            final(self).history() == old(self).history().push(OperationState::ExecuteCas(list)),
    {
        self.record.state = OperationState::ExecuteCas(list);
        proof {
            self.installed@ = self.installed@.push(self.record.state);
        }
    }

    /// Installs `PostCas(list, executed)` over `ExecuteCas(list)`, where
    /// `executed` is a result of executing that very list.
    pub(crate) fn install_executed(&mut self, executed: Result<(), usize>)
        requires
            old(self).wf(),
            old(self).state() is ExecuteCas,
            performed(&old(self).state()->ExecuteCas_0, executed),
        ensures
            final(self).wf(),
            final(self).continues(old(self)),
            final(self).history() == old(self).history().push(
                OperationState::PostCas(old(self).state()->ExecuteCas_0, executed),
            ),
    {
        let mut current = OperationState::PreCas;
        std::mem::swap(&mut self.record.state, &mut current);
        match current {
            OperationState::ExecuteCas(list) => {
                self.record.state = OperationState::PostCas(list, executed);
            },
            other => {
                self.record.state = other;
            },
        }
        proof {
            self.installed@ = self.installed@.push(self.record.state);
        }
    }

    /// Installs over `PostCas` what the wrap-up decided: `Completed(output)`
    /// for `Ok(output)`, and `PreCas` for `Err`.
    pub(crate) fn install_concluded(&mut self, verdict: Result<LF::Output, ()>)
        requires
            old(self).wf(),
            old(self).state() is PostCas,
        ensures
            final(self).wf(),
            final(self).continues(old(self)),
            final(self).history() == old(self).history().push(
                match verdict {
                    Ok(output) => OperationState::Completed(output),
                    Err(_) => OperationState::PreCas,
                },
            ),
    {
        match verdict {
            Ok(output) => {
                self.record.state = OperationState::Completed(output);
            },
            Err(_) => {
                self.record.state = OperationState::PreCas;
            },
        }
        proof {
            self.installed@ = self.installed@.push(self.record.state);
        }
    }
}

} // verus!
