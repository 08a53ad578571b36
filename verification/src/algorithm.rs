//! What a normalized lock-free algorithm presents to the simulator.
//!
//! The simulator never looks inside a descriptor, a list or an output. What
//! an implementation guarantees about its own methods it states in the
//! relations `may_yield`, `generates` and `concludes`; an implementation that
//! states nothing keeps their defaults, which admit every result. The
//! simulator's contracts are phrased over these relations, so they are as
//! exact as the algorithm's own.

use crate::contention::ContentionMeasure;
use vstd::prelude::*;

verus! {

/// One conditional write to a single shared location.
///
/// Implementations must make `execute` idempotent and safe to call from
/// several helpers: once a descriptor has succeeded or failed, every later
/// execution reports that same outcome and leaves the location as it is.
pub trait CasDescriptor {
    /// Whether `execute` can report `success` for this descriptor.
    open spec fn may_yield(&self, success: bool) -> bool {
        true
    }

    /// Installs the new value if the location still holds the expected one.
    fn execute(&self) -> (outcome: Result<(), ()>)
        ensures
            self.may_yield(outcome.is_ok()),
    ;
}

/// An ordered, finite list of descriptors, fixed once produced.
pub trait CasDescriptors<D: CasDescriptor> {
    /// The number of descriptors in the list, as contracts see it.
    spec fn spec_len(&self) -> usize;

    /// The descriptor at position `i`, as contracts see it.
    spec fn spec_index(&self, i: usize) -> &D;

    /// The number of descriptors in the list.
    fn len(&self) -> (n: usize)
        ensures
            n == self.spec_len(),
    ;

    /// The descriptor at position `i`.
    fn get(&self, i: usize) -> (descriptor: &D)
        requires
            i < self.spec_len(),
        ensures
            descriptor == self.spec_index(i),
    ;
}

/// Whether executing `list` from its first descriptor on, and stopping at the
/// first failure, can end in `executed`: `Err(i)` says that the descriptors
/// before position `i` succeeded and the one at `i` failed, `Ok` that every
/// descriptor of the list succeeded.
pub open spec fn performed<D: CasDescriptor, C: CasDescriptors<D>>(
    list: &C,
    executed: Result<(), usize>,
) -> bool {
    match executed {
        Ok(_) => forall|j: usize|
            j < list.spec_len() ==> (#[trigger] list.spec_index(j)).may_yield(true),
        Err(i) => {
            &&& i < list.spec_len()
            &&& list.spec_index(i).may_yield(false)
            &&& forall|j: usize| j < i ==> (#[trigger] list.spec_index(j)).may_yield(true)
        },
    }
}

/// A lock-free algorithm in normalized form: a generator of descriptors and a
/// wrap-up that reads the outcome of executing them.
pub trait NormalizedLockFree {
    type Input: Clone;

    type Output: Clone;

    type Cas: CasDescriptor;

    type Cases: CasDescriptors<Self::Cas> + Clone;

    /// Whether `generator`, handed `op` and a measure that counts `seen`,
    /// can produce `list` and leave the measure at `counted`.
    open spec fn generates(
        &self,
        op: Self::Input,
        seen: nat,
        list: Self::Cases,
        counted: nat,
    ) -> bool {
        true
    }

    /// Whether `wrap_up`, handed the result `executed` of executing
    /// `performed` and a measure that counts `seen`, can give `verdict` and
    /// leave the measure at `counted`.
    open spec fn concludes(
        &self,
        executed: Result<(), usize>,
        performed: Self::Cases,
        seen: nat,
        verdict: Result<Self::Output, ()>,
        counted: nat,
    ) -> bool {
        true
    }

    /// Produces the descriptors that realize `op` when they are executed in
    /// order and all succeed.
    fn generator(&self, op: &Self::Input, contention: &mut ContentionMeasure) -> (list: Self::Cases)
        ensures
            self.generates(*op, old(contention).count(), list, final(contention).count()),
    ;

    /// Decides, from the result of executing `performed`, on the operation's
    /// output (`Ok`) or on a fresh attempt (`Err`).
    fn wrap_up(
        &self,
        executed: Result<(), usize>,
        performed: &Self::Cases,
        contention: &mut ContentionMeasure,
    ) -> (verdict: Result<Self::Output, ()>)
        ensures
            self.concludes(
                executed,
                *performed,
                old(contention).count(),
                verdict,
                final(contention).count(),
            ),
    ;
}

} // verus!
