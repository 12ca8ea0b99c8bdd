//! Identity and status primitives, and the generic instance record that
//! pairs an identity with a mutable health state.

use vstd::prelude::*;

verus! {

/// Liveness verdict for one backend instance, derived solely from probe
/// outcomes, never set directly by configuration.
#[derive(Clone, Copy, PartialEq, Eq, Structural, Debug)]
pub enum Status {
    Disabled,
    Enabled,
}

impl Status {
    /// The status a probe outcome maps to: success means `Enabled`.
    pub open spec fn spec_from_bool(value: bool) -> Status {
        if value {
            Status::Enabled
        } else {
            Status::Disabled
        }
    }

    pub fn from_bool(value: bool) -> (r: Status)
        ensures
            r == Status::spec_from_bool(value),
    {
        if value {
            Status::Enabled
        } else {
            Status::Disabled
        }
    }
}

/// Cycle-level change signal: did any instance's status flip this cycle?
#[derive(Clone, Copy, PartialEq, Eq, Structural, Debug)]
pub enum StateChange {
    Unchanged,
    Changed,
}

impl StateChange {
    /// `Changed` absorbs everything; `Unchanged` is the neutral element.
    pub open spec fn spec_combine(a: StateChange, b: StateChange) -> StateChange {
        if a is Changed || b is Changed {
            StateChange::Changed
        } else {
            StateChange::Unchanged
        }
    }

    /// Merge two change signals.
    pub fn combine(self, rhs: StateChange) -> (r: StateChange)
        ensures
            r == StateChange::spec_combine(self, rhs),
    {
        match (self, rhs) {
            (StateChange::Changed, _) => StateChange::Changed,
            (_, StateChange::Changed) => StateChange::Changed,
            _ => StateChange::Unchanged,
        }
    }
}

/// Combining change signals is commutative.
pub proof fn lemma_combine_commutative(a: StateChange, b: StateChange)
    ensures
        StateChange::spec_combine(a, b) == StateChange::spec_combine(b, a),
{
}

/// Combining change signals is associative.
pub proof fn lemma_combine_associative(a: StateChange, b: StateChange, c: StateChange)
    ensures
        StateChange::spec_combine(StateChange::spec_combine(a, b), c)
            == StateChange::spec_combine(a, StateChange::spec_combine(b, c)),
{
}

/// `Changed` combined with anything is `Changed`, on either side, and
/// `Unchanged` combined with `Unchanged` is `Unchanged`.
pub proof fn lemma_combine_changed_absorbs(x: StateChange)
    ensures
        StateChange::spec_combine(StateChange::Changed, x) == StateChange::Changed,
        StateChange::spec_combine(x, StateChange::Changed) == StateChange::Changed,
        StateChange::spec_combine(StateChange::Unchanged, StateChange::Unchanged)
            == StateChange::Unchanged,
{
}

/// Verbosity selector for diagnostic reporting; never drives control flow.
#[derive(Clone, Copy, PartialEq, Eq, Structural, Debug)]
pub enum OutputVerbosity<T> {
    Standard,
    Verbose(T),
}

impl<T> OutputVerbosity<T> {
    /// Apply `f` to the context label carried by a `Verbose` selector.
    pub fn map<F, U>(self, f: F) -> (r: OutputVerbosity<U>) where F: FnOnce(T) -> U
        requires
            forall|t: T| self == OutputVerbosity::Verbose(t) ==> call_requires(f, (t,)),
        ensures
            self is Standard ==> r is Standard,
            self is Verbose ==> r is Verbose && call_ensures(f, (self->Verbose_0,), r->Verbose_0),
    {
        match self {
            OutputVerbosity::Standard => OutputVerbosity::Standard,
            OutputVerbosity::Verbose(value) => OutputVerbosity::Verbose(f(value)),
        }
    }
}

/// Context label naming the service a verbose report concerns.
#[derive(Clone, PartialEq, Eq, Debug)]
pub struct ServiceName {
    pub service_name: String,
}

/// Context label naming the service and instance a verbose report concerns.
#[derive(Clone, PartialEq, Eq, Debug)]
pub struct InstanceName {
    pub service_name: String,
    pub instance_name: String,
}

/// Render configuration of one instance: exposes the text fragment written
/// verbatim into the instance's upstream line while it is enabled.
pub trait Configuration {
    spec fn spec_output(&self) -> Seq<char>;

    fn output(&self) -> (r: &str)
        ensures
            r@ == self.spec_output(),
    ;
}

/// One logically addressable backend entry: an immutable identity and
/// render configuration paired with a mutable status and health state.
pub struct Instance<C, S> {
    pub instance_name: String,
    pub status: Status,
    pub configuration: C,
    pub state: S,
}

impl<C, S> Instance<C, S> {
    pub fn new(instance_name: String, status: Status, configuration: C, state: S) -> (r: Self)
        ensures
            r.instance_name == instance_name,
            r.status == status,
            r.configuration == configuration,
            r.state == state,
    {
        Instance { instance_name, status, configuration, state }
    }

    /// The status recorded by the most recent health check.
    pub fn enabled(&self) -> (r: Status)
        ensures
            r == self.status,
    {
        self.status
    }

    pub fn configuration(&self) -> (r: &C)
        ensures
            r == &self.configuration,
    {
        &self.configuration
    }

    /// Replace the stored status with a freshly probed one; the result is
    /// `Changed` iff the new status differs from the previous one.
    pub fn record_status(&mut self, status: Status) -> (r: StateChange)
        ensures
            final(self).instance_name == old(self).instance_name,
            final(self).configuration == old(self).configuration,
            final(self).state == old(self).state,
            final(self).status == status,
            r == (if old(self).status == status {
                StateChange::Unchanged
            } else {
                StateChange::Changed
            }),
    {
        let previous = self.status;
        self.status = status;
        if previous != status {
            StateChange::Changed
        } else {
            StateChange::Unchanged
        }
    }
}

} // verus!
