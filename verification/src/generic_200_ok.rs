//! The stateless HTTP-200 health check: a backend instance is enabled
//! exactly when a GET of its health-check URL comes back with a success
//! status.  The probe itself is network I/O performed by the caller; the
//! decision on its outcome is made here.

use vstd::prelude::*;
use crate::instance::{self, Instance, StateChange, Status};
use crate::state::Epoch;

verus! {

/// The declared shape of one instance of this kind.
pub struct StorageConfiguration {
    pub healthcheck_url: String,
    pub output: String,
}

/// Render configuration: the verbatim output fragment.
pub struct Configuration {
    pub output: String,
}

impl instance::Configuration for Configuration {
    open spec fn spec_output(&self) -> Seq<char> {
        self.output@
    }

    fn output(&self) -> (r: &str) {
        self.output.as_str()
    }
}

/// Health state: only the URL to probe — there is no sharing, so every
/// cycle performs a fresh probe.
pub struct State {
    pub healthcheck_url: String,
}

impl StorageConfiguration {
    /// Build the instance, with the outcome of the initial probe as its
    /// starting status.
    pub fn create_instance(self, instance_name: String, initial_probe: bool) -> (r: Instance<
        Configuration,
        State,
    >)
        ensures
            r.instance_name == instance_name,
            r.status == Status::spec_from_bool(initial_probe),
            r.configuration.output == self.output,
            r.state.healthcheck_url == self.healthcheck_url,
    {
        let state = State { healthcheck_url: self.healthcheck_url };
        Instance::new(
            instance_name,
            Status::from_bool(initial_probe),
            Configuration { output: self.output },
            state,
        )
    }
}

impl Instance<Configuration, State> {
    /// Record the outcome of this cycle's probe.  The epoch is accepted but
    /// unused: nothing is shared, so no call is deduplicated.  Transport
    /// failures and non-success statuses arrive as `false` and are absorbed
    /// into `Disabled`; the result says whether the status flipped.
    pub fn healthcheck(&mut self, _epoch: Epoch, probe_succeeded: bool) -> (r: StateChange)
        ensures
            final(self).instance_name == old(self).instance_name,
            final(self).configuration == old(self).configuration,
            final(self).state == old(self).state,
            final(self).status == Status::spec_from_bool(probe_succeeded),
            r == (if old(self).status == Status::spec_from_bool(probe_succeeded) {
                StateChange::Unchanged
            } else {
                StateChange::Changed
            }),
    {
        let status = Status::from_bool(probe_succeeded);
        self.record_status(status)
    }
}

} // verus!
