//! The reconciliation driver's state: the per-cycle epoch token and, built
//! on the service registry, the cycle step itself.

use vstd::prelude::*;
use vstd::string::StringExecFns;
use crate::configuration::{Configuration, ConstructionError, InitialProbe};
use crate::instance::StateChange;
use crate::node::spec_node_step;
use crate::service::{
    from_configurations, spec_connection_base, spec_contains_name, spec_declaration_realized,
    spec_enabled_count, spec_entry_status_changed, spec_expanded_names, spec_has_duplicate,
    spec_names_contain, spec_node_decl_connections, spec_probes_available, spec_probes_match,
    spec_registry_touched_prefix, spec_render_services, spec_render_upto, spec_status_after,
    Services,
};
use crate::status_response::StatusResponse;
use crate::writer::UpstreamSectionEntry;

verus! {

/// Monotonic (wrapping) token identifying one reconciliation cycle.  Two
/// health-check calls passing the same value belong to the same cycle.
#[derive(Clone, Copy, PartialEq, Eq, Structural, Debug)]
pub struct Epoch(pub u8);

impl Epoch {
    pub fn new() -> (r: Self)
        ensures
            r == Epoch(0),
    {
        Epoch(0)
    }

    /// Advance to the next cycle's token, wrapping on overflow.
    pub fn start_new_epoch(&mut self)
        ensures
            final(self).0 == (if old(self).0 == 255 {
                0
            } else {
                old(self).0 + 1
            }),
    {
        self.0 = self.0.wrapping_add(1);
    }
}

/// The reconciliation driver's state: the static output preamble, the timer
/// period, the verbosity flag, the global prefix, the cycle counter and the
/// service registry.
pub struct State {
    pub static_configuration: String,
    pub refresh_seconds: u64,
    pub verbose_output: bool,
    pub global_prepend: String,
    pub epoch: Epoch,
    pub services: Services,
}

impl State {
    pub open spec fn wf(&self) -> bool {
        self.services.wf()
    }

    /// Assemble the driver state from the loaded preamble text, the parsed
    /// services configuration and the outcomes of the initial probes; see
    /// `from_configurations` for when construction fails.
    pub fn load(
        static_configuration: String,
        configuration: Configuration,
        probes: &Vec<InitialProbe>,
    ) -> (r: Result<State, ConstructionError>)
        requires
            spec_probes_match(configuration.services@, probes@),
        ensures
            match r {
                Ok(state) => {
                    &&& state.wf()
                    &&& state.static_configuration == static_configuration
                    &&& state.refresh_seconds == configuration.refresh_seconds
                    &&& state.verbose_output == configuration.verbose_output
                    &&& state.global_prepend == configuration.prepend
                    &&& state.epoch == Epoch(0)
                    &&& !spec_has_duplicate(spec_expanded_names(configuration.services@))
                    &&& spec_probes_available(probes@)
                    &&& forall|m: Seq<char>| #[trigger]
                        spec_contains_name(state.services.entries@, m) <==> spec_names_contain(
                            spec_expanded_names(configuration.services@),
                            m,
                        )
                    &&& state.services.connections@.len() == spec_connection_base(
                        configuration.services@,
                        configuration.services@.len() as int,
                    )
                    &&& forall|k: int|
                        0 <= k < configuration.services@.len()
                            ==> #[trigger] spec_node_decl_connections(
                            configuration.services@[k],
                            probes@[k],
                            state.services.connections@,
                            spec_connection_base(configuration.services@, k),
                        )
                    &&& forall|k: int|
                        0 <= k < configuration.services@.len()
                            ==> #[trigger] spec_declaration_realized(
                            state.services.entries@,
                            configuration.services@[k],
                            probes@[k],
                            spec_connection_base(configuration.services@, k),
                        )
                },
                Err(e) => {
                    &&& e is ServiceNameCollision ==> spec_has_duplicate(
                        spec_expanded_names(configuration.services@),
                    )
                    &&& e is NodeStatusUnavailable ==> !spec_probes_available(probes@)
                },
            },
    {
        let Configuration { refresh_seconds, verbose_output, prepend, services } = configuration;
        match from_configurations(services, probes) {
            Err(e) => Err(e),
            Ok(services) => Ok(
                State {
                    static_configuration,
                    refresh_seconds,
                    verbose_output,
                    global_prepend: prepend,
                    epoch: Epoch::new(),
                    services,
                },
            ),
        }
    }

    /// The timer period, in seconds.
    pub fn refresh_period(&self) -> (r: u64)
        ensures
            r == self.refresh_seconds,
    {
        self.refresh_seconds
    }

    /// Whether health checks should be reported verbosely.
    pub fn verbose_output(&self) -> (r: bool)
        ensures
            r == self.verbose_output,
    {
        self.verbose_output
    }

    /// The current cycle's epoch token.
    pub fn epoch(&self) -> (r: Epoch)
        ensures
            r == self.epoch,
    {
        self.epoch
    }

    /// Render the upstream-configuration document from the current state:
    /// the static preamble verbatim, then one block per service in registry
    /// order.  Also reports, per service, how many instances were written
    /// as healthy.
    pub fn write_out_services(&self) -> (r: (String, Vec<usize>))
        ensures
            r.0@ == self.static_configuration@ + spec_render_services(
                self.services.entries@,
                self.global_prepend@,
            ),
            r.1@.len() == self.services.entries@.len(),
            forall|s: int|
                0 <= s < self.services.entries@.len() ==> r.1@[s as int] == spec_enabled_count(
                    (#[trigger] self.services.entries@[s]).service.instances.view_seq(),
                ),
    {
        let mut buffer = String::new();
        buffer.append(self.static_configuration.as_str());
        let mut healthy: Vec<usize> = Vec::new();
        let n = self.services.entries.len();
        let mut s: usize = 0;
        while s < n
            invariant
                s <= n,
                n == self.services.entries@.len(),
                healthy@.len() == s,
                forall|t: int|
                    0 <= t < s ==> healthy@[t] == spec_enabled_count(
                        (#[trigger] self.services.entries@[t]).service.instances.view_seq(),
                    ),
                buffer@ == self.static_configuration@ + spec_render_upto(
                    self.services.entries@,
                    self.global_prepend@,
                    s as int,
                ),
            decreases n - s,
        {
            let entry = &self.services.entries[s];
            buffer.append("\nupstream ");
            buffer.append(entry.name.as_str());
            buffer.append(" {\n");
            let mut writer = UpstreamSectionEntry::new(buffer);
            let status = entry.service.write_out(&mut writer, self.global_prepend.as_str());
            buffer = writer.into_buffer();
            buffer.append("}\n");
            healthy.push(status.healthy_instances);
            proof {
                assert(buffer@ =~= self.static_configuration@ + spec_render_upto(
                    self.services.entries@,
                    self.global_prepend@,
                    s + 1,
                ));
            }
            s = s + 1;
        }
        (buffer, healthy)
    }

    /// Run one reconciliation cycle: sweep the health checks over every
    /// service with this cycle's probe outcomes, merge the change signals,
    /// advance the epoch, and render the output document exactly when
    /// something changed or a rewrite was forced.  `None` means the output
    /// artifact is untouched and no reload is due.
    pub fn output_configuration(
        &mut self,
        generic_results: &Vec<Vec<bool>>,
        fetches: &Vec<Option<StatusResponse>>,
        forced: bool,
    ) -> (r: Option<String>)
        requires
            old(self).wf(),
            generic_results@.len() == old(self).services.entries@.len(),
            forall|s: int|
                0 <= s < old(self).services.entries@.len() ==> ((#[trigger] old(
                    self,
                ).services.entries@[s]).service.instances is Generic200Ok
                    ==> generic_results@[s]@.len()
                    == old(self).services.entries@[s].service.instances.view_seq().len()),
            fetches@.len() == old(self).services.connections@.len(),
        ensures
            final(self).wf(),
            final(self).static_configuration == old(self).static_configuration,
            final(self).refresh_seconds == old(self).refresh_seconds,
            final(self).verbose_output == old(self).verbose_output,
            final(self).global_prepend == old(self).global_prepend,
            final(self).epoch.0 == (if old(self).epoch.0 == 255 {
                0
            } else {
                old(self).epoch.0 + 1
            }),
            final(self).services.entries@.len() == old(self).services.entries@.len(),
            final(self).services.connections@.len() == old(self).services.connections@.len(),
            forall|c: int|
                0 <= c < old(self).services.connections@.len() ==> final(self).services.connections@[c] == (if spec_registry_touched_prefix(
                    old(self).services.entries@,
                    old(self).services.entries@.len() as int,
                    c,
                ) {
                    spec_node_step(
                        old(self).services.connections@[c],
                        old(self).epoch,
                        fetches@[c],
                    )
                } else {
                    old(self).services.connections@[c]
                }),
            forall|s: int|
                0 <= s < old(self).services.entries@.len() ==> {
                    &&& (#[trigger] final(self).services.entries@[s]).name == old(
                        self,
                    ).services.entries@[s].name
                    &&& final(self).services.entries@[s].service.prepend == old(
                        self,
                    ).services.entries@[s].service.prepend
                    &&& final(self).services.entries@[s].service.instances.view_seq().len() == old(
                        self,
                    ).services.entries@[s].service.instances.view_seq().len()
                },
            forall|s: int, i: int|
                0 <= s < old(self).services.entries@.len() && 0 <= i < old(
                    self,
                ).services.entries@[s].service.instances.view_seq().len() ==> {
                    &&& (#[trigger] final(self).services.entries@[s].service.instances.view_seq()[i]).name == old(
                        self,
                    ).services.entries@[s].service.instances.view_seq()[i].name
                    &&& final(self).services.entries@[s].service.instances.view_seq()[i].output
                        == old(self).services.entries@[s].service.instances.view_seq()[i].output
                    &&& final(self).services.entries@[s].service.instances.view_seq()[i].status
                        == spec_status_after(
                        old(self).services.entries@[s].service.instances,
                        old(self).services.connections@,
                        old(self).epoch,
                        generic_results@[s]@,
                        fetches@,
                        i,
                    )
                },
            (r is Some) <==> (forced || exists|s: int, i: int|
                0 <= s < old(self).services.entries@.len() && 0 <= i < old(
                    self,
                ).services.entries@[s].service.instances.view_seq().len()
                    && #[trigger] spec_entry_status_changed(
                    old(self).services.entries@,
                    final(self).services.entries@,
                    s,
                    i,
                )),
            r is Some ==> r->Some_0@ == final(self).static_configuration@ + spec_render_services(
                final(self).services.entries@,
                final(self).global_prepend@,
            ),
    {
        let updated = self.services.healthcheck(self.epoch, generic_results, fetches);
        self.epoch.start_new_epoch();
        if forced || matches!(updated, StateChange::Changed) {
            let (rendered, _healthy) = self.write_out_services();
            Some(rendered)
        } else {
            None
        }
    }
}

} // verus!
