//! The stateful node health check.  Three sibling instances — one per
//! exposed facade — share one connection record; an epoch comparison makes
//! the probe single-flight: whichever facade calls first within a cycle
//! consumes the fetched status report, the other two read the stored result.

use vstd::prelude::*;
use crate::configuration::ConstructionError;
use crate::instance::{self, Instance, StateChange, Status};
use crate::state::Epoch;
use crate::status_response::StatusResponse;

verus! {

/// One field per exposed facade of a node.
pub struct Instances<T> {
    pub lcd: T,
    pub json_rpc: T,
    pub grpc: T,
}

/// The declared shape of one node instance: where its status endpoint
/// lives, and one output fragment per facade.
pub struct StorageConfiguration {
    pub status_url: String,
    pub outputs: Outputs,
}

pub struct Outputs {
    pub lcd: String,
    pub json_rpc: String,
    pub grpc: String,
}

/// Render configuration of one facade: the verbatim output fragment.
pub struct Configuration {
    pub output: String,
}

impl instance::Configuration for Configuration {
    open spec fn spec_output(&self) -> Seq<char> {
        self.output@
    }

    fn output(&self) -> (r: &str) {
        self.output.as_str()
    }
}

/// Health state of one facade: a handle onto the shared connection record
/// owned by the registry.
pub struct State {
    pub connection: usize,
}

/// The connection record shared by the three facades of one node: the
/// status-endpoint URL, the block-height watermark, the epoch of the last
/// fetch performed, and the status it computed.
pub struct NodeConnection {
    pub url: String,
    pub last_block: u64,
    pub epoch: Epoch,
    pub status: Status,
}

/// Whether a health check at `epoch` performs a real network fetch: only
/// when the connection has not been processed in this epoch yet.
pub open spec fn spec_performs_fetch(c: NodeConnection, epoch: Epoch) -> bool {
    c.epoch != epoch
}

/// The probe protocol, as a function of the connection record and the
/// fetched report (`None` on fetch or parse failure):
/// - a connection already processed in this epoch is left unchanged;
/// - otherwise the node is enabled if and only if the reported height
///   strictly exceeds the watermark and the node is not catching up;
///   the watermark advances when the height does, and the epoch and the
///   computed status are stored.
pub open spec fn spec_node_step(
    c: NodeConnection,
    epoch: Epoch,
    fetch: Option<StatusResponse>,
) -> NodeConnection {
    if c.epoch == epoch {
        c
    } else {
        match fetch {
            None => NodeConnection {
                url: c.url,
                last_block: c.last_block,
                epoch,
                status: Status::Disabled,
            },
            Some(report) => NodeConnection {
                url: c.url,
                last_block: if report.latest_block_height > c.last_block {
                    report.latest_block_height
                } else {
                    c.last_block
                },
                epoch,
                status: if report.latest_block_height > c.last_block && !report.catching_up {
                    Status::Enabled
                } else {
                    Status::Disabled
                },
            },
        }
    }
}

impl NodeConnection {
    /// A fresh connection: the watermark comes from the initial status
    /// fetch, the status starts disabled, and no epoch has been processed
    /// beyond the initial zero.
    pub fn new(url: String, last_block: u64) -> (r: Self)
        ensures
            r.url == url,
            r.last_block == last_block,
            r.epoch == Epoch(0),
            r.status is Disabled,
    {
        NodeConnection { url, last_block, epoch: Epoch::new(), status: Status::Disabled }
    }

    /// Whether a health check at `epoch` would perform a real fetch, or be
    /// fast-forwarded to the stored status.
    pub fn needs_fetch(&self, epoch: Epoch) -> (r: bool)
        ensures
            r == spec_performs_fetch(*self, epoch),
    {
        self.epoch != epoch
    }

    /// Run the probe protocol on this connection and return the status it
    /// leaves stored.  `fetch` is the report fetched for this cycle; it is
    /// consulted only when this connection has not been processed in this
    /// epoch yet.
    pub fn healthcheck(&mut self, epoch: Epoch, fetch: &Option<StatusResponse>) -> (r: Status)
        ensures
            *final(self) == spec_node_step(*old(self), epoch, *fetch),
            r == final(self).status,
    {
        if self.epoch != epoch {
            match fetch {
                None => {
                    self.status = Status::Disabled;
                },
                Some(report) => {
                    let latest_block_height = report.latest_block_height();
                    if self.last_block < latest_block_height {
                        self.last_block = latest_block_height;
                        self.status = Status::from_bool(!report.catching_up());
                    } else {
                        self.status = Status::Disabled;
                    }
                },
            }
            self.epoch = epoch;
        }
        self.status
    }
}

/// Processing a connection a second time within the same epoch changes
/// nothing: the stored epoch now matches, so the call is fast-forwarded,
/// whatever report it carries.
pub proof fn lemma_node_step_idempotent(
    c: NodeConnection,
    epoch: Epoch,
    first: Option<StatusResponse>,
    second: Option<StatusResponse>,
)
    ensures
        spec_node_step(spec_node_step(c, epoch, first), epoch, second) == spec_node_step(
            c,
            epoch,
            first,
        ),
{
}

/// Single-flight: of three facade calls within one epoch, in any order,
/// exactly the first performs the network fetch; the later two leave the
/// record untouched whatever reports they carry, and all three observe the
/// same status.
pub proof fn lemma_single_flight(
    c0: NodeConnection,
    epoch: Epoch,
    first: Option<StatusResponse>,
    second: Option<StatusResponse>,
    third: Option<StatusResponse>,
)
    requires
        spec_performs_fetch(c0, epoch),
    ensures
        ({
            let c1 = spec_node_step(c0, epoch, first);
            let c2 = spec_node_step(c1, epoch, second);
            let c3 = spec_node_step(c2, epoch, third);
            &&& !spec_performs_fetch(c1, epoch)
            &&& !spec_performs_fetch(c2, epoch)
            &&& c2 == c1
            &&& c3 == c1
            &&& c1.status == c2.status
            &&& c2.status == c3.status
        }),
{
}

/// Watermark monotonicity: the recorded height never regresses; a fetching
/// cycle enables the node only when the reported height strictly exceeds
/// the watermark and the node is not catching up, and a stalled or
/// regressed height disables it even though the fetch succeeded.
pub proof fn lemma_watermark_monotonic(
    c: NodeConnection,
    epoch: Epoch,
    fetch: Option<StatusResponse>,
)
    ensures
        spec_node_step(c, epoch, fetch).last_block >= c.last_block,
        spec_performs_fetch(c, epoch) && spec_node_step(c, epoch, fetch).status is Enabled
            ==> fetch is Some && fetch->Some_0.latest_block_height > c.last_block
            && !fetch->Some_0.catching_up,
        spec_performs_fetch(c, epoch) && fetch is Some
            && fetch->Some_0.latest_block_height <= c.last_block ==> spec_node_step(
            c,
            epoch,
            fetch,
        ).status is Disabled,
{
}

impl StorageConfiguration {
    /// Build the three facade instances of one declared node.  The shared
    /// connection record is appended to the registry's connection list and
    /// the instances hold its index; its watermark comes from the initial
    /// status fetch, whose failure is a fatal construction error.
    pub fn create_instance(
        self,
        instance_name: String,
        initial: Option<StatusResponse>,
        connections: &mut Vec<NodeConnection>,
    ) -> (r: Result<Instances<Instance<Configuration, State>>, ConstructionError>)
        ensures
            match r {
                Err(e) => {
                    &&& initial is None
                    &&& e is NodeStatusUnavailable
                    &&& *final(connections) == *old(connections)
                },
                Ok(instances) => {
                    &&& initial is Some
                    &&& final(connections)@ =~= old(connections)@.push(
                        NodeConnection {
                            url: self.status_url,
                            last_block: initial->Some_0.latest_block_height,
                            epoch: Epoch(0),
                            status: Status::Disabled,
                        },
                    )
                    &&& instances.lcd.instance_name == instance_name
                    &&& instances.json_rpc.instance_name == instance_name
                    &&& instances.grpc.instance_name == instance_name
                    &&& instances.lcd.status is Disabled
                    &&& instances.json_rpc.status is Disabled
                    &&& instances.grpc.status is Disabled
                    &&& instances.lcd.configuration.output == self.outputs.lcd
                    &&& instances.json_rpc.configuration.output == self.outputs.json_rpc
                    &&& instances.grpc.configuration.output == self.outputs.grpc
                    &&& instances.lcd.state.connection == old(connections)@.len()
                    &&& instances.json_rpc.state.connection == old(connections)@.len()
                    &&& instances.grpc.state.connection == old(connections)@.len()
                },
            },
    {
        let report = match initial {
            None => {
                return Err(ConstructionError::NodeStatusUnavailable);
            },
            Some(report) => report,
        };
        let connection = connections.len();
        connections.push(NodeConnection::new(self.status_url, report.latest_block_height()));
        Ok(
            Instances {
                lcd: Instance::new(
                    instance_name.clone(),
                    Status::Disabled,
                    Configuration { output: self.outputs.lcd },
                    State { connection },
                ),
                json_rpc: Instance::new(
                    instance_name.clone(),
                    Status::Disabled,
                    Configuration { output: self.outputs.json_rpc },
                    State { connection },
                ),
                grpc: Instance::new(
                    instance_name,
                    Status::Disabled,
                    Configuration { output: self.outputs.grpc },
                    State { connection },
                ),
            },
        )
    }
}

impl Instance<Configuration, State> {
    /// Run this facade's health check: step the shared connection under the
    /// single-flight protocol, record the status it reports, and say
    /// whether this facade's status flipped.
    pub fn healthcheck(
        &mut self,
        connections: &mut Vec<NodeConnection>,
        epoch: Epoch,
        fetches: &Vec<Option<StatusResponse>>,
    ) -> (r: StateChange)
        requires
            old(self).state.connection < old(connections).len(),
            fetches.len() == old(connections).len(),
        ensures
            ({
                let c = old(self).state.connection as int;
                let stepped = spec_node_step(old(connections)@[c], epoch, fetches@[c]);
                &&& final(connections)@ =~= old(connections)@.update(c, stepped)
                &&& final(self).instance_name == old(self).instance_name
                &&& final(self).configuration == old(self).configuration
                &&& final(self).state == old(self).state
                &&& final(self).status == stepped.status
                &&& r == (if old(self).status == stepped.status {
                    StateChange::Unchanged
                } else {
                    StateChange::Changed
                })
            }),
    {
        let connection = self.state.connection;
        let fetch = &fetches[connection];
        let status = connections[connection].healthcheck(epoch, fetch);
        self.record_status(status)
    }
}

} // verus!
