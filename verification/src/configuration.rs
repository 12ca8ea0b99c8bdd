//! The in-memory schema of the services configuration, consumed as a given
//! input, and the errors that can arise while building the registry from it.

use vstd::prelude::*;
use crate::generic_200_ok;
use crate::node;
use crate::status_response::StatusResponse;

verus! {

/// The services configuration: timer period, verbosity, the global prefix
/// and the declared services, in the order the loader handed them over.
pub struct Configuration {
    pub refresh_seconds: u64,
    pub verbose_output: bool,
    pub prepend: String,
    pub services: Vec<(String, ServiceConfiguration)>,
}

/// One declared service: a tagged payload, one shape per backend kind.
pub enum ServiceConfiguration {
    Generic200Ok {
        prepend: String,
        instances: Vec<(String, generic_200_ok::StorageConfiguration)>,
    },
    Node {
        prepend: String,
        instances: Vec<(String, node::StorageConfiguration)>,
    },
}

/// The outcome of the initial probe performed while an instance is built:
/// one entry per declared instance, shaped like its service's kind.
pub enum InitialProbe {
    Generic200Ok(Vec<bool>),
    Node(Vec<Option<StatusResponse>>),
}

/// Fatal errors of registry construction.
#[derive(Clone, Copy, PartialEq, Eq, Structural, Debug)]
pub enum ConstructionError {
    /// Two services — declared or expanded from a node declaration — share
    /// a name.
    ServiceNameCollision,
    /// A node connection's initial status fetch failed, so no watermark is
    /// available.
    NodeStatusUnavailable,
}

impl ConstructionError {
    /// A diagnostic line describing the error.
    pub fn message(&self) -> (r: &'static str)
        ensures
            self is ServiceNameCollision ==> r@ == "Collision detected in the services' names!"@,
            self is NodeStatusUnavailable ==> r@ == "Failed to fetch the initial node status!"@,
    {
        match self {
            ConstructionError::ServiceNameCollision => "Collision detected in the services' names!",
            ConstructionError::NodeStatusUnavailable => "Failed to fetch the initial node status!",
        }
    }
}

} // verus!
