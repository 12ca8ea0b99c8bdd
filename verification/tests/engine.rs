use upstream_health::configuration::{
    Configuration, ConstructionError, InitialProbe, ServiceConfiguration,
};
use upstream_health::generic_200_ok;
use upstream_health::instance::Status;
use upstream_health::node;
use upstream_health::node::NodeConnection;
use upstream_health::service::{from_configurations, Instances};
use upstream_health::state::{Epoch, State};
use upstream_health::status_response::StatusResponse;

fn node_declaration(url: &str) -> node::StorageConfiguration {
    node::StorageConfiguration {
        status_url: url.to_string(),
        outputs: node::Outputs {
            lcd: "server 10.0.0.1:1317".to_string(),
            json_rpc: "server 10.0.0.1:26657".to_string(),
            grpc: "server 10.0.0.1:9090".to_string(),
        },
    }
}

#[test]
fn watermark_must_advance() {
    // A fetch that strictly exceeds the watermark of a node that is not
    // catching up enables it; an identical follow-up fetch disables it.
    let mut connection = NodeConnection::new("http://n/status".to_string(), 50);
    let report = Some(StatusResponse::new(100, false));
    assert_eq!(connection.healthcheck(Epoch(1), &report), Status::Enabled);
    assert_eq!(connection.last_block, 100);
    assert_eq!(connection.healthcheck(Epoch(2), &report), Status::Disabled);
    assert_eq!(connection.last_block, 100);
}

#[test]
fn catching_up_disables() {
    let mut connection = NodeConnection::new("http://n/status".to_string(), 50);
    let report = Some(StatusResponse::new(100, true));
    assert_eq!(connection.healthcheck(Epoch(1), &report), Status::Disabled);
    // The watermark still advances on a successful fetch.
    assert_eq!(connection.last_block, 100);
}

#[test]
fn fetch_failure_disables() {
    let mut connection = NodeConnection::new("http://n/status".to_string(), 50);
    assert_eq!(connection.healthcheck(Epoch(1), &None), Status::Disabled);
    assert_eq!(connection.last_block, 50);
}

#[test]
fn single_flight_within_an_epoch() {
    let mut connection = NodeConnection::new("http://n/status".to_string(), 50);
    let epoch = Epoch(1);
    assert!(connection.needs_fetch(epoch));
    let first = connection.healthcheck(epoch, &Some(StatusResponse::new(100, false)));
    assert_eq!(first, Status::Enabled);
    // The two other facades are fast-forwarded: no fetch is needed, and
    // whatever report they carry is ignored.
    assert!(!connection.needs_fetch(epoch));
    let second = connection.healthcheck(epoch, &Some(StatusResponse::new(999, true)));
    let third = connection.healthcheck(epoch, &None);
    assert_eq!(second, first);
    assert_eq!(third, first);
    assert_eq!(connection.last_block, 100);
}

#[test]
fn expansion_collision_is_fatal() {
    // A node service "x" expands to x_lcd, x_rpc and x_grpc; a service
    // literally named "x_lcd" therefore collides.
    let configurations = vec![
        (
            "x".to_string(),
            ServiceConfiguration::Node {
                prepend: String::new(),
                instances: vec![("n1".to_string(), node_declaration("http://n/status"))],
            },
        ),
        (
            "x_lcd".to_string(),
            ServiceConfiguration::Generic200Ok {
                prepend: String::new(),
                instances: vec![(
                    "g1".to_string(),
                    generic_200_ok::StorageConfiguration {
                        healthcheck_url: "http://g/health".to_string(),
                        output: "server 10.0.0.2:80".to_string(),
                    },
                )],
            },
        ),
    ];
    let probes = vec![
        InitialProbe::Node(vec![Some(StatusResponse::new(1, false))]),
        InitialProbe::Generic200Ok(vec![true]),
    ];
    let result = from_configurations(configurations, &probes);
    assert!(matches!(result, Err(ConstructionError::ServiceNameCollision)));
}

#[test]
fn failed_initial_fetch_is_fatal() {
    let configurations = vec![(
        "x".to_string(),
        ServiceConfiguration::Node {
            prepend: String::new(),
            instances: vec![("n1".to_string(), node_declaration("http://n/status"))],
        },
    )];
    let probes = vec![InitialProbe::Node(vec![None])];
    let result = from_configurations(configurations, &probes);
    assert!(matches!(result, Err(ConstructionError::NodeStatusUnavailable)));
    assert_eq!(
        ConstructionError::NodeStatusUnavailable.message(),
        "Failed to fetch the initial node status!"
    );
}

fn generic_state() -> State {
    let configuration = Configuration {
        refresh_seconds: 30,
        verbose_output: false,
        prepend: "px".to_string(),
        services: vec![(
            "web".to_string(),
            ServiceConfiguration::Generic200Ok {
                prepend: String::new(),
                instances: vec![(
                    "i1".to_string(),
                    generic_200_ok::StorageConfiguration {
                        healthcheck_url: "http://w/health".to_string(),
                        output: "server 10.0.0.1:80".to_string(),
                    },
                )],
            },
        )],
    };
    let probes = vec![InitialProbe::Generic200Ok(vec![true])];
    State::load("# head\n".to_string(), configuration, &probes).expect("valid configuration")
}

#[test]
fn enabled_instance_is_rendered() {
    let state = generic_state();
    assert_eq!(state.refresh_period(), 30);
    assert!(!state.verbose_output());
    let (document, healthy) = state.write_out_services();
    assert_eq!(
        document,
        "# head\n\nupstream web {\n    px;\n    server 10.0.0.1:80;\n}\n"
    );
    assert_eq!(healthy, vec![1]);
}

#[test]
fn unchanged_cycle_writes_nothing() {
    let mut state = generic_state();
    // The instance is already enabled; a successful probe changes nothing,
    // so no document is rendered and no reload is due.
    let outcome = state.output_configuration(&vec![vec![true]], &vec![], false);
    assert_eq!(outcome, None);
    assert_eq!(state.epoch(), Epoch(1));
}

#[test]
fn forced_cycles_render_identically() {
    let mut state = generic_state();
    let first = state
        .output_configuration(&vec![vec![true]], &vec![], true)
        .expect("forced rewrite");
    let second = state
        .output_configuration(&vec![vec![true]], &vec![], true)
        .expect("forced rewrite");
    assert_eq!(first, second);
}

#[test]
fn failing_probe_flips_and_rewrites() {
    let mut state = generic_state();
    let outcome = state.output_configuration(&vec![vec![false]], &vec![], false);
    let document = outcome.expect("the status flipped, so output is rewritten");
    assert_eq!(document, "# head\n\nupstream web {\n    px;\n}\n");
    // A second failing cycle changes nothing further.
    let outcome = state.output_configuration(&vec![vec![false]], &vec![], false);
    assert_eq!(outcome, None);
}

fn node_state() -> State {
    let configuration = Configuration {
        refresh_seconds: 10,
        verbose_output: false,
        prepend: String::new(),
        services: vec![(
            "x".to_string(),
            ServiceConfiguration::Node {
                prepend: "keepalive 4".to_string(),
                instances: vec![("n1".to_string(), node_declaration("http://n/status"))],
            },
        )],
    };
    let probes = vec![InitialProbe::Node(vec![Some(StatusResponse::new(50, false))])];
    State::load("# nodes\n".to_string(), configuration, &probes).expect("valid configuration")
}

#[test]
fn facades_share_one_status() {
    let mut state = node_state();
    // Cycle at epoch 0: the connection was created at epoch 0, so the
    // stored (disabled) status is served without a fetch.
    let outcome = state.output_configuration(
        &vec![vec![], vec![], vec![]],
        &vec![Some(StatusResponse::new(100, false))],
        false,
    );
    assert_eq!(outcome, None);
    // Cycle at epoch 1: the fetch is consumed, the height beats the
    // watermark, and all three facades become enabled together.
    let document = state
        .output_configuration(
            &vec![vec![], vec![], vec![]],
            &vec![Some(StatusResponse::new(100, false))],
            false,
        )
        .expect("all three facades flipped");
    assert_eq!(
        document,
        "# nodes\n\
         \nupstream x_grpc {\n    keepalive 4;\n    server 10.0.0.1:9090;\n}\n\
         \nupstream x_lcd {\n    keepalive 4;\n    server 10.0.0.1:1317;\n}\n\
         \nupstream x_rpc {\n    keepalive 4;\n    server 10.0.0.1:26657;\n}\n"
    );
    // Cycle at epoch 2 with the same reported height: the watermark did
    // not advance, so the node is disabled despite the successful fetch.
    let document = state
        .output_configuration(
            &vec![vec![], vec![], vec![]],
            &vec![Some(StatusResponse::new(100, false))],
            false,
        )
        .expect("all three facades flipped back");
    assert_eq!(
        document,
        "# nodes\n\
         \nupstream x_grpc {\n    keepalive 4;\n}\n\
         \nupstream x_lcd {\n    keepalive 4;\n}\n\
         \nupstream x_rpc {\n    keepalive 4;\n}\n"
    );
}

#[test]
fn disabled_instances_are_omitted_in_place() {
    let configuration = Configuration {
        refresh_seconds: 1,
        verbose_output: false,
        prepend: String::new(),
        services: vec![(
            "pool".to_string(),
            ServiceConfiguration::Generic200Ok {
                prepend: String::new(),
                instances: vec![
                    (
                        "a".to_string(),
                        generic_200_ok::StorageConfiguration {
                            healthcheck_url: "http://a/health".to_string(),
                            output: "server a:1".to_string(),
                        },
                    ),
                    (
                        "b".to_string(),
                        generic_200_ok::StorageConfiguration {
                            healthcheck_url: "http://b/health".to_string(),
                            output: "server b:1".to_string(),
                        },
                    ),
                    (
                        "c".to_string(),
                        generic_200_ok::StorageConfiguration {
                            healthcheck_url: "http://c/health".to_string(),
                            output: "server c:1".to_string(),
                        },
                    ),
                ],
            },
        )],
    };
    let probes = vec![InitialProbe::Generic200Ok(vec![true, false, true])];
    let state = State::load(String::new(), configuration, &probes).expect("valid configuration");
    let (document, healthy) = state.write_out_services();
    assert_eq!(
        document,
        "\nupstream pool {\n    server a:1;\n    server c:1;\n}\n"
    );
    assert_eq!(healthy, vec![2]);
}

#[test]
fn node_instances_have_independent_connections() {
    let configuration = Configuration {
        refresh_seconds: 1,
        verbose_output: false,
        prepend: String::new(),
        services: vec![(
            "x".to_string(),
            ServiceConfiguration::Node {
                prepend: String::new(),
                instances: vec![
                    ("n1".to_string(), node_declaration("http://n1/status")),
                    ("n2".to_string(), node_declaration("http://n2/status")),
                ],
            },
        )],
    };
    let probes = vec![InitialProbe::Node(vec![
        Some(StatusResponse::new(10, false)),
        Some(StatusResponse::new(20, false)),
    ])];
    let mut state = State::load(String::new(), configuration, &probes).expect("valid");
    assert_eq!(state.services.connections.len(), 2);
    assert_eq!(state.services.connections[0].last_block, 10);
    assert_eq!(state.services.connections[1].last_block, 20);
    // Skip the epoch the connections were created in.
    assert_eq!(
        state.output_configuration(&vec![vec![], vec![], vec![]], &vec![None, None], false),
        None
    );
    // Only the first node advances; the second stalls and stays disabled.
    state
        .output_configuration(
            &vec![vec![], vec![], vec![]],
            &vec![
                Some(StatusResponse::new(11, false)),
                Some(StatusResponse::new(20, false)),
            ],
            false,
        )
        .expect("the first node flipped to enabled");
    assert_eq!(state.services.connections[0].last_block, 11);
    assert_eq!(state.services.connections[1].last_block, 20);
    let (document, healthy) = state.write_out_services();
    assert_eq!(
        document,
        "\nupstream x_grpc {\n    server 10.0.0.1:9090;\n}\n\
         \nupstream x_lcd {\n    server 10.0.0.1:1317;\n}\n\
         \nupstream x_rpc {\n    server 10.0.0.1:26657;\n}\n"
    );
    assert_eq!(healthy, vec![1, 1, 1]);
}

#[test]
fn registry_orders_blocks_by_name() {
    let configuration = Configuration {
        refresh_seconds: 5,
        verbose_output: false,
        prepend: String::new(),
        services: vec![
            (
                "zeta".to_string(),
                ServiceConfiguration::Generic200Ok {
                    prepend: String::new(),
                    instances: vec![(
                        "z1".to_string(),
                        generic_200_ok::StorageConfiguration {
                            healthcheck_url: "http://z/health".to_string(),
                            output: "server z:1".to_string(),
                        },
                    )],
                },
            ),
            (
                "alpha".to_string(),
                ServiceConfiguration::Generic200Ok {
                    prepend: String::new(),
                    instances: vec![(
                        "a1".to_string(),
                        generic_200_ok::StorageConfiguration {
                            healthcheck_url: "http://a/health".to_string(),
                            output: "server a:1".to_string(),
                        },
                    )],
                },
            ),
        ],
    };
    let probes = vec![
        InitialProbe::Generic200Ok(vec![true]),
        InitialProbe::Generic200Ok(vec![true]),
    ];
    let state = State::load(String::new(), configuration, &probes).expect("valid configuration");
    let (document, _) = state.write_out_services();
    assert_eq!(
        document,
        "\nupstream alpha {\n    server a:1;\n}\n\nupstream zeta {\n    server z:1;\n}\n"
    );
    match &state.services.entries[0].service.instances {
        Instances::Generic200Ok(instances) => {
            assert_eq!(instances[0].state.healthcheck_url, "http://a/health");
        }
        Instances::Node(_) => panic!("alpha is a generic service"),
    }
}
