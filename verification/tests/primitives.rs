use upstream_health::instance::{Instance, OutputVerbosity, StateChange, Status};
use upstream_health::state::Epoch;
use upstream_health::status_response::StatusResponse;
use upstream_health::text::{parse_u64_decimal, str_lex_lt};

#[test]
fn status_from_bool() {
    assert_eq!(Status::from_bool(true), Status::Enabled);
    assert_eq!(Status::from_bool(false), Status::Disabled);
}

#[test]
fn combine_changed_absorbs() {
    assert_eq!(
        StateChange::Changed.combine(StateChange::Changed),
        StateChange::Changed
    );
    assert_eq!(
        StateChange::Changed.combine(StateChange::Unchanged),
        StateChange::Changed
    );
    assert_eq!(
        StateChange::Unchanged.combine(StateChange::Changed),
        StateChange::Changed
    );
    assert_eq!(
        StateChange::Unchanged.combine(StateChange::Unchanged),
        StateChange::Unchanged
    );
}

#[test]
fn combine_commutes_on_values() {
    let values = [StateChange::Unchanged, StateChange::Changed];
    for a in values {
        for b in values {
            assert_eq!(a.combine(b), b.combine(a));
            for c in values {
                assert_eq!(a.combine(b).combine(c), a.combine(b.combine(c)));
            }
        }
    }
}

#[test]
fn epoch_starts_at_zero_and_advances() {
    let mut epoch = Epoch::new();
    assert_eq!(epoch, Epoch(0));
    epoch.start_new_epoch();
    assert_eq!(epoch, Epoch(1));
}

#[test]
fn epoch_wraps_on_overflow() {
    let mut epoch = Epoch(255);
    epoch.start_new_epoch();
    assert_eq!(epoch, Epoch(0));
}

#[test]
fn parse_decimal_values() {
    assert_eq!(parse_u64_decimal("0"), Some(0));
    assert_eq!(parse_u64_decimal("100"), Some(100));
    assert_eq!(parse_u64_decimal("+7"), Some(7));
    assert_eq!(parse_u64_decimal("18446744073709551615"), Some(u64::MAX));
}

#[test]
fn parse_decimal_rejections() {
    assert_eq!(parse_u64_decimal(""), None);
    assert_eq!(parse_u64_decimal("+"), None);
    assert_eq!(parse_u64_decimal("12a"), None);
    assert_eq!(parse_u64_decimal("-1"), None);
    assert_eq!(parse_u64_decimal(" 1"), None);
    assert_eq!(parse_u64_decimal("18446744073709551616"), None);
}

#[test]
fn lexicographic_order() {
    assert!(str_lex_lt("a", "b"));
    assert!(str_lex_lt("", "a"));
    assert!(str_lex_lt("ab", "b"));
    assert!(str_lex_lt("x_grpc", "x_lcd"));
    assert!(str_lex_lt("x_lcd", "x_rpc"));
    assert!(!str_lex_lt("b", "a"));
    assert!(!str_lex_lt("same", "same"));
}

#[test]
fn status_report_parses() {
    let body =
        b"{\"result\":{\"sync_info\":{\"latest_block_height\":\"100\",\"catching_up\":false}}}";
    let report = StatusResponse::parse(body).expect("well-formed report");
    assert_eq!(report.latest_block_height(), 100);
    assert!(!report.catching_up());
}

#[test]
fn status_report_reads_catching_up() {
    let body =
        b"{\"result\":{\"sync_info\":{\"latest_block_height\":\"42\",\"catching_up\":true}}}";
    let report = StatusResponse::parse(body).expect("well-formed report");
    assert_eq!(report.latest_block_height(), 42);
    assert!(report.catching_up());
}

#[test]
fn status_report_ignores_unknown_fields() {
    // A real status payload carries a JSON-RPC envelope and many more
    // sync-info fields; everything off the read path is ignored.
    let body = b"{\"jsonrpc\":\"2.0\",\"id\":-1,\"result\":{\"node_info\":{\"network\":\"n\"},\"sync_info\":{\"latest_block_hash\":\"AB\",\"latest_block_height\":\"7\",\"latest_block_time\":\"now\",\"catching_up\":false},\"validator_info\":null}}";
    let report = StatusResponse::parse(body).expect("extra fields are ignored");
    assert_eq!(report.latest_block_height(), 7);
    assert!(!report.catching_up());
}

#[test]
fn status_report_rejects_malformed_bodies() {
    assert!(StatusResponse::parse(b"not json").is_none());
    assert!(StatusResponse::parse(b"{}").is_none());
    assert!(StatusResponse::parse(b"{\"result\":{}}").is_none());
    let bad_height =
        b"{\"result\":{\"sync_info\":{\"latest_block_height\":\"12x\",\"catching_up\":false}}}";
    assert!(StatusResponse::parse(bad_height).is_none());
    let numeric_height =
        b"{\"result\":{\"sync_info\":{\"latest_block_height\":7,\"catching_up\":false}}}";
    assert!(StatusResponse::parse(numeric_height).is_none());
    let array_result = b"{\"result\":[1,2]}";
    assert!(StatusResponse::parse(array_result).is_none());
    let missing_flag = b"{\"result\":{\"sync_info\":{\"latest_block_height\":\"1\"}}}";
    assert!(StatusResponse::parse(missing_flag).is_none());
}

#[test]
fn instance_records_status_changes() {
    let mut instance = Instance::new("i".to_string(), Status::Disabled, (), ());
    assert_eq!(instance.enabled(), Status::Disabled);
    assert_eq!(instance.record_status(Status::Enabled), StateChange::Changed);
    assert_eq!(instance.enabled(), Status::Enabled);
    assert_eq!(
        instance.record_status(Status::Enabled),
        StateChange::Unchanged
    );
}

#[test]
fn verbosity_map_carries_the_label() {
    let standard: OutputVerbosity<u8> = OutputVerbosity::Standard;
    assert_eq!(standard.map(|x| x + 1), OutputVerbosity::Standard);
    let verbose = OutputVerbosity::Verbose(2u8);
    assert_eq!(verbose.map(|x| x + 1), OutputVerbosity::Verbose(3u8));
}
