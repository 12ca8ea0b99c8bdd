//! The part of a node's status report that the health check reads: the
//! latest block height and whether the node is still catching up.

use vstd::prelude::*;
use crate::json::{self, spec_json_document, spec_object_entry, JsonValue};
use crate::text::{self, spec_parse_u64};

verus! {

/// A successfully parsed status report.
#[derive(Clone, Copy, PartialEq, Eq, Structural, Debug)]
pub struct StatusResponse {
    pub latest_block_height: u64,
    pub catching_up: bool,
}

/// What a status document yields: under `result`, then `sync_info`, a
/// decimal string `latest_block_height` and a boolean `catching_up`.
/// A missing or mistyped step of that path, or a height that is not an
/// unsigned decimal, yields nothing; fields beyond the path are ignored.
pub open spec fn spec_status_report(document: Option<JsonValue>) -> Option<StatusResponse> {
    match document {
        Some(JsonValue::Object(root)) => match spec_object_entry(root@, "result"@) {
            Some(JsonValue::Object(result)) => match spec_object_entry(result@, "sync_info"@) {
                Some(JsonValue::Object(sync_info)) => {
                    match (
                        spec_object_entry(sync_info@, "latest_block_height"@),
                        spec_object_entry(sync_info@, "catching_up"@),
                    ) {
                        (Some(JsonValue::Text(height)), Some(JsonValue::Bool(catching_up))) => {
                            match spec_parse_u64(height@) {
                                Some(latest_block_height) => Some(
                                    StatusResponse { latest_block_height, catching_up },
                                ),
                                None => None,
                            }
                        },
                        _ => None,
                    }
                },
                _ => None,
            },
            _ => None,
        },
        _ => None,
    }
}

impl StatusResponse {
    pub fn new(latest_block_height: u64, catching_up: bool) -> (r: Self)
        ensures
            r.latest_block_height == latest_block_height,
            r.catching_up == catching_up,
    {
        StatusResponse { latest_block_height, catching_up }
    }

    pub fn latest_block_height(&self) -> (r: u64)
        ensures
            r == self.latest_block_height,
    {
        self.latest_block_height
    }

    pub fn catching_up(&self) -> (r: bool)
        ensures
            r == self.catching_up,
    {
        self.catching_up
    }

    /// Parse a status report from the body a node's status endpoint
    /// returned: walk the parsed document down to `result.sync_info`, read
    /// the decimal `latest_block_height` string and the `catching_up`
    /// boolean, and ignore whatever else the document carries.
    pub fn parse(bytes: &[u8]) -> (r: Option<StatusResponse>)
        ensures
            r == spec_status_report(spec_json_document(bytes@)),
    {
        let document = match json::parse_document(bytes) {
            Some(document) => document,
            None => {
                return None;
            },
        };
        let root = match &document {
            JsonValue::Object(root) => root,
            _ => {
                return None;
            },
        };
        let result = match json::object_entry(root, "result") {
            Some(JsonValue::Object(result)) => result,
            _ => {
                return None;
            },
        };
        let sync_info = match json::object_entry(result, "sync_info") {
            Some(JsonValue::Object(sync_info)) => sync_info,
            _ => {
                return None;
            },
        };
        let height = match json::object_entry(sync_info, "latest_block_height") {
            Some(JsonValue::Text(height)) => height,
            _ => {
                return None;
            },
        };
        let catching_up = match json::object_entry(sync_info, "catching_up") {
            Some(JsonValue::Bool(catching_up)) => *catching_up,
            _ => {
                return None;
            },
        };
        match text::parse_u64_decimal(height.as_str()) {
            Some(latest_block_height) => Some(StatusResponse { latest_block_height, catching_up }),
            None => None,
        }
    }
}

} // verus!
