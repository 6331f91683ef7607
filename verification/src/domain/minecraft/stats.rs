//! The typed reading of a stats file.
use vstd::prelude::*;
use crate::domain::json::value::JsonValue;

verus! {

/// A stats file: its data version, its `stats` object, and any other
/// top-level members.
#[derive(Debug, PartialEq)]
pub struct StatsFile {
    pub data_version: Option<i64>,
    pub stats: JsonValue,
    pub extra: Vec<(String, JsonValue)>,
}

impl Default for StatsFile {
    fn default() -> (r: StatsFile)
        ensures
            r.data_version is None,
            r.stats == JsonValue::Null,
            r.extra@.len() == 0,
    {
        StatsFile { data_version: None, stats: JsonValue::Null, extra: Vec::new() }
    }
}

} // verus!
