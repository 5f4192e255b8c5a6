//! The event as it is ingested, and the small views the library builds.
use vstd::prelude::*;
use crate::json::JsonValue;

verus! {

/// An event as an SDK sends it, after JSON decoding. Identifiers are 128-bit
/// UUID values and the timestamp is in microseconds since the Unix epoch.
#[derive(Debug)]
pub struct IngestEvent {
    pub event_id: Option<u128>,
    pub level: String,
    pub message: String,
    pub fingerprint: JsonValue,
    pub timestamp: Option<i64>,
    pub environment: Option<String>,
    pub release: Option<String>,
    pub sdk: JsonValue,
    pub server_name: Option<String>,
    pub platform: Option<String>,
    pub tags: JsonValue,
    pub contexts: JsonValue,
    pub exception: JsonValue,
}

/// The level an event has when it names none.
pub fn default_level() -> (s: String)
    ensures
        s@ == "error"@,
{
    "error".to_owned()
}

/// Number of events at one level.
#[derive(Debug)]
pub struct LevelCount {
    pub level: String,
    pub count: i64,
}

} // verus!
