//! Core logic of a self-hosted, Sentry-compatible error monitoring service:
//! envelope framing, event grouping, scrubbing, rate limiting, alert
//! delivery decisions and the validation rules of the management API.
#![allow(unused_imports)]

pub mod text;
pub mod json;
pub mod json_text;
pub mod digest;
pub mod model;
pub mod grouping;
pub mod error;
pub mod envelope;
pub mod scrub;
pub mod operations;
pub mod config;
pub mod notification;
pub mod auth;
pub mod source_map;
pub mod symbols;
pub mod telemetry;
pub mod ingest;
pub mod management;
pub mod alert;
