//! Verified core of the netqmon collector: telemetry bookkeeping, parsers
//! and decision rules, with the network, database and HTTP plumbing left to
//! the surrounding application.

pub mod text;
pub mod keyed;
pub mod clock;
pub mod insights_model;
pub mod geo;
pub mod mac_prefix;
pub mod demo;
pub mod classifier;
pub mod sampling;
pub mod realtime;
pub mod access;
pub mod query;
pub mod license;
pub mod device;
pub mod insight_rules;
pub mod ingest;
pub mod favicon_probe;
pub mod loadgen;
pub mod geo_summary;
pub mod service_binding;
pub mod icon_settings;
pub mod recognition;
pub mod flow_groups;
pub mod identity_filters;
pub mod evidence_json;
