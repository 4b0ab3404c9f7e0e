//! An authority-gated sensor-data oracle.
//!
//! Sensor readings arrive as a JSON batch fetched from an external endpoint.
//! The batch is parsed and validated into `SensorData` records, and may then
//! be committed into a deduplicated `SensorStore` — keyed by sensor id and
//! sensor kind, last write wins — but only by a principal that the
//! root-administered `AuthorityRegistry` lists as an authority.
pub mod codec;
pub mod ingest;
pub mod parse;
pub mod registry;
pub mod store;
pub mod types;
