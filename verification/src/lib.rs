//! Verified core of a real-time blockchain transaction platform: transaction
//! records and their text form, synthetic transaction generation, rolling-window
//! analytics, the decisions of the API and ingestion services, and the metrics
//! they emit.

pub mod text;
pub mod transaction;
pub mod analytics;
pub mod generator;
pub mod simulation;
pub mod metrics;
pub mod api;
pub mod ingest;
pub mod pubsub;
