//! The metrics endpoint.
//!
//! The endpoint serves a pull-based text exposition of the pipeline's
//! counters over HTTP for the lifetime of the process. Serving, encoding
//! and address binding are outside work; the counters themselves live on
//! the pipeline (see `KafkaRocksDB::messages_processed`), and the listen
//! address comes from `PrometheusExporterSettings`.

use vstd::prelude::*;

verus! {

/// Marker for the metrics-exposition service that runs concurrently with
/// the pipeline; whichever of the two finishes first, including by
/// failing, decides the process's exit.
pub struct PrometheusExporter {}

} // verus!
