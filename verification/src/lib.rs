//! Materializes partitioned, ordered logs of keyed records into a local
//! keyed store with one namespace per topic, latest value winning.
//!
//! The crate holds the decision logic of the pipeline: routing a record to
//! its namespace, applying or deleting its value, deciding when an offset
//! may be committed, tracking commit cursors, and the cooperative
//! termination gate. The surrounding process performs the outside work
//! (consuming, durable storage, offset commits, signal delivery) and hands
//! the outcomes back to these functions.

pub mod consumer;
pub mod database;
pub mod error;
pub mod kafka_rocksdb;
pub mod kafka_stream_ext;
pub mod prometheus_exporter;
pub mod record;
pub mod settings;
pub mod stream_signal_ext;
