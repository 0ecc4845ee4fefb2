//! The error taxonomy of the pipeline.

use vstd::prelude::*;

verus! {

/// Everything that can go wrong around the pipeline. Conditions raised by
/// outside collaborators (the log client, the storage medium, the logger,
/// the configuration loader, the metrics listener) are carried as plain
/// variants; the one condition the routing logic itself detects carries
/// the name of the namespace that was never declared.
#[derive(Debug, PartialEq, Eq)]
pub enum KafkaRocksDBError {
    /// The system logger could not be reached.
    SyslogError,
    /// A global logger was already installed.
    SetLoggerError,
    /// An input/output error outside the store.
    IoError,
    /// The configuration could not be read or parsed.
    ConfigError,
    /// The upstream log client failed (subscription, delivery or commit).
    KafkaError,
    /// The storage medium failed; its state may be inconsistent.
    RocksDBError,
    /// A record was routed to a namespace that was never declared when the
    /// store was opened: a configuration defect.
    ColumnFamilyNotFound(String),
    /// The metrics listen address could not be parsed.
    AddressParseError,
    /// The metrics endpoint's server failed.
    HyperError,
}

pub type KafkaRocksDBResult<T> = Result<T, KafkaRocksDBError>;

} // verus!
