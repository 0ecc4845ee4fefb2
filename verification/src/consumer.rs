//! What the upstream log client is configured with.
//!
//! The client itself lives outside the verified core; this module decides
//! the exact sequence of key-value settings handed to it: first the
//! pipeline's fixed defaults — resume from the earliest available offset,
//! commit automatically, but never store an offset the pipeline did not
//! explicitly offer — then the configured overrides, in order, so a
//! configured value wins over a default.

use vstd::prelude::*;

use crate::settings::{ConfigEntry, Settings};

verus! {

/// The settings to apply to the log client, in order of application.
pub fn kafka_client_config(config: &Settings) -> (r: Vec<ConfigEntry>)
    ensures
        r@.len() == 3 + config.kafka.entries@.len(),
        r@[0].key@ == "auto.offset.reset"@ && r@[0].value@ == "earliest"@,
        r@[1].key@ == "enable.auto.commit"@ && r@[1].value@ == "true"@,
        r@[2].key@ == "enable.auto.offset.store"@ && r@[2].value@ == "false"@,
        forall|i: int|
            0 <= i < config.kafka.entries@.len() ==> r@[3 + i] == config.kafka.entries@[i],
{
    let mut r: Vec<ConfigEntry> = Vec::new();
    r.push(
        ConfigEntry {
            key: String::from_str("auto.offset.reset"),
            value: String::from_str("earliest"),
        },
    );
    r.push(
        ConfigEntry {
            key: String::from_str("enable.auto.commit"),
            value: String::from_str("true"),
        },
    );
    r.push(
        ConfigEntry {
            key: String::from_str("enable.auto.offset.store"),
            value: String::from_str("false"),
        },
    );
    let n = config.kafka.entries.len();
    let mut i: usize = 0;
    while i < n
        invariant
            i <= n,
            n == config.kafka.entries@.len(),
            r@.len() == 3 + i,
            r@[0].key@ == "auto.offset.reset"@ && r@[0].value@ == "earliest"@,
            r@[1].key@ == "enable.auto.commit"@ && r@[1].value@ == "true"@,
            r@[2].key@ == "enable.auto.offset.store"@ && r@[2].value@ == "false"@,
            forall|j: int| 0 <= j < i ==> r@[3 + j] == config.kafka.entries@[j],
        decreases n - i,
    {
        let e = &config.kafka.entries[i];
        r.push(ConfigEntry { key: e.key.clone(), value: e.value.clone() });
        i = i + 1;
    }
    r
}

} // verus!
