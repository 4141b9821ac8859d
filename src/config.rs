use crate::errors::duration_from_secs;
use std::time::Duration;
use vstd::prelude::*;

verus! {

/// Settings of the collector.
#[derive(Debug)]
pub struct Config {
    /// Pods taken per batch; grouping only, with no effect on the report.
    pub batch_size: usize,
    pub collect_interval_secs: u64,
    /// Scope of the inventory and snapshot fetches.
    pub namespace: String,
}

pub fn default_batch_size() -> (r: usize)
    ensures
        r == 50,
{
    50
}

pub fn default_interval() -> (r: u64)
    ensures
        r == 30,
{
    30
}

pub fn default_namespace() -> (r: String)
    ensures
        r@ == "default"@,
{
    String::from_str("default")
}

impl Config {
    /// The settings used where none are given.
    pub fn with_defaults() -> (r: Config)
        ensures
            r.batch_size == 50,
            r.collect_interval_secs == 30,
            r.namespace@ == "default"@,
    {
        Config {
            batch_size: default_batch_size(),
            collect_interval_secs: default_interval(),
            namespace: default_namespace(),
        }
    }

    /// The period of the collection ticks.
    pub fn collect_interval(&self) -> (r: Duration)
        ensures
            r == duration_from_secs(self.collect_interval_secs),
    {
        Duration::from_secs(self.collect_interval_secs)
    }
}

} // verus!
