//! The service configuration: cache capacities, the two storage accounts
//! with their access keys, and the endpoints the boundary connects to.
//! Loading and deserializing the configuration happens at the boundary.

use vstd::prelude::*;

verus! {

/// The settings body.
#[derive(Clone, Debug)]
pub struct SettingsModelInner {
    pub log_stash_url: String,
    pub my_no_sql_writer_url: String,
    pub my_no_sql_reader_host_port: String,
    pub spot_service_bus_hos_port: String,
    pub minute_limit: usize,
    pub hour_limit: usize,
    pub azure_storage_account_ask: String,
    pub azure_storage_access_key_ask: String,
    pub azure_storage_account_bid: String,
    pub azure_storage_access_key_bid: String,
}

/// The settings envelope.
#[derive(Clone, Debug)]
pub struct SettingsModel {
    pub inner: SettingsModelInner,
}

impl SettingsModel {
    /// The log endpoint the boundary ships logs to.
    pub fn get_logstash_url(&self) -> (r: String)
        ensures
            r@ == self.inner.log_stash_url@,
    {
        self.inner.log_stash_url.clone()
    }
}

} // verus!
