//! The state of automatic certificate management.

use crate::config::types::AcmeConfig;
use vstd::prelude::*;
use vstd::string::*;

verus! {

/// Whether certificates are managed, and which challenges can be answered.
#[derive(Clone, Debug)]
pub struct AcmeState {
    pub enabled: bool,
    pub storage_dir: String,
    pub directory_url: String,
    pub http_01_ready: bool,
    pub tls_alpn_01_ready: bool,
}

impl AcmeState {
    /// The state that a configuration asks for: both challenges are ready where it is enabled.
    pub fn from_config(config: &AcmeConfig) -> (r: AcmeState)
        ensures
            r == (AcmeState {
                enabled: config.enabled,
                storage_dir: config.storage_dir,
                directory_url: config.directory_url,
                http_01_ready: config.enabled,
                tls_alpn_01_ready: config.enabled,
            }),
    {
        AcmeState {
            enabled: config.enabled,
            storage_dir: config.storage_dir.clone(),
            directory_url: config.directory_url.clone(),
            http_01_ready: config.enabled,
            tls_alpn_01_ready: config.enabled,
        }
    }
}

/// Both challenges are ready just where certificates are managed.
pub proof fn challenges_are_ready_where_enabled(config: AcmeConfig, r: AcmeState)
    requires
        call_ensures(AcmeState::from_config, (&config,), r),
    ensures
        r.enabled == config.enabled,
        r.http_01_ready == config.enabled,
        r.tls_alpn_01_ready == config.enabled,
        r.storage_dir@ == config.storage_dir@,
        r.directory_url@ == config.directory_url@,
{
}

} // verus!
