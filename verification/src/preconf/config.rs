//! Where the preconfirmation server is.
use vstd::prelude::*;

verus! {

/// The part of the builder's configuration that names the preconfirmation server.
#[derive(Debug, Clone)]
pub struct BaseConfig {
    pub preconf_api_url: Option<String>,
    pub preconf_ws_url: Option<String>,
}

/// The addresses of the preconfirmation server's HTTP and websocket interfaces.
#[derive(Debug, Clone)]
pub struct PreconfConfig {
    pub preconf_api_url: Option<String>,
    pub preconf_ws_url: Option<String>,
}

impl PreconfConfig {
    pub fn new(preconf_api_url: Option<String>, preconf_ws_url: Option<String>) -> (config: Self)
        ensures
            config.preconf_api_url == preconf_api_url,
            config.preconf_ws_url == preconf_ws_url,
    {
        PreconfConfig { preconf_api_url, preconf_ws_url }
    }

    pub fn from_config(config: &BaseConfig) -> (own: Self)
        ensures
            own.preconf_api_url == config.preconf_api_url,
            own.preconf_ws_url == config.preconf_ws_url,
    {
        PreconfConfig {
            preconf_api_url: config.preconf_api_url.clone(),
            preconf_ws_url: config.preconf_ws_url.clone(),
        }
    }
}

} // verus!
