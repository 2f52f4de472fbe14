//! Client configuration: the swap service's base URL, set once and then
//! read-only.

use vstd::prelude::*;
use vstd::string::StringExecFns;

use crate::errors::Error;

verus! {

/// Explicit, caller-owned configuration value; no hidden global state.
#[derive(Debug)]
pub struct Configuration {
    pub base_url: Option<String>,
}

impl Configuration {
    /// A configuration with no base URL chosen yet.
    pub fn new() -> (r: Configuration)
        ensures
            r.base_url is None,
    {
        Configuration { base_url: None }
    }
}

/// The base URL used when none was set.
pub fn default_base_url() -> (r: String)
    ensures
        r@ == "https://quote-api.jup.ag"@,
{
    String::from_str("https://quote-api.jup.ag")
}

/// Sets the base URL, once: a second call fails and changes nothing.
pub fn set_base_url(config: &mut Configuration, url: String) -> (r: Result<(), Error>)
    ensures
        old(config).base_url is None ==> r is Ok && final(config).base_url == Some(url),
        old(config).base_url is Some ==> r == Err::<(), Error>(Error::BaseUrlAlreadySet)
            && *final(config) == *old(config),
{
    match config.base_url {
        None => {
            config.base_url = Some(url);
            Ok(())
        },
        Some(_) => Err(Error::BaseUrlAlreadySet),
    }
}

/// Reads the configured base URL, or the default when none was set.
pub fn get_base_url(config: &Configuration) -> (r: String)
    ensures
        config.base_url matches Some(u) ==> r@ == u@,
        config.base_url is None ==> r@ == "https://quote-api.jup.ag"@,
{
    match &config.base_url {
        Some(u) => String::from_str(u.as_str()),
        None => default_base_url(),
    }
}

} // verus!
