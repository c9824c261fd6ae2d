//! Runtime settings: bind address, secrets, session and refresh timing, and
//! the store file paths. Construction from the environment happens at the
//! boundary; the core only carries the values.

use vstd::prelude::*;

use crate::strutil::concat3;
use crate::strutil::spec_decimal_string;
use crate::strutil::u64_to_string;

verus! {

/// The gateway's configuration, as loaded at startup.
#[derive(Debug)]
pub struct Settings {
    /// The bind address.
    pub host: String,
    /// The bind port.
    pub port: u16,
    /// The key string the credential vault encrypts under.
    pub encryption_key: String,
    /// Reserved for future token signing; carried but unused by the core.
    pub session_secret: String,
    /// Session lifetime in seconds.
    pub session_ttl_secs: u64,
    /// Reserved refresh buffer; the admission pipeline uses its fixed
    /// six-hour buffer regardless.
    pub token_refresh_buffer_secs: u64,
    /// Path of the services file.
    pub services_config_path: String,
    /// Path of the credentials file.
    pub credentials_path: String,
}

impl Settings {
    /// The bind address as `host:port`.
    pub fn addr(&self) -> (r: String)
        ensures
            r@ == self.host@ + ":"@ + spec_decimal_string(self.port as int),
    {
        let port = u64_to_string(self.port as u64);
        concat3(self.host.as_str(), ":", port.as_str())
    }
}

} // verus!
