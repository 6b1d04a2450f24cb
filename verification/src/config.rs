//! The gateway's settings.
use vstd::prelude::*;
use crate::text::{authority, authority_of};

verus! {

/// The settings the gateway is started with.
#[derive(Debug, Clone)]
pub struct Config {
    /// Port of plain HTTP.
    pub port: u16,
    /// Port of HTTPS.
    pub sport: u16,
    pub host: String,
    /// Path of the private key file.
    pub pk: String,
    /// Path of the certificate chain file.
    pub cc: String,
    /// Master key of the cookies.
    pub key: String,
    pub appname: String,
    pub description: String,
    /// Name under which the session cookie is sent out.
    pub sessid: String,
}

impl Config {
    /// The address plain HTTP listens on: `host:port`.
    pub fn http_address(&self) -> (r: String)
        ensures
            r@ == authority_of(self.host@, self.port),
    {
        authority(self.host.as_str(), self.port)
    }

    /// The address HTTPS listens on: `host:sport`.
    pub fn https_address(&self) -> (r: String)
        ensures
            r@ == authority_of(self.host@, self.sport),
    {
        authority(self.host.as_str(), self.sport)
    }
}

} // verus!
