//! The DLNA server's configuration: its defaults and the address it
//! advertises.

use vstd::prelude::*;

pub use crate::config::{default_friendly_name, default_music_dirs, default_scan_interval, MediaConfig};
use crate::config::{ipv4_string, ipv4_text};
use crate::models::StatusResponse;
use crate::ssdp::PKG_VERSION;
use crate::text::{decimal, decimal_string, push_str};

verus! {

/// The port the DLNA server listens on unless told otherwise.
pub const DEFAULT_PORT: u16 = 9000;

/// The port used when the configuration names none.
pub fn default_port() -> (r: u16)
    ensures
        r == DEFAULT_PORT,
{
    DEFAULT_PORT
}

/// Where the server listens and which address it advertises.
#[derive(Debug, Clone)]
pub struct NetworkConfig {
    /// The IPv4 address to advertise; detected when absent.
    pub advertise_ip: Option<[u8; 4]>,
    pub port: u16,
}

impl Default for NetworkConfig {
    fn default() -> (r: Self)
        ensures
            r.advertise_ip is None,
            r.port == DEFAULT_PORT,
    {
        NetworkConfig { advertise_ip: None, port: default_port() }
    }
}

/// How the server names itself.
#[derive(Debug, Clone)]
pub struct ServerConfig {
    pub friendly_name: String,
}

impl Default for ServerConfig {
    fn default() -> (r: Self)
        ensures
            r.friendly_name@ == "WiiM Music Server"@,
    {
        ServerConfig { friendly_name: crate::config::default_friendly_name() }
    }
}

/// The whole configuration.
#[derive(Debug, Clone)]
pub struct Config {
    pub network: NetworkConfig,
    pub media: MediaConfig,
    pub server: ServerConfig,
}

impl Config {
    /// The address to advertise: the configured one, else the detected one.
    pub fn effective_ip(&self, detected: [u8; 4]) -> (r: [u8; 4])
        ensures
            r == (match self.network.advertise_ip {
                Some(ip) => ip,
                None => detected,
            }),
    {
        match self.network.advertise_ip {
            Some(ip) => ip,
            None => detected,
        }
    }

    /// The server's base URL: `http://{ip}:{port}`.
    pub fn base_url(&self, detected: [u8; 4]) -> (r: String)
        ensures
            r@ == "http://"@ + ipv4_text(
                match self.network.advertise_ip {
                    Some(ip) => ip,
                    None => detected,
                },
            ) + ":"@ + decimal(self.network.port as nat),
    {
        let ip = self.effective_ip(detected);
        let mut s = String::from_str("http://");
        let t = ipv4_string(ip);
        push_str(&mut s, t.as_str());
        push_str(&mut s, ":");
        let p = decimal_string(self.network.port as u64);
        push_str(&mut s, p.as_str());
        s
    }

    /// The server's status: its name, track count, advertised address,
    /// port and version.
    pub fn status(&self, total_tracks: u32, detected: [u8; 4]) -> (r: StatusResponse)
        ensures
            r.friendly_name@ == self.server.friendly_name@,
            r.total_tracks == total_tracks,
            r.advertise_ip@ == ipv4_text(
                match self.network.advertise_ip {
                    Some(ip) => ip,
                    None => detected,
                },
            ),
            r.port == self.network.port,
            r.version@ == PKG_VERSION@,
    {
        StatusResponse {
            friendly_name: self.server.friendly_name.clone(),
            total_tracks,
            advertise_ip: ipv4_string(self.effective_ip(detected)),
            port: self.network.port,
            version: String::from_str(PKG_VERSION),
        }
    }
}

} // verus!
