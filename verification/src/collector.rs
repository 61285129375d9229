//! What the control server says to the collector: the inventory records it
//! reads, the URLs it calls and the media-server registration it renews.

use vstd::prelude::*;

use crate::ssdp::PKG_VERSION;
use crate::text::{push_str, trim_end_matches, trim_end_spec};

verus! {

/// The services a collector reports for a device: their control paths.
#[derive(Debug, Clone)]
pub struct CollectorServices {
    pub av_transport: Option<String>,
    pub rendering_control: Option<String>,
    pub play_queue: Option<String>,
}

/// A device in the collector's inventory.
#[derive(Debug, Clone)]
pub struct CollectorDevice {
    pub id: String,
    pub udn: String,
    pub ip: String,
    pub name: String,
    pub model: Option<String>,
    pub firmware: Option<String>,
    pub description_port: u16,
    pub services: CollectorServices,
    pub reachable: bool,
}

/// The lease a media-server registration asks for, in seconds.
pub const MEDIA_SERVER_LEASE_SECS: u64 = 1200;

/// The seconds to wait before renewing a registration that was accepted.
pub const RENEW_AFTER_SECS: u64 = 600;

/// The seconds to wait before retrying a registration that failed.
pub const RETRY_AFTER_SECS: u64 = 30;

/// The collector's base URL as the client keeps it: without trailing
/// slashes.
pub fn collector_base_url(base_url: &str) -> (r: String)
    ensures
        r@ == trim_end_spec(base_url@, '/'),
{
    trim_end_matches(base_url, '/')
}

/// The URL of the collector's device inventory.
pub fn devices_url(base_url: &str) -> (r: String)
    ensures
        r@ == base_url@ + "/wiim/devices"@,
{
    let mut s = base_url.to_owned();
    push_str(&mut s, "/wiim/devices");
    s
}

/// The URL that asks the collector to probe an address.
pub fn probe_url(base_url: &str) -> (r: String)
    ensures
        r@ == base_url@ + "/wiim/probe"@,
{
    let mut s = base_url.to_owned();
    push_str(&mut s, "/wiim/probe");
    s
}

/// The URL a media server registers at.
pub fn media_server_url(base_url: &str) -> (r: String)
    ensures
        r@ == base_url@ + "/wiim/media-server"@,
{
    let mut s = base_url.to_owned();
    push_str(&mut s, "/wiim/media-server");
    s
}

/// A media server's registration with the collector.
#[derive(Debug, Clone)]
pub struct MediaServerRegistration {
    pub uuid: String,
    pub location: String,
    pub server: String,
    pub lease_seconds: u64,
}

/// The registration of this server: its description below its base URL
/// (without trailing slashes), its server string and its lease.
pub fn media_server_registration(uuid: &str, airwave_base_url: &str) -> (r: MediaServerRegistration)
    ensures
        r.uuid@ == uuid@,
        r.location@ == trim_end_spec(airwave_base_url@, '/') + "/device.xml"@,
        r.server@ == "Linux/1.0 UPnP/1.0 Airwave/"@ + PKG_VERSION@,
        r.lease_seconds == MEDIA_SERVER_LEASE_SECS,
{
    let mut location = trim_end_matches(airwave_base_url, '/');
    push_str(&mut location, "/device.xml");
    let mut server = String::from_str("Linux/1.0 UPnP/1.0 Airwave/");
    push_str(&mut server, PKG_VERSION);
    MediaServerRegistration {
        uuid: uuid.to_owned(),
        location,
        server,
        lease_seconds: MEDIA_SERVER_LEASE_SECS,
    }
}

/// How long to wait before the next registration: a renewal after an
/// accepted one, a retry after a failed one.
pub fn registration_delay_secs(accepted: bool) -> (r: u64)
    ensures
        r == (if accepted {
            RENEW_AFTER_SECS
        } else {
            RETRY_AFTER_SECS
        }),
{
    if accepted {
        RENEW_AFTER_SECS
    } else {
        RETRY_AFTER_SECS
    }
}

} // verus!
