//! The control server's configuration: its defaults, the checks on the
//! collector's address and token, and the address it advertises.

use vstd::prelude::*;

use crate::text::{decimal, decimal_string, push_str, str_eq, trim, trim_end_matches, trim_end_spec, trim_spec, utf8_len, utf8_len_at_least};
use crate::xml_tree::opt_view;
use crate::urls::{parse_url, parts_view, url_parts, UrlParts, UrlPartsView};

verus! {

/// The environment variable that overrides the collector's URL.
pub const COLLECTOR_URL_ENV: &'static str = "AIRWAVE_COLLECTOR_URL";

/// The environment variable that holds the collector's token.
pub const COLLECTOR_TOKEN_ENV: &'static str = "AIRWAVE_COLLECTOR_TOKEN";

/// The port the control server listens on unless told otherwise.
pub const DEFAULT_PORT: u16 = 7882;

/// The seconds between library scans unless told otherwise.
pub const DEFAULT_SCAN_INTERVAL_SECS: u64 = 300;

/// The port used when the configuration names none.
pub fn default_port() -> (r: u16)
    ensures
        r == DEFAULT_PORT,
{
    DEFAULT_PORT
}

/// The music directories used when the configuration names none.
pub fn default_music_dirs() -> (r: Vec<String>)
    ensures
        strings_view(r@) == seq!["/mnt/music"@],
{
    let mut dirs: Vec<String> = Vec::new();
    dirs.push(String::from_str("/mnt/music"));
    assert(strings_view(dirs@) =~= seq!["/mnt/music"@]);
    dirs
}

/// The scan interval used when the configuration names none.
pub fn default_scan_interval() -> (r: u64)
    ensures
        r == DEFAULT_SCAN_INTERVAL_SECS,
{
    DEFAULT_SCAN_INTERVAL_SECS
}

/// The name the server goes by when the configuration names none.
pub fn default_friendly_name() -> (r: String)
    ensures
        r@ == "WiiM Music Server"@,
{
    String::from_str("WiiM Music Server")
}

/// Where data is kept when the configuration names no place.
pub fn default_data_dir() -> (r: String)
    ensures
        r@ == "/data"@,
{
    String::from_str("/data")
}

/// The collector's URL when the configuration names none.
pub fn default_collector_url() -> (r: String)
    ensures
        r@ == "https://collector.local.ahara.io:8443"@,
{
    String::from_str("https://collector.local.ahara.io:8443")
}

/// Where the server listens and which address it advertises.
#[derive(Debug, Clone)]
pub struct NetworkConfig {
    /// The IPv4 address to advertise; detected when absent.
    pub advertise_ip: Option<[u8; 4]>,
    pub port: u16,
}

impl Default for NetworkConfig {
    fn default() -> (r: Self)
        ensures
            r.advertise_ip is None,
            r.port == DEFAULT_PORT,
    {
        NetworkConfig { advertise_ip: None, port: default_port() }
    }
}

/// The views of a list of strings.
pub open spec fn strings_view(v: Seq<String>) -> Seq<Seq<char>> {
    v.map_values(|s: String| s@)
}

/// Where the music lives and how often it is scanned.
#[derive(Debug, Clone)]
pub struct MediaConfig {
    pub music_dirs: Vec<String>,
    pub scan_interval_secs: u64,
}

impl Default for MediaConfig {
    fn default() -> (r: Self)
        ensures
            strings_view(r.music_dirs@) == seq!["/mnt/music"@],
            r.scan_interval_secs == DEFAULT_SCAN_INTERVAL_SECS,
    {
        MediaConfig { music_dirs: default_music_dirs(), scan_interval_secs: default_scan_interval() }
    }
}

/// How the server names itself and where it keeps its data.
#[derive(Debug, Clone)]
pub struct ServerConfig {
    pub friendly_name: String,
    pub data_dir: String,
}

impl Default for ServerConfig {
    fn default() -> (r: Self)
        ensures
            r.friendly_name@ == "WiiM Music Server"@,
            r.data_dir@ == "/data"@,
    {
        ServerConfig { friendly_name: default_friendly_name(), data_dir: default_data_dir() }
    }
}

/// Where the collector answers.
#[derive(Debug, Clone)]
pub struct CollectorConfig {
    pub url: String,
}

impl Default for CollectorConfig {
    fn default() -> (r: Self)
        ensures
            r.url@ == "https://collector.local.ahara.io:8443"@,
    {
        CollectorConfig { url: default_collector_url() }
    }
}

/// The whole configuration.
#[derive(Debug, Clone)]
pub struct Config {
    pub network: NetworkConfig,
    pub media: MediaConfig,
    pub server: ServerConfig,
    pub collector: CollectorConfig,
}

/// Why a collector URL was refused.
#[derive(Debug, Clone, Copy, PartialEq, Eq)]
pub enum CollectorUrlError {
    /// The text is not a URL.
    NotAUrl,
    /// The URL is not an HTTP or HTTPS origin without credentials, path,
    /// query or fragment.
    NotAnOrigin,
}

impl CollectorUrlError {
    /// The message the error is reported with.
    pub fn message(&self) -> (r: &'static str)
        ensures
            *self == CollectorUrlError::NotAUrl ==> r@ == "collector URL is not a valid URL"@,
            *self == CollectorUrlError::NotAnOrigin ==> r@
                == "collector URL must be an HTTP or HTTPS origin without credentials, path, query, or fragment"@,
    {
        match self {
            CollectorUrlError::NotAUrl => "collector URL is not a valid URL",
            CollectorUrlError::NotAnOrigin => "collector URL must be an HTTP or HTTPS origin without credentials, path, query, or fragment",
        }
    }
}

/// Whether a parsed URL is a bare HTTP or HTTPS origin: a host, the root
/// path, and no query, fragment or credentials.
pub open spec fn is_origin(u: UrlPartsView) -> bool {
    &&& (u.scheme == "http"@ || u.scheme == "https"@)
    &&& u.host is Some
    &&& u.path == "/"@
    &&& u.query is None
    &&& u.fragment is None
    &&& u.username.len() == 0
    &&& u.password is None
}

/// What a trimmed collector URL comes to, given what the URL parser read
/// from it: the text without its trailing slashes, if it is an origin.
pub open spec fn collector_url_from(t: Seq<char>, parts: Option<UrlPartsView>) -> Result<Seq<char>, CollectorUrlError> {
    match parts {
        None => Err(CollectorUrlError::NotAUrl),
        Some(u) => if is_origin(u) {
            Ok(trim_end_spec(t, '/'))
        } else {
            Err(CollectorUrlError::NotAnOrigin)
        },
    }
}

/// What a collector URL setting comes to: the trimmed text without its
/// trailing slashes, if it is an origin.
pub open spec fn collector_url_spec(value: Seq<char>) -> Result<Seq<char>, CollectorUrlError> {
    collector_url_from(trim_spec(value), url_parts(trim_spec(value)))
}

/// Judge a trimmed collector URL by the parts the URL parser read from it
/// (`None` when it read none).
pub fn collector_url_from_parts(trimmed: &str, parts: Option<UrlParts>) -> (r: Result<String, CollectorUrlError>)
    ensures
        match collector_url_from(trimmed@, parts_view(parts)) {
            Ok(u) => r matches Ok(s) && s@ == u,
            Err(e) => r == Err::<String, CollectorUrlError>(e),
        },
{
    let u = match parts {
        Some(u) => u,
        None => return Err(CollectorUrlError::NotAUrl),
    };
    let scheme_ok = str_eq(u.scheme.as_str(), "http") || str_eq(u.scheme.as_str(), "https");
    let ok = scheme_ok && u.host.is_some() && str_eq(u.path.as_str(), "/") && u.query.is_none()
        && u.fragment.is_none() && u.username.as_str().unicode_len() == 0 && u.password.is_none();
    if !ok {
        return Err(CollectorUrlError::NotAnOrigin);
    }
    Ok(trim_end_matches(trimmed, '/'))
}

/// Check a collector URL: it must be an HTTP or HTTPS origin without
/// credentials, path, query or fragment. Gives it trimmed, without trailing
/// slashes.
pub fn validate_collector_url(value: &str) -> (r: Result<String, CollectorUrlError>)
    ensures
        match collector_url_spec(value@) {
            Ok(u) => r matches Ok(s) && s@ == u,
            Err(e) => r == Err::<String, CollectorUrlError>(e),
        },
{
    let t = trim(value);
    let parts = parse_url(t.as_str());
    collector_url_from_parts(t.as_str(), parts)
}

/// What a collector token setting comes to: the trimmed value, which must
/// hold at least 16 bytes; the messages say what is wrong.
pub open spec fn collector_token_spec(value: Option<Seq<char>>) -> Result<Seq<char>, Seq<char>> {
    match value {
        None => Err("AIRWAVE_COLLECTOR_TOKEN is required"@),
        Some(v) => {
            let t = trim_spec(v);
            if utf8_len(t) < 16 {
                Err("AIRWAVE_COLLECTOR_TOKEN must contain at least 16 characters"@)
            } else {
                Ok(t)
            }
        },
    }
}

/// The dotted-decimal text of an IPv4 address.
pub open spec fn ipv4_text(ip: [u8; 4]) -> Seq<char> {
    decimal(ip[0] as nat) + "."@ + decimal(ip[1] as nat) + "."@ + decimal(ip[2] as nat) + "."@
        + decimal(ip[3] as nat)
}

/// Write an IPv4 address in dotted decimal.
pub fn ipv4_string(ip: [u8; 4]) -> (r: String)
    ensures
        r@ == ipv4_text(ip),
{
    let mut s = decimal_string(ip[0] as u64);
    push_str(&mut s, ".");
    let b = decimal_string(ip[1] as u64);
    push_str(&mut s, b.as_str());
    push_str(&mut s, ".");
    let c = decimal_string(ip[2] as u64);
    push_str(&mut s, c.as_str());
    push_str(&mut s, ".");
    let d = decimal_string(ip[3] as u64);
    push_str(&mut s, d.as_str());
    s
}

impl Config {
    /// The configuration with its collector URL checked, and replaced by the
    /// one the environment gives, checked too, if it gives one.
    pub fn validated(self, env_url: Option<String>) -> (r: Result<Config, CollectorUrlError>)
        ensures
            match collector_url_spec(self.collector.url@) {
                Err(e) => r == Err::<Config, CollectorUrlError>(e),
                Ok(u) => match env_url {
                    None => r matches Ok(c) && c.collector.url@ == u && c.network == self.network
                        && c.media == self.media && c.server == self.server,
                    Some(v) => match collector_url_spec(v@) {
                        Err(e) => r == Err::<Config, CollectorUrlError>(e),
                        Ok(w) => r matches Ok(c) && c.collector.url@ == w && c.network
                            == self.network && c.media == self.media && c.server == self.server,
                    },
                },
            },
    {
        let mut config = self;
        config.collector.url = match validate_collector_url(config.collector.url.as_str()) {
            Ok(u) => u,
            Err(e) => return Err(e),
        };
        if let Some(v) = env_url {
            config.collector.url = match validate_collector_url(v.as_str()) {
                Ok(u) => u,
                Err(e) => return Err(e),
            };
        }
        Ok(config)
    }

    /// Read the collector token from the value its environment variable
    /// holds, if it holds one.
    pub fn collector_token(value: Option<String>) -> (r: Result<String, String>)
        ensures
            match collector_token_spec(opt_view(value)) {
                Ok(t) => r matches Ok(s) && s@ == t,
                Err(m) => r matches Err(s) && s@ == m,
            },
    {
        match value {
            None => Err(String::from_str("AIRWAVE_COLLECTOR_TOKEN is required")),
            Some(v) => {
                let t = trim(v.as_str());
                if !utf8_len_at_least(t.as_str(), 16) {
                    Err(String::from_str("AIRWAVE_COLLECTOR_TOKEN must contain at least 16 characters"))
                } else {
                    Ok(t)
                }
            },
        }
    }

    /// The address to advertise: the configured one, else the detected one.
    pub fn effective_ip(&self, detected: [u8; 4]) -> (r: [u8; 4])
        ensures
            r == (match self.network.advertise_ip {
                Some(ip) => ip,
                None => detected,
            }),
    {
        match self.network.advertise_ip {
            Some(ip) => ip,
            None => detected,
        }
    }

    /// The server's base URL: `http://{ip}:{port}`.
    pub fn base_url(&self, detected: [u8; 4]) -> (r: String)
        ensures
            r@ == "http://"@ + ipv4_text(
                match self.network.advertise_ip {
                    Some(ip) => ip,
                    None => detected,
                },
            ) + ":"@ + decimal(self.network.port as nat),
    {
        let ip = self.effective_ip(detected);
        let mut s = String::from_str("http://");
        let t = ipv4_string(ip);
        push_str(&mut s, t.as_str());
        push_str(&mut s, ":");
        let p = decimal_string(self.network.port as u64);
        push_str(&mut s, p.as_str());
        s
    }
}

} // verus!
