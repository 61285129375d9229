//! The control server's configuration checks.

use airwave::config::{collector_url_from_parts, validate_collector_url, CollectorUrlError, Config};
use airwave::urls::UrlParts;

#[test]
fn validates_collector_urls() {
    assert_eq!(
        validate_collector_url("https://collector.local.ahara.io:8443/").unwrap(),
        "https://collector.local.ahara.io:8443"
    );
    assert!(validate_collector_url("collector.local.ahara.io").is_err());
    assert!(validate_collector_url("https://collector.local.ahara.io:8443/wiim").is_err());
}

#[test]
fn collector_url_errors_say_why() {
    assert_eq!(validate_collector_url("not a url"), Err(CollectorUrlError::NotAUrl));
    assert_eq!(
        validate_collector_url("ftp://collector.local"),
        Err(CollectorUrlError::NotAnOrigin)
    );
    assert_eq!(
        validate_collector_url("https://user:pw@collector.local/"),
        Err(CollectorUrlError::NotAnOrigin)
    );
    assert_eq!(
        validate_collector_url("https://collector.local/?q=1"),
        Err(CollectorUrlError::NotAnOrigin)
    );
    assert_eq!(
        validate_collector_url("  http://collector.local/  ").unwrap(),
        "http://collector.local"
    );
}

#[test]
fn collector_token_needs_sixteen_bytes() {
    assert_eq!(
        Config::collector_token(None),
        Err("AIRWAVE_COLLECTOR_TOKEN is required".to_string())
    );
    assert_eq!(
        Config::collector_token(Some("  short  ".to_string())),
        Err("AIRWAVE_COLLECTOR_TOKEN must contain at least 16 characters".to_string())
    );
    assert_eq!(
        Config::collector_token(Some(" 0123456789abcdef \n".to_string())),
        Ok("0123456789abcdef".to_string())
    );
    // Eight two-byte characters make sixteen bytes.
    assert_eq!(
        Config::collector_token(Some("éééééééé".to_string())),
        Ok("éééééééé".to_string())
    );
}

#[test]
fn defaults_match_the_documented_values() {
    let c = Config {
        network: Default::default(),
        media: Default::default(),
        server: Default::default(),
        collector: Default::default(),
    };
    assert_eq!(c.network.port, 7882);
    assert_eq!(c.network.advertise_ip, None);
    assert_eq!(c.media.music_dirs, vec!["/mnt/music".to_string()]);
    assert_eq!(c.media.scan_interval_secs, 300);
    assert_eq!(c.server.friendly_name, "WiiM Music Server");
    assert_eq!(c.server.data_dir, "/data");
    assert_eq!(c.collector.url, "https://collector.local.ahara.io:8443");
    assert_eq!(c.base_url([192, 168, 1, 5]), "http://192.168.1.5:7882");
}

#[test]
fn advertised_address_wins_over_detected() {
    let mut c = Config {
        network: Default::default(),
        media: Default::default(),
        server: Default::default(),
        collector: Default::default(),
    };
    c.network.advertise_ip = Some([10, 0, 0, 7]);
    c.network.port = 8080;
    assert_eq!(c.effective_ip([127, 0, 0, 1]), [10, 0, 0, 7]);
    assert_eq!(c.base_url([127, 0, 0, 1]), "http://10.0.0.7:8080");
}

#[test]
fn environment_url_replaces_configured_one() {
    let c = Config {
        network: Default::default(),
        media: Default::default(),
        server: Default::default(),
        collector: Default::default(),
    };
    let v = c.clone().validated(Some("http://other.host:9/".to_string())).unwrap();
    assert_eq!(v.collector.url, "http://other.host:9");
    let v = c.clone().validated(None).unwrap();
    assert_eq!(v.collector.url, "https://collector.local.ahara.io:8443");
    assert!(c.validated(Some("http://other.host/path".to_string())).is_err());
}

#[test]
fn dlna_defaults() {
    let c = airwave::dlna_config::Config {
        network: Default::default(),
        media: Default::default(),
        server: Default::default(),
    };
    assert_eq!(c.network.port, 9000);
    assert_eq!(c.server.friendly_name, "WiiM Music Server");
    assert_eq!(c.base_url([1, 2, 3, 4]), "http://1.2.3.4:9000");
}

fn parts(scheme: &str, host: Option<&str>, path: &str) -> UrlParts {
    UrlParts {
        scheme: scheme.to_string(),
        host: host.map(|h| h.to_string()),
        port: None,
        path: path.to_string(),
        query: None,
        fragment: None,
        username: String::new(),
        password: None,
    }
}

#[test]
fn collector_url_is_judged_by_its_parts() {
    assert_eq!(
        collector_url_from_parts("http://c.local//", Some(parts("http", Some("c.local"), "/"))).unwrap(),
        "http://c.local"
    );
    assert_eq!(collector_url_from_parts("x", None), Err(CollectorUrlError::NotAUrl));
    assert_eq!(
        collector_url_from_parts("ftp://c.local/", Some(parts("ftp", Some("c.local"), "/"))),
        Err(CollectorUrlError::NotAnOrigin)
    );
    assert_eq!(
        collector_url_from_parts("http://c.local/a", Some(parts("http", Some("c.local"), "/a"))),
        Err(CollectorUrlError::NotAnOrigin)
    );
    assert_eq!(
        collector_url_from_parts("file:///", Some(parts("http", None, "/"))),
        Err(CollectorUrlError::NotAnOrigin)
    );
}
