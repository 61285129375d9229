//! Streaming, SSDP, the collector, stored settings, playlists, art and
//! track metadata.

use airwave::art::{art_lookup, art_mime, pick_cover, ArtLookup, PictureInfo};
use airwave::collector::{
    collector_base_url, devices_url, media_server_registration, media_server_url, probe_url,
    registration_delay_secs,
};
use airwave::device_config::{
    config_from_row, flag_to_row, is_preset_slot, presets_response, slot_from_row,
    DeviceConfigStore,
};
use airwave::didl::DidlWriter;
use airwave::media::{Track, TrackMetadata};
use airwave::groups::GroupDefinition;
use airwave::models::{album_cache_key, CachedArt};
use airwave::playlist::{insert_positions, playlist_tracks, PlaylistStore};
use airwave::ssdp::{server_uuid, SsdpService};
use airwave::streaming::{parse_range, plan_stream, StreamPlan};
use airwave::tags::{is_audio_file, is_audio_mime, mime_for, track_metadata, RawProperties, RawTags};

#[test]
fn ranges_are_read_and_checked() {
    assert_eq!(parse_range("bytes=0-99", 1000), Some((0, 99)));
    assert_eq!(parse_range("bytes=500-", 1000), Some((500, 999)));
    assert_eq!(parse_range("bytes=900-1000", 1000), None);
    assert_eq!(parse_range("bytes=5-4", 1000), None);
    assert_eq!(parse_range("items=0-1", 1000), None);
    assert_eq!(parse_range("bytes=a-1", 1000), None);
}

#[test]
fn empty_file_has_no_range() {
    assert_eq!(parse_range("bytes=0-", 0), None);
    assert_eq!(parse_range("bytes=0-0", 0), None);
    assert_eq!(
        plan_stream(Some("bytes=0-"), 0),
        StreamPlan::Unsatisfiable { content_range: "bytes */0".to_string() }
    );
    assert_eq!(plan_stream(None, 0), StreamPlan::Full { length: 0 });
}

#[test]
fn streams_are_planned_from_the_range() {
    assert_eq!(plan_stream(None, 10), StreamPlan::Full { length: 10 });
    assert_eq!(
        plan_stream(Some("bytes=2-5"), 10),
        StreamPlan::Partial { start: 2, end: 5, length: 4, content_range: "bytes 2-5/10".to_string() }
    );
    assert_eq!(
        plan_stream(Some("bytes=20-30"), 10),
        StreamPlan::Unsatisfiable { content_range: "bytes */10".to_string() }
    );
}

#[test]
fn ssdp_service_advertises_five_types() {
    let s = SsdpService::new("abc".to_string(), "http://10.0.0.1:9000");
    let alive = s.alive_messages();
    assert_eq!(alive.len(), 5);
    assert!(alive[0].contains("LOCATION: http://10.0.0.1:9000/device.xml\r\n"));
    assert!(alive[0].contains("SERVER: Linux/1.0 UPnP/1.0 WiiMDLNA/0.1.0\r\n"));
    assert_eq!(s.byebye_messages().len(), 5);
    let req = b"M-SEARCH * HTTP/1.1\r\nHOST: 239.255.255.250:1900\r\nMAN: \"ssdp:discover\"\r\nST: ssdp:all\r\n\r\n";
    let now = "Sun, 06 Nov 1994 08:49:37 GMT";
    let replies = s.handle_msearch(req, now);
    assert_eq!(replies.len(), 5);
    for r in &replies {
        assert!(r.contains("DATE: Sun, 06 Nov 1994 08:49:37 GMT\r\n"));
    }
    let req = b"M-SEARCH * HTTP/1.1\r\nST: urn:schemas-upnp-org:service:ContentDirectory:1\r\n\r\n";
    assert_eq!(s.handle_msearch(req, now).len(), 1);
    assert!(s.handle_msearch(b"NOTIFY * HTTP/1.1\r\nST: ssdp:all\r\n\r\n", now).is_empty());
    assert!(s.handle_msearch(&[0xff, 0xfe, 0x00], now).is_empty());
}

#[test]
fn media_urls_are_percent_encoded() {
    let track = Track {
        id: "a b/é".to_string(),
        parent_id: "p".to_string(),
        path: "/m/x.mp3".to_string(),
        meta: TrackMetadata {
            title: "x".to_string(),
            artist: "y".to_string(),
            album: "z".to_string(),
            album_artist: "y".to_string(),
            track_number: None,
            disc_number: None,
            duration: None,
            genre: None,
            year: None,
            mime_type: "audio/mpeg".to_string(),
            size_bytes: 1,
            sample_rate: None,
            bit_depth: None,
            channels: None,
        },
    };
    let mut w = DidlWriter::new();
    w.write_track(&track, "http://h:1");
    let s = w.finish();
    assert!(s.contains(">http://h:1/media/a%20b%2F%C3%A9</res>"));
}

#[test]
fn collector_urls_and_registration() {
    assert_eq!(collector_base_url("http://c:8443//"), "http://c:8443");
    assert_eq!(devices_url("http://c"), "http://c/wiim/devices");
    assert_eq!(probe_url("http://c"), "http://c/wiim/probe");
    assert_eq!(media_server_url("http://c"), "http://c/wiim/media-server");
    let r = media_server_registration("u-1", "http://10.0.0.2:7882/");
    assert_eq!(r.uuid, "u-1");
    assert_eq!(r.location, "http://10.0.0.2:7882/device.xml");
    assert_eq!(r.server, "Linux/1.0 UPnP/1.0 Airwave/0.1.0");
    assert_eq!(r.lease_seconds, 1200);
    assert_eq!(registration_delay_secs(true), 600);
    assert_eq!(registration_delay_secs(false), 30);
}

#[test]
fn stored_settings_read_back() {
    let c = config_from_row("d1".to_string(), 0, Some("g".to_string()), 2);
    assert!(!c.enabled);
    assert!(c.is_master);
    assert_eq!(c.group_id.as_deref(), Some("g"));
    assert_eq!(flag_to_row(true), 1);
    assert_eq!(flag_to_row(false), 0);
    assert!(is_preset_slot(1) && is_preset_slot(5));
    assert!(!is_preset_slot(0) && !is_preset_slot(6));
    assert_eq!(slot_from_row(3), 3);
    assert_eq!(slot_from_row(259), 3);
    let store = DeviceConfigStore::new("/data/devices.db");
    assert_eq!(store.path_str(), "/data/devices.db");
}

#[test]
fn presets_cover_all_five_slots() {
    let g = GroupDefinition { master_id: "m".to_string(), slave_ids: vec!["s".to_string()] };
    let r = presets_response(vec![None, Some(vec![g]), None, None, Some(vec![])]);
    assert!(r.presets.get("1").unwrap().is_none());
    assert_eq!(r.presets.get("2").unwrap().as_ref().unwrap()[0].master_id, "m");
    assert!(r.presets.get("5").unwrap().as_ref().unwrap().is_empty());
    assert!(r.presets.get("6").is_none());
}

#[test]
fn playlists_place_tracks_after_the_last() {
    assert_eq!(insert_positions(-1, 3), vec![0, 1, 2]);
    assert_eq!(insert_positions(4, 2), vec![5, 6]);
    assert!(insert_positions(4, 0).is_empty());
    let t = playlist_tracks(&vec!["x".to_string(), "y".to_string()]);
    assert_eq!((t[1].track_id.as_str(), t[1].position), ("y", 1));
    assert_eq!(PlaylistStore::new("/data/p.db").path_str(), "/data/p.db");
}

#[test]
fn art_prefers_the_front_cover() {
    let pics = vec![
        PictureInfo { front_cover: false, mime_type: None },
        PictureInfo { front_cover: true, mime_type: Some("image/png".to_string()) },
    ];
    assert_eq!(pick_cover(&pics), Some(1));
    assert_eq!(pick_cover(&pics[..1].to_vec()), Some(0));
    assert_eq!(pick_cover(&vec![]), None);
    assert_eq!(art_mime(None), "image/jpeg");
    assert_eq!(art_mime(Some("image/png".to_string())), "image/png");
    let full = CachedArt { data: vec![1, 2], mime_type: "image/png".to_string() };
    let empty = CachedArt { data: vec![], mime_type: String::new() };
    assert_eq!(art_lookup(Some(&full), false), ArtLookup::Serve);
    assert_eq!(art_lookup(Some(&empty), false), ArtLookup::Missing);
    assert_eq!(art_lookup(None, true), ArtLookup::Missing);
    assert_eq!(art_lookup(None, false), ArtLookup::Extract);
    assert_eq!(album_cache_key("Artist", "Album"), "Artist||Album");
}

#[test]
fn metadata_falls_back_for_missing_tags() {
    assert_eq!(mime_for("/m/a.flac"), "audio/flac");
    assert_eq!(mime_for("/m/a.unknownext"), "application/octet-stream");
    assert!(is_audio_mime("audio/mpeg"));
    assert!(!is_audio_mime("image/png"));
    assert!(is_audio_file("/m/a.mp3"));
    assert!(!is_audio_file("/m/cover.jpg"));
    let m = track_metadata(
        "/m/Some Song.mp3",
        RawTags::default(),
        RawProperties::default(),
        12,
        "audio/mpeg".to_string(),
    );
    assert_eq!(m.title, "Some Song");
    assert_eq!(m.artist, "Unknown Artist");
    assert_eq!(m.album, "Unknown Album");
    assert_eq!(m.album_artist, "Unknown Artist");
    assert_eq!(m.duration, None);
    assert_eq!(m.size_bytes, 12);
    let tags = RawTags {
        title: Some("T".to_string()),
        artist: Some("A".to_string()),
        album_artist: None,
        ..RawTags::default()
    };
    let props = RawProperties { duration_ms: 5000, sample_rate: Some(48000), bit_depth: Some(24), channels: Some(2) };
    let m = track_metadata("/m/x.flac", tags, props, 1, "audio/flac".to_string());
    assert_eq!(m.title, "T");
    assert_eq!(m.album_artist, "A");
    assert_eq!(m.duration, Some(5000));
    assert_eq!(m.bit_depth, Some(24));
}

#[test]
fn server_uuids_are_stable_name_based_uuids() {
    assert_eq!(server_uuid("WiiM Music Server"), "f9ebdf26-c4d9-5630-a99b-f9eb8de6989d");
    assert_eq!(server_uuid("WiiM Music Server"), server_uuid("WiiM Music Server"));
    assert_ne!(server_uuid("Other"), server_uuid("WiiM Music Server"));
}
