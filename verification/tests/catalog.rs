//! The music catalog: building it, browsing it over the API and over
//! ContentDirectory, searching, bulk edits and rescans.

use airwave::bulk::{
    album_artist_update, bulk_result, default_field, rename_fields, rename_matches, rename_update,
};
use airwave::catalog_api::{browse, collect_track_paths, resolve_track_ids, search, tracks_for_queue};
use airwave::content_directory;
use airwave::dlna_library::{self, DlnaLibraryBuilder};
use airwave::library::{scan_entries, Library, LibraryBuilder};
use airwave::media::{LibraryObject, TrackMetadata};
use airwave::models::PlayRequest;
use airwave::rescan::{rescan_roots, track_paths};
use airwave::soap::parse_soap_action;

fn meta(title: &str, artist: &str, album: &str, genre: Option<&str>) -> TrackMetadata {
    TrackMetadata {
        title: title.to_string(),
        artist: artist.to_string(),
        album: album.to_string(),
        album_artist: artist.to_string(),
        track_number: Some(1),
        disc_number: None,
        duration: Some(61_000),
        genre: genre.map(|g| g.to_string()),
        year: None,
        mime_type: "audio/mpeg".to_string(),
        size_bytes: 1000,
        sample_rate: Some(44100),
        bit_depth: None,
        channels: Some(2),
    }
}

fn catalog() -> Library {
    let mut b = LibraryBuilder::new();
    b.add_track("/music/Beta/One/02 b.mp3".to_string(), meta("zeta song", "Beta", "One", Some("Rock")));
    b.add_track("/music/Beta/One/01 a.mp3".to_string(), meta("Alpha song", "Beta", "One", None));
    b.add_track("/music/Gamma/Two/x.mp3".to_string(), meta("middle", "Gamma", "Two", Some("Rock")));
    b.finish()
}

fn title_of(lib: &Library, id: &str) -> String {
    match lib.get(id) {
        Some(LibraryObject::Track(t)) => t.meta.title.clone(),
        Some(LibraryObject::Container(c)) => c.title.clone(),
        None => panic!("no object {id}"),
    }
}

#[test]
fn builder_mints_ids_in_order() {
    let lib = catalog();
    // artist, artist album, album view, genre, then the track.
    assert_eq!(title_of(&lib, "ar1"), "Beta");
    assert_eq!(title_of(&lib, "aa2"), "One");
    assert_eq!(title_of(&lib, "av3"), "Beta \u{2014} One");
    assert_eq!(title_of(&lib, "gr4"), "Rock");
    assert_eq!(title_of(&lib, "t5"), "zeta song");
    assert_eq!(title_of(&lib, "t6"), "Alpha song");
    assert_eq!(lib.total_tracks(), 3);
    assert_eq!(lib.system_update_id(), 3);
}

fn parent_of(lib: &Library, id: &str) -> String {
    match lib.get(id) {
        Some(LibraryObject::Track(t)) => t.parent_id.clone(),
        Some(LibraryObject::Container(c)) => c.parent_id.clone(),
        None => panic!("no object {id}"),
    }
}

#[test]
fn categories_hold_their_containers() {
    let lib = catalog();
    assert_eq!(parent_of(&lib, "ar1"), "vc_artists");
    assert_eq!(parent_of(&lib, "aa2"), "ar1");
    assert_eq!(parent_of(&lib, "av3"), "vc_albums");
    assert_eq!(parent_of(&lib, "gr4"), "vc_genres");
    assert_eq!(parent_of(&lib, "t5"), "aa2");
}

#[test]
fn scan_nonexistent_dir_returns_empty_library() {
    // A directory that does not exist yields no files to scan.
    let lib = dlna_library::scan_entries(Vec::new());
    assert_eq!(lib.total_tracks(), 0);
    let catalog = scan_entries(Vec::new());
    assert_eq!(catalog.total_tracks(), 0);
    assert_eq!(catalog.system_update_id(), 0);
    assert!(catalog.all_track_ids().is_empty());
    assert!(catalog.search("").is_empty());
    match catalog.get("0") {
        Some(LibraryObject::Container(c)) => {
            assert_eq!(c.parent_id, "-1");
            assert_eq!(c.title, "Root");
        }
        _ => panic!("the root must be a container"),
    }
    assert_eq!(catalog.children_of("0").len(), 5);
}

#[test]
fn scan_builds_the_browse_tree() {
    let entries = vec![
        ("/m/1.mp3".to_string(), meta("One", "Ann", "First", Some("Jazz"))),
        ("/m/2.mp3".to_string(), meta("Two", "Ann", "First", None)),
        ("/m/3.mp3".to_string(), meta("Three", "Bob", "Second", Some("Jazz"))),
    ];
    let lib = scan_entries(entries.clone());
    let all: Vec<String> = lib
        .children_of("vc_all")
        .iter()
        .map(|o| match o {
            LibraryObject::Track(t) => t.id.clone(),
            LibraryObject::Container(c) => c.id.clone(),
        })
        .collect();
    assert_eq!(&all, lib.all_track_ids());
    for id in lib.all_track_ids() {
        let Some(LibraryObject::Track(t)) = lib.get(id) else { panic!("not a track") };
        let album = parent_of(&lib, id);
        assert!(album.starts_with("aa"));
        assert_eq!(title_of(&lib, &album), t.meta.album);
        let artist = parent_of(&lib, &album);
        assert!(artist.starts_with("ar"));
        assert_eq!(title_of(&lib, &artist), t.meta.album_artist);
        assert_eq!(parent_of(&lib, &artist), "vc_artists");
    }
    let hits: Vec<String> = lib
        .search("")
        .iter()
        .map(|o| match o {
            LibraryObject::Track(t) => t.id.clone(),
            LibraryObject::Container(c) => c.id.clone(),
        })
        .collect();
    assert_eq!(&hits, lib.all_track_ids());
    assert_eq!(lib.children_of("vc_genres").len(), 1);
    assert_eq!(lib.children_of("vc_albums").len(), 2);
    let flat = dlna_library::scan_entries(entries);
    assert_eq!(flat.children_of("0").len(), 2);
    assert_eq!(flat.total_tracks(), 3);
}

fn ids_of(objs: Vec<&LibraryObject>) -> Vec<String> {
    objs.iter()
        .map(|o| match o {
            LibraryObject::Track(t) => t.id.clone(),
            LibraryObject::Container(c) => c.id.clone(),
        })
        .collect()
}

#[test]
fn scan_groups_tracks_by_artist_album_and_genre() {
    let entries = vec![
        ("/m/1.mp3".to_string(), meta("One", "Ann", "First", Some("Jazz"))),
        ("/m/2.mp3".to_string(), meta("Two", "Bob", "Second", Some("Rock"))),
        ("/m/3.mp3".to_string(), meta("Three", "Ann", "First", Some("Jazz"))),
        ("/m/4.mp3".to_string(), meta("Four", "Ann", "Other", Some("Rock"))),
    ];
    let lib = scan_entries(entries);
    let by_title = |title: &str| -> String {
        lib.all_track_ids().iter().find(|id| title_of(&lib, id) == title).unwrap().clone()
    };
    let (one, two, three, four) = (by_title("One"), by_title("Two"), by_title("Three"), by_title("Four"));
    // Same (album artist, album): one album container.
    assert_eq!(parent_of(&lib, &one), parent_of(&lib, &three));
    assert_ne!(parent_of(&lib, &one), parent_of(&lib, &four));
    // Same album artist: one artist container.
    let artist = |id: &str| parent_of(&lib, &parent_of(&lib, id));
    assert_eq!(artist(&one), artist(&four));
    assert_ne!(artist(&one), artist(&two));
    // Each category lists its containers once.
    let artists = ids_of(lib.children_of("vc_artists"));
    assert_eq!(artists.len(), 2);
    assert!(artists.iter().all(|a| a.starts_with("ar")));
    assert_ne!(artists[0], artists[1]);
    let albums = ids_of(lib.children_of("vc_albums"));
    assert_eq!(albums.len(), 3);
    assert!(albums.iter().all(|a| a.starts_with("av")));
    let genres = ids_of(lib.children_of("vc_genres"));
    assert_eq!(genres.len(), 2);
    assert!(genres.iter().all(|g| g.starts_with("gr")));
    // A genre lists every track of that genre.
    for g in &genres {
        let listed = ids_of(lib.children_of(g));
        if title_of(&lib, g) == "Jazz" {
            assert_eq!(listed, vec![one.clone(), three.clone()]);
        } else {
            assert_eq!(listed, vec![two.clone(), four.clone()]);
        }
    }
    for id in lib.all_track_ids() {
        assert!(id.starts_with('t') && id[1..].chars().all(|c| c.is_ascii_digit()));
    }
}

#[test]
fn dlna_scan_groups_tracks_by_artist_and_album() {
    let entries = vec![
        ("/m/1.mp3".to_string(), meta("One", "Ann", "First", None)),
        ("/m/2.mp3".to_string(), meta("Two", "Bob", "Second", None)),
        ("/m/3.mp3".to_string(), meta("Three", "Ann", "First", None)),
        ("/m/4.mp3".to_string(), meta("Four", "Ann", "Other", None)),
    ];
    let lib = dlna_library::scan_entries(entries);
    let artists = ids_of(lib.children_of("0"));
    assert_eq!(artists.len(), 2);
    assert_ne!(artists[0], artists[1]);
    assert!(artists.iter().all(|a| a.starts_with('a') && !a.starts_with("al")));
    let mut tracks = Vec::new();
    for a in &artists {
        for al in ids_of(lib.children_of(a)) {
            assert!(al.starts_with("al"));
            for t in ids_of(lib.children_of(&al)) {
                tracks.push((a.clone(), al.clone(), t));
            }
        }
    }
    assert_eq!(tracks.len(), 4);
    let place = |title: &str| -> (String, String) {
        let (a, al, _) = tracks
            .iter()
            .find(|(_, _, t)| match lib.get(t) {
                Some(LibraryObject::Track(x)) => x.meta.title == title,
                _ => false,
            })
            .unwrap();
        (a.clone(), al.clone())
    };
    assert_eq!(place("One"), place("Three"));
    assert_eq!(place("One").0, place("Four").0);
    assert_ne!(place("One").1, place("Four").1);
    assert_ne!(place("One").0, place("Two").0);
    for (_, _, t) in &tracks {
        assert!(t.starts_with('t') && t[1..].chars().all(|c| c.is_ascii_digit()));
    }
}

#[test]
fn scan_keeps_equal_titles_in_scan_order() {
    let entries = vec![
        ("/m/b.mp3".to_string(), meta("Same", "B", "X", None)),
        ("/m/a.mp3".to_string(), meta("same", "A", "Y", None)),
        ("/m/c.mp3".to_string(), meta("Other", "A", "Y", None)),
    ];
    let lib = scan_entries(entries);
    assert_eq!(lib.total_tracks(), 3);
    let paths: Vec<String> = lib
        .all_track_ids()
        .iter()
        .map(|id| match lib.get(id) {
            Some(LibraryObject::Track(t)) => t.path.clone(),
            _ => panic!("not a track"),
        })
        .collect();
    assert_eq!(paths, vec!["/m/c.mp3", "/m/b.mp3", "/m/a.mp3"]);
    for id in lib.all_track_ids() {
        assert!(id.starts_with('t') && id[1..].chars().all(|c| c.is_ascii_digit()));
    }
}

#[test]
fn all_tracks_are_sorted_by_lower_case_title() {
    let lib = catalog();
    let titles: Vec<String> = lib.all_track_ids().iter().map(|id| title_of(&lib, id)).collect();
    assert_eq!(titles, vec!["Alpha song", "middle", "zeta song"]);
    let all: Vec<String> = lib
        .children_of("vc_all")
        .iter()
        .map(|o| match o {
            LibraryObject::Track(t) => t.id.clone(),
            LibraryObject::Container(c) => c.id.clone(),
        })
        .collect();
    assert_eq!(&all, lib.all_track_ids());
}

#[test]
fn children_of_root_has_virtual_containers() {
    let lib = Library::new();
    let children = lib.children_of("0");
    assert_eq!(children.len(), 5);
}

#[test]
fn root_lists_the_browse_menu() {
    let lib = Library::new();
    let kids: Vec<String> = lib
        .children_of("0")
        .iter()
        .map(|o| match o {
            LibraryObject::Container(c) => c.id.clone(),
            LibraryObject::Track(t) => t.id.clone(),
        })
        .collect();
    assert_eq!(kids, vec!["vc_artists", "vc_albums", "vc_genres", "vc_all", "vc_search"]);
    assert_eq!(title_of(&lib, "vc_search"), "Search");
    assert!(lib.children_of("vc_search").is_empty());
    assert!(lib.children_of("nope").is_empty());
}

#[test]
fn search_ignores_case_and_looks_at_all_names() {
    let lib = catalog();
    assert_eq!(search(&lib, "ALPHA").total, 1);
    assert_eq!(search(&lib, "gamma").total, 1);
    assert_eq!(search(&lib, "song").total, 2);
    assert_eq!(search(&lib, "nothing").total, 0);
    // Lower-casing is Unicode's, not ASCII's.
    let mut b = LibraryBuilder::new();
    b.add_track("/m/x.mp3".to_string(), meta("ÄRGER", "Ö", "Ü", None));
    let lib = b.finish();
    assert_eq!(search(&lib, "ärger").total, 1);
}

#[test]
fn browse_answers_with_items() {
    let lib = catalog();
    let r = browse(&lib, "ar1");
    assert_eq!(r.total, 1);
    assert_eq!(r.items[0].id, "aa2");
    assert_eq!(r.items[0].item_type, "container");
    let r = browse(&lib, "aa2");
    assert_eq!(r.total, 2);
    assert_eq!(r.items[0].item_type, "track");
    assert_eq!(r.items[0].duration.as_deref(), Some("1:01"));
}

#[test]
fn play_requests_resolve_to_track_ids() {
    let lib = catalog();
    let req = PlayRequest { track_id: None, track_ids: None, container_id: Some("ar1".to_string()), start_index: None };
    assert_eq!(resolve_track_ids(&req, &lib), vec!["t5".to_string(), "t6".to_string()]);
    let req = PlayRequest { track_id: Some("t7".to_string()), track_ids: Some(vec![]), container_id: None, start_index: None };
    assert_eq!(resolve_track_ids(&req, &lib), vec!["t7".to_string()]);
    let req = PlayRequest { track_id: None, track_ids: None, container_id: None, start_index: None };
    assert!(resolve_track_ids(&req, &lib).is_empty());
    let q = tracks_for_queue(&lib, &vec!["t5".to_string(), "missing".to_string()], Some("http://h:1"));
    assert_eq!(q.len(), 1);
    assert_eq!(q[0].stream_url.as_deref(), Some("http://h:1/media/t5"));
    let paths = collect_track_paths(&lib, "aa2");
    assert_eq!(paths[0], ("t5".to_string(), "/music/Beta/One/02 b.mp3".to_string()));
}

#[test]
fn rename_touches_matching_fields_only() {
    let lib = catalog();
    assert_eq!(default_field(), "both");
    assert_eq!(rename_fields("artist"), (true, false));
    assert_eq!(rename_fields("album_artist"), (false, true));
    assert_eq!(rename_fields("both"), (true, true));
    assert_eq!(rename_fields("other"), (false, false));
    let targets = rename_matches(&lib, "BETA", "both");
    let ids: Vec<&str> = targets.iter().map(|t| t.id.as_str()).collect();
    assert_eq!(ids, vec!["t6", "t5"]);
    assert!(targets[0].artist_match && targets[0].album_artist_match);
    let u = rename_update(&targets[0], "Beta Band");
    assert_eq!(u.artist.as_deref(), Some("Beta Band"));
    assert_eq!(u.album_artist.as_deref(), Some("Beta Band"));
    assert!(u.title.is_none());
    assert!(rename_matches(&lib, "beta", "neither").is_empty());
    let a = album_artist_update("Various");
    assert_eq!(a.album_artist.as_deref(), Some("Various"));
    assert!(a.artist.is_none());
}

#[test]
fn bulk_results_count_outcomes() {
    let r = bulk_result(&vec![true, false, true]);
    assert_eq!((r.total, r.success, r.failed), (3, 2, 1));
    let r = bulk_result(&vec![]);
    assert_eq!((r.total, r.success, r.failed), (0, 0, 0));
}

#[test]
fn rescan_keeps_the_outermost_directories() {
    let lib = catalog();
    let paths = track_paths(&lib);
    assert_eq!(paths.len(), 3);
    let roots = rescan_roots(&vec![
        "/music/Beta/One/a.mp3".to_string(),
        "/music/a.mp3".to_string(),
        "/other/x/y.mp3".to_string(),
        "/music/Gamma/b.mp3".to_string(),
    ]);
    assert_eq!(roots, vec!["/music".to_string(), "/other/x".to_string()]);
    assert!(rescan_roots(&vec![]).is_empty());
}

fn dlna_catalog() -> airwave::dlna_library::Library {
    let mut b = DlnaLibraryBuilder::new();
    b.add_track("/m/a.flac".to_string(), meta("Song & Dance", "Art", "Alb", None));
    b.finish()
}

fn browse_body(object_id: &str, flag: &str) -> String {
    format!(
        "<?xml version=\"1.0\"?><s:Envelope xmlns:s=\"http://schemas.xmlsoap.org/soap/envelope/\"><s:Body>\
<u:Browse xmlns:u=\"urn:schemas-upnp-org:service:ContentDirectory:1\"><ObjectID>{object_id}</ObjectID>\
<BrowseFlag>{flag}</BrowseFlag><Filter>*</Filter><StartingIndex>0</StartingIndex>\
<RequestedCount>0</RequestedCount><SortCriteria></SortCriteria></u:Browse></s:Body></s:Envelope>"
    )
}

#[test]
fn content_directory_browses_children() {
    let lib = dlna_catalog();
    let body = browse_body("0", "BrowseDirectChildren");
    let action = parse_soap_action(
        "\"urn:schemas-upnp-org:service:ContentDirectory:1#Browse\"",
        body.as_bytes(),
    )
    .unwrap();
    let (xml, status) = content_directory::handle_action(&action, &lib, "http://h:9000").unwrap();
    assert_eq!(status, 200);
    let doc = roxmltree::Document::parse(&xml).unwrap();
    let result = doc
        .descendants()
        .find(|n| n.has_tag_name("Result"))
        .and_then(|n| n.text())
        .unwrap()
        .to_string();
    assert!(result.contains("<container id=\"a1\""));
    let returned = doc.descendants().find(|n| n.has_tag_name("NumberReturned")).and_then(|n| n.text());
    assert_eq!(returned, Some("1"));
}

#[test]
fn content_directory_escapes_titles() {
    let lib = dlna_catalog();
    let body = browse_body("al2", "BrowseDirectChildren");
    let action = parse_soap_action(
        "\"urn:schemas-upnp-org:service:ContentDirectory:1#Browse\"",
        body.as_bytes(),
    )
    .unwrap();
    let (xml, _) = content_directory::handle_action(&action, &lib, "http://h:9000").unwrap();
    let doc = roxmltree::Document::parse(&xml).unwrap();
    let result = doc.descendants().find(|n| n.has_tag_name("Result")).and_then(|n| n.text()).unwrap();
    assert!(result.contains("Song &amp; Dance"));
    let didl = roxmltree::Document::parse(result).unwrap();
    let title = didl.descendants().find(|n| n.has_tag_name("title")).and_then(|n| n.text());
    assert_eq!(title, Some("Song & Dance"));
}

#[test]
fn content_directory_refuses_unknown_objects_and_actions() {
    let lib = dlna_catalog();
    let body = browse_body("nope", "BrowseMetadata");
    let action = parse_soap_action(
        "\"urn:schemas-upnp-org:service:ContentDirectory:1#Browse\"",
        body.as_bytes(),
    )
    .unwrap();
    let (fault, status) = content_directory::handle_action(&action, &lib, "http://h:9000").unwrap_err();
    assert_eq!(status, 500);
    assert!(fault.contains("<errorCode>701</errorCode>"));
    let action = parse_soap_action(
        "\"urn:schemas-upnp-org:service:ContentDirectory:1#Frobnicate\"",
        b"<s:Envelope xmlns:s=\"http://schemas.xmlsoap.org/soap/envelope/\"><s:Body><u:Frobnicate xmlns:u=\"x\"></u:Frobnicate></s:Body></s:Envelope>",
    )
    .unwrap();
    let (fault, _) = content_directory::handle_action(&action, &lib, "http://h:9000").unwrap_err();
    assert!(fault.contains("<errorCode>401</errorCode>"));
}
