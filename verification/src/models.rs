//! Request and response records of the control API.

use vstd::prelude::*;

verus! {

/// A track as it stands in a playback queue.
#[derive(Debug)]
pub struct QueueTrackResponse {
    pub id: String,
    pub title: String,
    pub artist: Option<String>,
    pub album: Option<String>,
    pub duration: Option<String>,
    pub stream_url: Option<String>,
}

/// Copies an optional string, keeping its value.
pub fn clone_opt_string(o: &Option<String>) -> (r: Option<String>)
    ensures
        r == *o,
{
    match o {
        Some(s) => Some(s.clone()),
        None => None,
    }
}

impl Clone for QueueTrackResponse {
    fn clone(&self) -> (r: Self)
        ensures
            r == *self,
    {
        QueueTrackResponse {
            id: self.id.clone(),
            title: self.title.clone(),
            artist: clone_opt_string(&self.artist),
            album: clone_opt_string(&self.album),
            duration: clone_opt_string(&self.duration),
            stream_url: clone_opt_string(&self.stream_url),
        }
    }
}


/// What a device can do, as the device list reports it.
#[derive(Debug)]
pub struct DeviceCapabilitiesResponse {
    pub av_transport: bool,
    pub rendering_control: bool,
    pub wiim_extended: bool,
}

/// A request to enable or disable a device.
#[derive(Debug)]
pub struct SetEnabledRequest {
    pub enabled: bool,
}

/// A library object as the browse and search endpoints report it.
#[derive(Debug)]
pub struct LibraryItemResponse {
    pub item_type: String,
    pub id: String,
    pub parent_id: Option<String>,
    pub title: Option<String>,
    pub artist: Option<String>,
    pub album: Option<String>,
    pub genre: Option<String>,
    pub track_number: Option<String>,
    pub class: Option<String>,
    pub child_count: Option<usize>,
    pub duration: Option<String>,
    pub stream_url: Option<String>,
}

/// A list of library objects and how many there are.
#[derive(Debug)]
pub struct BrowseResponse {
    pub items: Vec<LibraryItemResponse>,
    pub total: usize,
}

/// A queue's tracks and its play position.
#[derive(Debug)]
pub struct QueueStateResponse {
    pub tracks: Vec<QueueTrackResponse>,
    pub position: usize,
}

/// What to play: one track, a list of tracks, or everything under a
/// container, starting at `start_index`.
#[derive(Debug)]
pub struct PlayRequest {
    pub track_id: Option<String>,
    pub track_ids: Option<Vec<String>>,
    pub container_id: Option<String>,
    pub start_index: Option<usize>,
}

/// A request to change the shuffle mode.
#[derive(Debug)]
pub struct ShuffleModeRequest {
    pub mode: String,
}

/// A request to change the repeat mode.
#[derive(Debug)]
pub struct RepeatModeRequest {
    pub mode: String,
}

/// Tracks to add to a queue, and where (`"next"` or `"end"`).
#[derive(Debug)]
pub struct QueueAddRequest {
    pub track_ids: Vec<String>,
    pub position: String,
}

/// Where added tracks go when a request does not say: at the end.
pub fn default_position() -> (r: String)
    ensures
        r@ == "end"@,
{
    String::from_str("end")
}

/// A request to group devices under a master.
#[derive(Debug)]
pub struct CreateGroupRequest {
    pub master_id: String,
    pub slave_ids: Vec<String>,
}

/// A request to apply an equalizer preset.
#[derive(Debug)]
pub struct PresetRequest {
    pub preset: String,
}

/// A playlist as the playlist endpoints report it.
#[derive(Debug)]
pub struct PlaylistResponse {
    pub id: i64,
    pub name: String,
    pub track_count: usize,
    pub created_at: Option<String>,
    pub updated_at: Option<String>,
}

/// A request to create a playlist, with its first tracks.
#[derive(Debug)]
pub struct CreatePlaylistRequest {
    pub name: String,
    pub track_ids: Vec<String>,
}

/// The query of the browse endpoint: a container id and a page.
#[derive(Debug)]
pub struct BrowseQuery {
    pub id: String,
    pub start: usize,
    pub count: usize,
}

/// The container browsed when a request names none: the root.
pub fn default_id() -> (r: String)
    ensures
        r@ == "0"@,
{
    String::from_str("0")
}

/// The query of the search endpoint: the text and a page.
#[derive(Debug)]
pub struct SearchQuery {
    pub q: String,
    pub start: usize,
    pub count: usize,
}

/// The DLNA server's status.
#[derive(Debug)]
pub struct StatusResponse {
    pub friendly_name: String,
    pub total_tracks: u32,
    pub advertise_ip: String,
    pub port: u16,
    pub version: String,
}

/// Tag changes for one file; only the fields that are set change.
#[derive(Debug)]
pub struct TagUpdate {
    pub title: Option<String>,
    pub artist: Option<String>,
    pub album: Option<String>,
    pub album_artist: Option<String>,
    pub genre: Option<String>,
    pub track_number: Option<u32>,
    pub disc_number: Option<u32>,
}

impl Default for TagUpdate {
    fn default() -> (r: Self)
        ensures
            r.title is None && r.artist is None && r.album is None && r.album_artist is None
                && r.genre is None && r.track_number is None && r.disc_number is None,
    {
        TagUpdate {
            title: None,
            artist: None,
            album: None,
            album_artist: None,
            genre: None,
            track_number: None,
            disc_number: None,
        }
    }
}

/// A cached picture of an album.
#[derive(Debug)]
pub struct CachedArt {
    pub data: Vec<u8>,
    pub mime_type: String,
}

/// The key under which an album's art is cached: `"{album artist}||{album}"`.
pub fn album_cache_key(album_artist: &str, album: &str) -> (r: String)
    ensures
        r@ == album_artist@ + "||"@ + album@,
{
    let mut s = album_artist.to_owned();
    crate::text::push_str(&mut s, "||");
    crate::text::push_str(&mut s, album);
    s
}

} // verus!
