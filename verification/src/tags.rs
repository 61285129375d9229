//! A track's metadata from what its file holds: its MIME type from its
//! name, and the fallbacks for missing tags.

use vstd::prelude::*;

use crate::media::TrackMetadata;
use crate::text::{has_prefix, starts_with};
use crate::xml_tree::opt_view;

verus! {

/// The MIME type `mime_guess` gives first for a path, if any.
pub uninterp spec fn guessed_mime(path: Seq<char>) -> Option<Seq<char>>;

/// The first MIME type `mime_guess::from_path` gives for a path (from its
/// extension). The contract names the result: it depends on the path
/// alone.
#[verifier::external_body]
fn guess_mime(path: &str) -> (r: Option<String>)
    ensures
        opt_view(r) == guessed_mime(path@),
{
    mime_guess::from_path(path).first().map(|m| m.to_string())
}

/// The file name of a path without its extension, as std's
/// `Path::file_stem` gives it.
pub uninterp spec fn stem_of(path: Seq<char>) -> Option<Seq<char>>;

/// std's `Path::file_stem`, as text. The contract names the result: it
/// depends on the path alone.
#[verifier::external_body]
fn file_stem(path: &str) -> (r: Option<String>)
    ensures
        opt_view(r) == stem_of(path@),
{
    std::path::Path::new(path).file_stem().map(|s| s.to_string_lossy().into_owned())
}

/// A file's MIME type: the guessed one, else `application/octet-stream`.
pub open spec fn mime_spec(path: Seq<char>) -> Seq<char> {
    match guessed_mime(path) {
        Some(m) => m,
        None => "application/octet-stream"@,
    }
}

/// Read a file's MIME type from its name.
pub fn mime_for(path: &str) -> (r: String)
    ensures
        r@ == mime_spec(path@),
{
    match guess_mime(path) {
        Some(m) => m,
        None => String::from_str("application/octet-stream"),
    }
}

/// Whether a MIME type is an audio type.
pub fn is_audio_mime(mime: &str) -> (r: bool)
    ensures
        r == has_prefix(mime@, "audio/"@),
{
    starts_with(mime, "audio/")
}

/// Whether a library scan reads a file: its name says it is audio.
pub fn is_audio_file(path: &str) -> (r: bool)
    ensures
        r == (guessed_mime(path@) matches Some(m) && has_prefix(m, "audio/"@)),
{
    match guess_mime(path) {
        Some(m) => is_audio_mime(m.as_str()),
        None => false,
    }
}

/// The tags a file carries; each is missing when the file has no tag for
/// it (or no tag at all).
#[derive(Debug, Default)]
pub struct RawTags {
    pub title: Option<String>,
    pub artist: Option<String>,
    pub album: Option<String>,
    pub album_artist: Option<String>,
    pub track_number: Option<u32>,
    pub disc_number: Option<u32>,
    pub genre: Option<String>,
    pub year: Option<u32>,
}

/// The audio properties a file reports.
#[derive(Debug, Default)]
pub struct RawProperties {
    /// The play time in milliseconds; 0 when unknown.
    pub duration_ms: u64,
    pub sample_rate: Option<u32>,
    pub bit_depth: Option<u8>,
    pub channels: Option<u8>,
}

/// A text, or a fallback when it is missing.
pub open spec fn or_else(t: Option<Seq<char>>, fallback: Seq<char>) -> Seq<char> {
    match t {
        Some(s) => s,
        None => fallback,
    }
}

/// The title a track goes by: its tag, else its file name without
/// extension, else `Unknown`.
pub open spec fn title_spec(tag: Option<Seq<char>>, path: Seq<char>) -> Seq<char> {
    or_else(tag, or_else(stem_of(path), "Unknown"@))
}

fn text_or(t: Option<String>, fallback: &str) -> (r: String)
    ensures
        r@ == or_else(opt_view(t), fallback@),
{
    match t {
        Some(s) => s,
        None => fallback.to_owned(),
    }
}

/// Build a track's metadata from its file: missing tags fall back to the
/// file name (title), `Unknown Artist`, `Unknown Album` and the artist
/// (album artist); a zero play time means none is known.
pub fn track_metadata(path: &str, tags: RawTags, props: RawProperties, size_bytes: u64, mime_type: String) -> (r: TrackMetadata)
    ensures
        r.title@ == title_spec(opt_view(tags.title), path@),
        r.artist@ == or_else(opt_view(tags.artist), "Unknown Artist"@),
        r.album@ == or_else(opt_view(tags.album), "Unknown Album"@),
        r.album_artist@ == or_else(opt_view(tags.album_artist), or_else(opt_view(tags.artist), "Unknown Artist"@)),
        r.track_number == tags.track_number,
        r.disc_number == tags.disc_number,
        r.duration == (if props.duration_ms == 0 {
            None
        } else {
            Some(props.duration_ms)
        }),
        opt_view(r.genre) == opt_view(tags.genre),
        r.year == tags.year,
        r.mime_type@ == mime_type@,
        r.size_bytes == size_bytes,
        r.sample_rate == props.sample_rate,
        r.bit_depth == props.bit_depth,
        r.channels == props.channels,
{
    let title = match tags.title {
        Some(t) => t,
        None => match file_stem(path) {
            Some(s) => s,
            None => String::from_str("Unknown"),
        },
    };
    let artist = text_or(tags.artist, "Unknown Artist");
    let album = text_or(tags.album, "Unknown Album");
    let album_artist = match tags.album_artist {
        Some(a) => a,
        None => artist.clone(),
    };
    TrackMetadata {
        title,
        artist,
        album,
        album_artist,
        track_number: tags.track_number,
        disc_number: tags.disc_number,
        duration: if props.duration_ms == 0 {
            None
        } else {
            Some(props.duration_ms)
        },
        genre: tags.genre,
        year: tags.year,
        mime_type,
        size_bytes,
        sample_rate: props.sample_rate,
        bit_depth: props.bit_depth,
        channels: props.channels,
    }
}

} // verus!
