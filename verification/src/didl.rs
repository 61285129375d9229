//! DIDL-Lite XML for ContentDirectory responses.

use vstd::prelude::*;

use crate::media::{Container, LibraryObject, Track};
use crate::text::{decimal, decimal_string, push_char, push_str, zero_padded, zero_padded_string};
use crate::xml::{
    end_tag, pairs_view, push_end, push_start, push_text_element, start_tag, text_element,
    escape_spec, escape_xml,
};

verus! {

/// The opening tag of a DIDL-Lite document, with its namespaces.
pub open spec fn didl_open() -> Seq<char> {
    start_tag(
        "DIDL-Lite"@,
        seq![
            ("xmlns"@, "urn:schemas-upnp-org:metadata-1-0/DIDL-Lite/"@),
            ("xmlns:dc"@, "http://purl.org/dc/elements/1.1/"@),
            ("xmlns:upnp"@, "urn:schemas-upnp-org:metadata-1-0/upnp/"@),
            ("xmlns:dlna"@, "urn:schemas-dlna-org:metadata-1-0/"@),
        ],
    )
}

/// A container as a DIDL-Lite `container` element.
pub open spec fn container_xml(c: Container) -> Seq<char> {
    start_tag(
        "container"@,
        seq![
            ("id"@, c.id@),
            ("parentID"@, c.parent_id@),
            ("restricted"@, "true"@),
            ("childCount"@, decimal(c.child_count as nat)),
        ],
    ) + text_element("dc:title"@, c.title@) + text_element("upnp:class"@, c.upnp_class@)
        + end_tag("container"@)
}

/// Whether a byte is an ASCII letter or digit.
pub open spec fn is_ascii_alnum(b: u8) -> bool {
    (48 <= b && b <= 57) || (65 <= b && b <= 90) || (97 <= b && b <= 122)
}

/// An upper-case hexadecimal digit.
pub open spec fn hex_upper(n: u8) -> char {
    if n < 10 {
        (48 + n) as char
    } else {
        (55 + n) as char
    }
}

/// What percent-encoding makes of one byte: ASCII letters and digits stay,
/// every other byte becomes `%XX` in upper-case hex.
pub open spec fn percent_byte(b: u8) -> Seq<char> {
    if is_ascii_alnum(b) {
        seq![b as char]
    } else {
        seq!['%', hex_upper(b / 16), hex_upper(b % 16)]
    }
}

/// Percent-encoding of a byte string, byte by byte.
pub open spec fn percent_spec(bytes: Seq<u8>) -> Seq<char>
    decreases bytes.len(),
{
    if bytes.len() == 0 {
        Seq::empty()
    } else {
        percent_spec(bytes.drop_last()) + percent_byte(bytes.last())
    }
}

/// Percent-encode a string for a URL path, leaving only ASCII letters and
/// digits as they are.
///
/// Calls `percent_encoding::utf8_percent_encode` with `NON_ALPHANUMERIC`,
/// which, by its source, encodes each UTF-8 byte that is not an ASCII letter
/// or digit as `%` and two upper-case hex digits; the contract states that.
#[verifier::external_body]
pub(crate) fn percent_encode(s: &str) -> (r: String)
    ensures
        r@ == percent_spec(vstd::utf8::encode_utf8(s@)),
{
    percent_encoding::utf8_percent_encode(s, percent_encoding::NON_ALPHANUMERIC).to_string()
}

/// The `protocolInfo` of a track's resource.
pub open spec fn protocol_info(mime: Seq<char>) -> Seq<char> {
    "http-get:*:"@ + mime + ":DLNA.ORG_OP=01;DLNA.ORG_FLAGS=01700000000000000000000000000000"@
}

/// A duration in milliseconds as `h:mm:ss.fff`.
pub open spec fn didl_duration(ms: nat) -> Seq<char> {
    let secs = ms / 1000;
    decimal(secs / 3600) + seq![':'] + zero_padded((secs % 3600) / 60, 2) + seq![':']
        + zero_padded(secs % 60, 2) + seq!['.'] + zero_padded(ms % 1000, 3)
}

/// Append an attribute when a value is present.
pub open spec fn with_attr<T>(attrs: Seq<(Seq<char>, Seq<char>)>, name: Seq<char>, v: Option<T>, f: spec_fn(T) -> Seq<char>) -> Seq<(Seq<char>, Seq<char>)> {
    match v {
        Some(x) => attrs.push((name, f(x))),
        None => attrs,
    }
}

/// The attributes of a track's `res` element.
pub open spec fn res_attrs(t: Track) -> Seq<(Seq<char>, Seq<char>)> {
    let base = seq![
        ("protocolInfo"@, protocol_info(t.meta.mime_type@)),
        ("size"@, decimal(t.meta.size_bytes as nat)),
    ];
    let a1 = with_attr(base, "duration"@, t.meta.duration, |d: u64| didl_duration(d as nat));
    let a2 = with_attr(a1, "sampleFrequency"@, t.meta.sample_rate, |r: u32| decimal(r as nat));
    let a3 = with_attr(a2, "nrAudioChannels"@, t.meta.channels, |c: u8| decimal(c as nat));
    with_attr(a3, "bitsPerSample"@, t.meta.bit_depth, |b: u8| decimal(b as nat))
}

/// The URL a track is streamed from: `{base}/media/{percent-encoded id}`.
pub open spec fn track_url(t: Track, base_url: Seq<char>) -> Seq<char> {
    base_url + "/media/"@ + percent_spec(vstd::utf8::encode_utf8(t.id@))
}

/// The opening tag of a track's `item` element and its fixed metadata.
pub open spec fn track_open(t: Track) -> Seq<char> {
    start_tag(
        "item"@,
        seq![("id"@, t.id@), ("parentID"@, t.parent_id@), ("restricted"@, "true"@)],
    ) + text_element("dc:title"@, t.meta.title@) + text_element("dc:creator"@, t.meta.artist@)
        + text_element("upnp:artist"@, t.meta.artist@) + text_element("upnp:album"@, t.meta.album@)
        + text_element("upnp:class"@, "object.item.audioItem.musicTrack"@)
}

/// The opening of a track's `item` element and its metadata elements.
pub open spec fn track_head(t: Track) -> Seq<char> {
    let head = track_open(t);
    let with_genre = match t.meta.genre {
        Some(g) => head + text_element("upnp:genre"@, g@),
        None => head,
    };
    match t.meta.track_number {
        Some(n) => with_genre + text_element("upnp:originalTrackNumber"@, decimal(n as nat)),
        None => with_genre,
    }
}

/// A track's `res` element.
pub open spec fn res_xml(t: Track, base_url: Seq<char>) -> Seq<char> {
    start_tag("res"@, res_attrs(t)) + escape_spec(track_url(t, base_url)) + end_tag("res"@)
}

/// A track as a DIDL-Lite `item` element.
pub open spec fn track_xml(t: Track, base_url: Seq<char>) -> Seq<char> {
    track_head(t) + res_xml(t, base_url) + end_tag("item"@)
}

/// An object as its DIDL-Lite element.
pub open spec fn object_xml(o: LibraryObject, base_url: Seq<char>) -> Seq<char> {
    match o {
        LibraryObject::Container(c) => container_xml(c),
        LibraryObject::Track(t) => track_xml(t, base_url),
    }
}

/// Writes a DIDL-Lite document object by object.
pub struct DidlWriter {
    out: String,
}

impl View for DidlWriter {
    type V = Seq<char>;

    /// What has been written so far.
    closed spec fn view(&self) -> Seq<char> {
        self.out@
    }
}

/// The duration attribute value.
fn duration_string(ms: u64) -> (r: String)
    ensures
        r@ == didl_duration(ms as nat),
{
    let secs = ms / 1000;
    let mut s = decimal_string(secs / 3600);
    push_char(&mut s, ':');
    let m = zero_padded_string((secs % 3600) / 60, 2);
    push_str(&mut s, m.as_str());
    push_char(&mut s, ':');
    let sec = zero_padded_string(secs % 60, 2);
    push_str(&mut s, sec.as_str());
    push_char(&mut s, '.');
    let frac = zero_padded_string(ms % 1000, 3);
    push_str(&mut s, frac.as_str());
    s
}

/// The attribute values of a track's resource: protocol info, size, and
/// the optional duration, sample rate, channels and bit depth.
fn res_values(track: &Track) -> (r: (String, String, Option<String>, Option<String>, Option<String>, Option<String>))
    ensures
        r.0@ == protocol_info(track.meta.mime_type@),
        r.1@ == decimal(track.meta.size_bytes as nat),
        match track.meta.duration {
            Some(d) => r.2 is Some && r.2->0@ == didl_duration(d as nat),
            None => r.2 is None,
        },
        match track.meta.sample_rate {
            Some(x) => r.3 is Some && r.3->0@ == decimal(x as nat),
            None => r.3 is None,
        },
        match track.meta.channels {
            Some(x) => r.4 is Some && r.4->0@ == decimal(x as nat),
            None => r.4 is None,
        },
        match track.meta.bit_depth {
            Some(x) => r.5 is Some && r.5->0@ == decimal(x as nat),
            None => r.5 is None,
        },
{
    let mut pi = String::from_str("http-get:*:");
    push_str(&mut pi, track.meta.mime_type.as_str());
    push_str(&mut pi, ":DLNA.ORG_OP=01;DLNA.ORG_FLAGS=01700000000000000000000000000000");
    let size = decimal_string(track.meta.size_bytes);
    let duration: Option<String> = match track.meta.duration {
        Some(d) => Some(duration_string(d)),
        None => None,
    };
    let rate: Option<String> = match track.meta.sample_rate {
        Some(x) => Some(decimal_string(x as u64)),
        None => None,
    };
    let channels: Option<String> = match track.meta.channels {
        Some(x) => Some(decimal_string(x as u64)),
        None => None,
    };
    let depth: Option<String> = match track.meta.bit_depth {
        Some(x) => Some(decimal_string(x as u64)),
        None => None,
    };
    (pi, size, duration, rate, channels, depth)
}

impl DidlWriter {
    /// Start a document.
    pub fn new() -> (w: Self)
        ensures
            w@ == didl_open(),
    {
        let mut out = String::new();
        let attrs = [
            ("xmlns", "urn:schemas-upnp-org:metadata-1-0/DIDL-Lite/"),
            ("xmlns:dc", "http://purl.org/dc/elements/1.1/"),
            ("xmlns:upnp", "urn:schemas-upnp-org:metadata-1-0/upnp/"),
            ("xmlns:dlna", "urn:schemas-dlna-org:metadata-1-0/"),
        ];
        proof {
            assert(pairs_view(attrs@) =~= seq![
                ("xmlns"@, "urn:schemas-upnp-org:metadata-1-0/DIDL-Lite/"@),
                ("xmlns:dc"@, "http://purl.org/dc/elements/1.1/"@),
                ("xmlns:upnp"@, "urn:schemas-upnp-org:metadata-1-0/upnp/"@),
                ("xmlns:dlna"@, "urn:schemas-dlna-org:metadata-1-0/"@),
            ]);
        }
        push_start(&mut out, "DIDL-Lite", &attrs);
        DidlWriter { out }
    }

    /// Write a container.
    pub fn write_container(&mut self, container: &Container)
        ensures
            final(self)@ == old(self)@ + container_xml(*container),
    {
        let count = decimal_string(container.child_count as u64);
        let attrs = [
            ("id", container.id.as_str()),
            ("parentID", container.parent_id.as_str()),
            ("restricted", "true"),
            ("childCount", count.as_str()),
        ];
        proof {
            assert(pairs_view(attrs@) =~= seq![
                ("id"@, container.id@),
                ("parentID"@, container.parent_id@),
                ("restricted"@, "true"@),
                ("childCount"@, decimal(container.child_count as nat)),
            ]);
        }
        push_start(&mut self.out, "container", &attrs);
        self.write_text_element("dc:title", container.title.as_str());
        self.write_text_element("upnp:class", container.upnp_class);
        push_end(&mut self.out, "container");
    }

    /// Write a track; its resource URL is `{base_url}/media/{id}` with the
    /// id percent-encoded.
    pub fn write_track(&mut self, track: &Track, base_url: &str)
        ensures
            final(self)@ == old(self)@ + track_xml(*track, base_url@),
    {
        self.write_track_head(track);
        self.write_res(track, base_url);
        push_end(&mut self.out, "item");
    }

    fn write_track_head(&mut self, track: &Track)
        ensures
            final(self)@ == old(self)@ + track_head(*track),
    {
        self.write_track_open(track);
        match &track.meta.genre {
            Some(genre) => self.write_text_element("upnp:genre", genre.as_str()),
            None => {},
        }
        match track.meta.track_number {
            Some(n) => {
                let num = decimal_string(n as u64);
                self.write_text_element("upnp:originalTrackNumber", num.as_str());
            },
            None => {},
        }
    }

    fn write_track_open(&mut self, track: &Track)
        ensures
            final(self)@ == old(self)@ + track_open(*track),
    {
        let item_attrs = [
            ("id", track.id.as_str()),
            ("parentID", track.parent_id.as_str()),
            ("restricted", "true"),
        ];
        proof {
            assert(pairs_view(item_attrs@) =~= seq![
                ("id"@, track.id@),
                ("parentID"@, track.parent_id@),
                ("restricted"@, "true"@),
            ]);
        }
        push_start(&mut self.out, "item", &item_attrs);
        self.write_text_element("dc:title", track.meta.title.as_str());
        self.write_text_element("dc:creator", track.meta.artist.as_str());
        self.write_text_element("upnp:artist", track.meta.artist.as_str());
        self.write_text_element("upnp:album", track.meta.album.as_str());
        self.write_text_element("upnp:class", "object.item.audioItem.musicTrack");
    }

    fn write_res(&mut self, track: &Track, base_url: &str)
        ensures
            final(self)@ == old(self)@ + res_xml(*track, base_url@),
    {
        let mut stream_url = base_url.to_owned();
        push_str(&mut stream_url, "/media/");
        let enc = percent_encode(track.id.as_str());
        push_str(&mut stream_url, enc.as_str());
        let (pi, size, duration, rate, channels, depth) = res_values(track);
        let mut res: Vec<(&str, &str)> = Vec::new();
        res.push(("protocolInfo", pi.as_str()));
        res.push(("size", size.as_str()));
        let ghost a0 = pairs_view(res@);
        match &duration {
            Some(d) => res.push(("duration", d.as_str())),
            None => {},
        }
        let ghost a1 = pairs_view(res@);
        match &rate {
            Some(r) => res.push(("sampleFrequency", r.as_str())),
            None => {},
        }
        let ghost a2 = pairs_view(res@);
        match &channels {
            Some(c) => res.push(("nrAudioChannels", c.as_str())),
            None => {},
        }
        let ghost a3 = pairs_view(res@);
        match &depth {
            Some(b) => res.push(("bitsPerSample", b.as_str())),
            None => {},
        }
        proof {
            let t = *track;
            let base = seq![
                ("protocolInfo"@, protocol_info(t.meta.mime_type@)),
                ("size"@, decimal(t.meta.size_bytes as nat)),
            ];
            assert(a0 =~= base);
            let b1 = with_attr(base, "duration"@, t.meta.duration, |d: u64| didl_duration(d as nat));
            assert(a1 =~= b1);
            let b2 = with_attr(b1, "sampleFrequency"@, t.meta.sample_rate, |r: u32| decimal(r as nat));
            assert(a2 =~= b2);
            let b3 = with_attr(b2, "nrAudioChannels"@, t.meta.channels, |c: u8| decimal(c as nat));
            assert(a3 =~= b3);
            assert(pairs_view(res@) =~= res_attrs(t));
        }
        push_start(&mut self.out, "res", res.as_slice());
        let esc = escape_xml(stream_url.as_str());
        push_str(&mut self.out, esc.as_str());
        push_end(&mut self.out, "res");
    }

    /// Write a container or a track.
    pub fn write_object(&mut self, obj: &LibraryObject, base_url: &str)
        ensures
            final(self)@ == old(self)@ + object_xml(*obj, base_url@),
    {
        match obj {
            LibraryObject::Container(c) => self.write_container(c),
            LibraryObject::Track(t) => self.write_track(t, base_url),
        }
    }

    /// Close the document and return it.
    pub fn finish(self) -> (r: String)
        ensures
            r@ == self@ + end_tag("DIDL-Lite"@),
    {
        let mut out = self.out;
        push_end(&mut out, "DIDL-Lite");
        out
    }

    fn write_text_element(&mut self, tag: &str, text: &str)
        ensures
            final(self)@ == old(self)@ + text_element(tag@, text@),
    {
        push_text_element(&mut self.out, tag, text);
    }
}

} // verus!
