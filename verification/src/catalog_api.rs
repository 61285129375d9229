//! What the control plane's library endpoints answer: library objects as
//! response records, browse and search results, the tracks a play request
//! names, and the tracks a bulk tag edit touches.

use vstd::prelude::*;

use crate::library::{entries_view, entry_ids, search_spec, strings_view, tracks_from, Library};
use crate::media::{children_spec, is_track_at, Container, LibraryObject, Track};
use crate::models::{
    BrowseResponse, LibraryItemResponse, PlayRequest, QueueTrackResponse, TagUpdate,
};
use crate::monitor::{format_hms, hms_spec, media_url, media_url_spec};
use crate::text::{decimal, decimal_string, lowercase, push_char, push_str, str_eq, to_lower, zero_padded, zero_padded_string};

verus! {

broadcast use vstd::seq_lib::group_seq_properties;

/// A track's duration as the library endpoints show it: whole minutes, a
/// colon, and two-digit seconds.
pub open spec fn minutes_text(ms: nat) -> Seq<char> {
    decimal((ms / 1000) / 60) + seq![':'] + zero_padded((ms / 1000) % 60, 2)
}

fn minutes_string(ms: u64) -> (r: String)
    ensures
        r@ == minutes_text(ms as nat),
{
    let secs = ms / 1000;
    let mut s = decimal_string(secs / 60);
    push_char(&mut s, ':');
    let sec = zero_padded_string(secs % 60, 2);
    push_str(&mut s, sec.as_str());
    s
}

/// The view of an optional string.
pub open spec fn opt_str(o: Option<String>) -> Option<Seq<char>> {
    match o {
        Some(s) => Some(s@),
        None => None,
    }
}

/// The abstract content of a library item response.
pub struct ItemView {
    pub item_type: Seq<char>,
    pub id: Seq<char>,
    pub parent_id: Option<Seq<char>>,
    pub title: Option<Seq<char>>,
    pub artist: Option<Seq<char>>,
    pub album: Option<Seq<char>>,
    pub genre: Option<Seq<char>>,
    pub track_number: Option<Seq<char>>,
    pub class: Option<Seq<char>>,
    pub child_count: Option<nat>,
    pub duration: Option<Seq<char>>,
    pub stream_url: Option<Seq<char>>,
}

impl View for LibraryItemResponse {
    type V = ItemView;

    open spec fn view(&self) -> ItemView {
        ItemView {
            item_type: self.item_type@,
            id: self.id@,
            parent_id: opt_str(self.parent_id),
            title: opt_str(self.title),
            artist: opt_str(self.artist),
            album: opt_str(self.album),
            genre: opt_str(self.genre),
            track_number: opt_str(self.track_number),
            class: opt_str(self.class),
            child_count: match self.child_count {
                Some(n) => Some(n as nat),
                None => None,
            },
            duration: opt_str(self.duration),
            stream_url: opt_str(self.stream_url),
        }
    }
}

/// How a track is reported.
pub open spec fn track_item(t: Track) -> ItemView {
    ItemView {
        item_type: "track"@,
        id: t.id@,
        parent_id: Some(t.parent_id@),
        title: Some(t.meta.title@),
        artist: Some(t.meta.artist@),
        album: Some(t.meta.album@),
        genre: opt_str(t.meta.genre),
        track_number: match t.meta.track_number {
            Some(n) => Some(decimal(n as nat)),
            None => None,
        },
        class: Some("object.item.audioItem.musicTrack"@),
        child_count: None,
        duration: match t.meta.duration {
            Some(ms) => Some(minutes_text(ms as nat)),
            None => None,
        },
        stream_url: None,
    }
}

/// How a container is reported.
pub open spec fn container_item(c: Container) -> ItemView {
    ItemView {
        item_type: "container"@,
        id: c.id@,
        parent_id: Some(c.parent_id@),
        title: Some(c.title@),
        artist: None,
        album: None,
        genre: None,
        track_number: None,
        class: Some(c.upnp_class@),
        child_count: Some(c.child_count as nat),
        duration: None,
        stream_url: None,
    }
}

/// How any library object is reported.
pub open spec fn object_item(o: LibraryObject) -> ItemView {
    match o {
        LibraryObject::Container(c) => container_item(c),
        LibraryObject::Track(t) => track_item(t),
    }
}

fn clone_opt(o: &Option<String>) -> (r: Option<String>)
    ensures
        opt_str(r) == opt_str(*o),
{
    match o {
        Some(s) => Some(s.clone()),
        None => None,
    }
}

/// Report a track.
pub fn track_to_response(t: &Track) -> (r: LibraryItemResponse)
    ensures
        r@ == track_item(*t),
{
    LibraryItemResponse {
        item_type: String::from_str("track"),
        id: t.id.clone(),
        parent_id: Some(t.parent_id.clone()),
        title: Some(t.meta.title.clone()),
        artist: Some(t.meta.artist.clone()),
        album: Some(t.meta.album.clone()),
        genre: clone_opt(&t.meta.genre),
        track_number: match t.meta.track_number {
            Some(n) => Some(decimal_string(n as u64)),
            None => None,
        },
        class: Some(String::from_str("object.item.audioItem.musicTrack")),
        child_count: None,
        duration: match t.meta.duration {
            Some(ms) => Some(minutes_string(ms)),
            None => None,
        },
        stream_url: None,
    }
}

/// Report a library object.
pub fn library_object_to_response(obj: &LibraryObject) -> (r: LibraryItemResponse)
    ensures
        r@ == object_item(*obj),
{
    match obj {
        LibraryObject::Container(c) => LibraryItemResponse {
            item_type: String::from_str("container"),
            id: c.id.clone(),
            parent_id: Some(c.parent_id.clone()),
            title: Some(c.title.clone()),
            artist: None,
            album: None,
            genre: None,
            track_number: None,
            class: Some(c.upnp_class.to_owned()),
            child_count: Some(c.child_count as usize),
            duration: None,
            stream_url: None,
        },
        LibraryObject::Track(t) => track_to_response(t),
    }
}

/// The views of a list of item responses.
pub open spec fn items_view(v: Seq<LibraryItemResponse>) -> Seq<ItemView> {
    v.map_values(|i: LibraryItemResponse| i@)
}

/// Report a list of objects, with their number.
pub fn respond_objects(objs: &Vec<&LibraryObject>) -> (r: BrowseResponse)
    ensures
        items_view(r.items@) == objs@.map_values(|o: &LibraryObject| object_item(*o)),
        r.total == objs@.len(),
{
    let mut items: Vec<LibraryItemResponse> = Vec::new();
    let mut i: usize = 0;
    while i < objs.len()
        invariant
            i <= objs@.len(),
            items_view(items@) == objs@.take(i as int).map_values(|o: &LibraryObject| object_item(*o)),
        decreases objs.len() - i,
    {
        let ghost prev = items_view(items@);
        let it = library_object_to_response(objs[i]);
        let ghost itv = it@;
        items.push(it);
        proof {
            assert(items_view(items@) =~= prev.push(itv));
            assert(objs@.take(i + 1).map_values(|o: &LibraryObject| object_item(*o)) =~= objs@.take(
                i as int,
            ).map_values(|o: &LibraryObject| object_item(*o)).push(object_item(*objs@[i as int])));
        }
        i = i + 1;
    }
    assert(objs@.take(objs@.len() as int) =~= objs@);
    let total = items.len();
    BrowseResponse { items, total }
}

/// The browse endpoint: the children of a container, reported.
pub fn browse(library: &Library, id: &str) -> (r: BrowseResponse)
    requires
        library.wf(),
    ensures
        items_view(r.items@) == children_spec(library@.objects, id@).map_values(|o: LibraryObject| object_item(o)),
        r.total == children_spec(library@.objects, id@).len(),
{
    let children = library.children_of(id);
    let r = respond_objects(&children);
    assert(children@.map_values(|o: &LibraryObject| object_item(*o)) =~= children@.map_values(
        |o: &LibraryObject| *o,
    ).map_values(|o: LibraryObject| object_item(o)));
    r
}

/// The search endpoint: the tracks matching a query, reported.
pub fn search(library: &Library, q: &str) -> (r: BrowseResponse)
    requires
        library.wf(),
    ensures
        items_view(r.items@) == search_spec(library@, lowercase(q@)).map_values(|o: LibraryObject| object_item(o)),
        r.total == search_spec(library@, lowercase(q@)).len(),
{
    let results = library.search(q);
    let r = respond_objects(&results);
    assert(results@.map_values(|o: &LibraryObject| object_item(*o)) =~= results@.map_values(
        |o: &LibraryObject| *o,
    ).map_values(|o: LibraryObject| object_item(o)));
    r
}

/// A library track as a queue entry, with the given stream URL.
pub open spec fn queue_entry(t: Track, stream_url: Option<Seq<char>>) -> (Seq<char>, Seq<char>, Option<Seq<char>>, Option<Seq<char>>, Option<Seq<char>>, Option<Seq<char>>) {
    (
        t.id@,
        t.meta.title@,
        Some(t.meta.artist@),
        Some(t.meta.album@),
        match t.meta.duration {
            Some(ms) => Some(hms_spec((ms / 1000) as nat)),
            None => None,
        },
        stream_url,
    )
}

/// The view of a queue entry.
pub open spec fn entry_view(q: QueueTrackResponse) -> (Seq<char>, Seq<char>, Option<Seq<char>>, Option<Seq<char>>, Option<Seq<char>>, Option<Seq<char>>) {
    (q.id@, q.title@, opt_str(q.artist), opt_str(q.album), opt_str(q.duration), opt_str(q.stream_url))
}

/// Make a queue entry from a library track.
pub fn queue_track(t: &Track, stream_url: Option<String>) -> (r: QueueTrackResponse)
    ensures
        entry_view(r) == queue_entry(*t, opt_str(stream_url)),
{
    QueueTrackResponse {
        id: t.id.clone(),
        title: t.meta.title.clone(),
        artist: Some(t.meta.artist.clone()),
        album: Some(t.meta.album.clone()),
        duration: match t.meta.duration {
            Some(ms) => Some(format_hms(ms / 1000)),
            None => None,
        },
        stream_url,
    }
}

/// The queue entries for a list of ids: one per id that names a track, in
/// order; with `base_url` each streams from this server, else it has no
/// stream URL.
pub open spec fn queue_entries(
    m: Map<Seq<char>, LibraryObject>,
    ids: Seq<Seq<char>>,
    base_url: Option<Seq<char>>,
) -> Seq<(Seq<char>, Seq<char>, Option<Seq<char>>, Option<Seq<char>>, Option<Seq<char>>, Option<Seq<char>>)> {
    ids.filter(|id: Seq<char>| is_track_at(m, id)).map_values(
        |id: Seq<char>| queue_entry(
            m[id]->Track_0,
            match base_url {
                Some(b) => Some(media_url_spec(b, m[id]->Track_0.id@)),
                None => None,
            },
        ),
    )
}

/// Make queue entries for the tracks a list of ids names (the play and
/// add-to-queue endpoints).
pub fn tracks_for_queue(library: &Library, ids: &Vec<String>, base_url: Option<&str>) -> (r: Vec<QueueTrackResponse>)
    requires
        library.wf(),
    ensures
        r@.map_values(|q: QueueTrackResponse| entry_view(q)) == queue_entries(
            library@.objects,
            strings_view(ids@),
            match base_url {
                Some(b) => Some(b@),
                None => None,
            },
        ),
{
    let ghost m = library@.objects;
    let ghost iv = strings_view(ids@);
    let ghost bv = match base_url {
        Some(b) => Some(b@),
        None => None,
    };
    let mut out: Vec<QueueTrackResponse> = Vec::new();
    let mut i: usize = 0;
    while i < ids.len()
        invariant
            library.wf(),
            m == library@.objects,
            iv == strings_view(ids@),
            bv == match base_url {
                Some(b) => Some(b@),
                None => None,
            },
            i <= ids@.len(),
            out@.map_values(|q: QueueTrackResponse| entry_view(q)) == queue_entries(m, iv.take(i as int), bv),
        decreases ids.len() - i,
    {
        let ghost prev = out@.map_values(|q: QueueTrackResponse| entry_view(q));
        proof {
            reveal(Seq::filter);
            assert(iv.take(i + 1).drop_last() =~= iv.take(i as int));
            assert(iv.take(i + 1).last() == ids@[i as int]@);
        }
        match library.get(ids[i].as_str()) {
            Some(LibraryObject::Track(t)) => {
                let url = match base_url {
                    Some(b) => Some(media_url(b, t.id.as_str())),
                    None => None,
                };
                let q = queue_track(t, url);
                out.push(q);
                proof {
                    let f = iv.take(i + 1).filter(|id: Seq<char>| is_track_at(m, id));
                    let g = iv.take(i as int).filter(|id: Seq<char>| is_track_at(m, id));
                    assert(f == g.push(ids@[i as int]@));
                    assert(out@.map_values(|q: QueueTrackResponse| entry_view(q)) =~= prev.push(entry_view(q)));
                }
            },
            _ => {
                proof {
                    let f = iv.take(i + 1).filter(|id: Seq<char>| is_track_at(m, id));
                    let g = iv.take(i as int).filter(|id: Seq<char>| is_track_at(m, id));
                    assert(f == g);
                }
            },
        }
        i = i + 1;
    }
    assert(iv.take(iv.len() as int) =~= iv);
    out
}

/// Append the ids of the tracks below a container, depth first in child
/// order.
pub fn collect_tracks_recursive(library: &Library, container_id: &str, out: &mut Vec<String>)
    requires
        library.wf(),
    ensures
        strings_view(final(out)@) == strings_view(old(out)@) + entry_ids(
            tracks_from(library@.objects, library.rank(), container_id@, 0),
        ),
{
    let entries = library.track_entries(container_id);
    let ghost before = strings_view(out@);
    let ghost ev = entries_view(entries@);
    let mut i: usize = 0;
    while i < entries.len()
        invariant
            i <= entries@.len(),
            ev == entries_view(entries@),
            strings_view(out@) == before + entry_ids(ev.take(i as int)),
        decreases entries.len() - i,
    {
        let ghost prev = strings_view(out@);
        let id = entries[i].0.clone();
        let ghost idv = id@;
        out.push(id);
        proof {
            assert(idv == ev[i as int].0);
            assert(strings_view(out@) =~= prev.push(idv));
            assert(entry_ids(ev.take(i + 1)) =~= entry_ids(ev.take(i as int)).push(ev[i as int].0));
        }
        i = i + 1;
    }
    assert(ev.take(ev.len() as int) =~= ev);
}

/// The (id, path) of every track below a container, depth first.
pub fn collect_track_paths(library: &Library, container_id: &str) -> (r: Vec<(String, String)>)
    requires
        library.wf(),
    ensures
        entries_view(r@) == tracks_from(library@.objects, library.rank(), container_id@, 0),
{
    library.track_entries(container_id)
}

/// The track ids a play request names: its list of ids when that is not
/// empty, else its single id, else every track below its container, else
/// none.
pub open spec fn resolved_ids(
    track_ids: Option<Seq<Seq<char>>>,
    track_id: Option<Seq<char>>,
    container_id: Option<Seq<char>>,
    m: Map<Seq<char>, LibraryObject>,
    rank: Map<Seq<char>, nat>,
) -> Seq<Seq<char>> {
    if track_ids is Some && track_ids->0.len() > 0 {
        track_ids->0
    } else if track_id is Some {
        seq![track_id->0]
    } else if container_id is Some {
        entry_ids(tracks_from(m, rank, container_id->0, 0))
    } else {
        Seq::empty()
    }
}

/// Resolve a play request into a flat list of track ids.
pub fn resolve_track_ids(body: &PlayRequest, library: &Library) -> (r: Vec<String>)
    requires
        library.wf(),
    ensures
        strings_view(r@) == resolved_ids(
            match body.track_ids {
                Some(v) => Some(strings_view(v@)),
                None => None,
            },
            opt_str(body.track_id),
            opt_str(body.container_id),
            library@.objects,
            library.rank(),
        ),
{
    match &body.track_ids {
        Some(ids) => {
            if ids.len() > 0 {
                let mut r: Vec<String> = Vec::new();
                let mut i: usize = 0;
                while i < ids.len()
                    invariant
                        i <= ids@.len(),
                        strings_view(r@) == strings_view(ids@.take(i as int)),
                    decreases ids.len() - i,
                {
                    let ghost prev = strings_view(r@);
                    let id = ids[i].clone();
                    let ghost idv = id@;
                    r.push(id);
                    proof {
                        assert(strings_view(r@) =~= prev.push(idv));
                        assert(strings_view(ids@.take(i + 1)) =~= strings_view(ids@.take(i as int)).push(
                            ids@[i as int]@,
                        ));
                    }
                    i = i + 1;
                }
                assert(ids@.take(ids@.len() as int) =~= ids@);
                return r;
            }
        },
        None => {},
    }
    match &body.track_id {
        Some(id) => {
            let r = vec![id.clone()];
            assert(strings_view(r@) =~= seq![id@]);
            return r;
        },
        None => {},
    }
    match &body.container_id {
        Some(cid) => {
            let mut r: Vec<String> = Vec::new();
            collect_tracks_recursive(library, cid.as_str(), &mut r);
            assert(strings_view(r@) =~= Seq::<Seq<char>>::empty() + entry_ids(
                tracks_from(library@.objects, library.rank(), cid@, 0),
            ));
            r
        },
        None => {
            let r: Vec<String> = Vec::new();
            assert(strings_view(r@) =~= Seq::<Seq<char>>::empty());
            r
        },
    }
}

} // verus!
