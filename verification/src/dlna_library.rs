//! The media library the DLNA server browses: Root ("0") → Artists →
//! Albums → Tracks.
//!
//! Artists are keyed by album artist, albums by (album artist, album); ids
//! are `a{n}` for artists, `al{n}` for albums and `t{n}` for tracks.

use vstd::prelude::*;

use vstd::hash_map::StringHashMap;

use crate::library::{
    albums_ok, by_name_ok, children_resolve, container_fields, kept_container, lemma_albums_step,
    lemma_by_name_step, lemma_grows_trans, lemma_lists_grows, lemma_named_grows, lists, minted_as,
    named_under, tracks_within, lemma_tracks_within, counts_consistent, counts_ok, dedup_ok, find_or_create, fixed_id, grows, id_prefix,
    id_with_prefix, keys_ok, lemma_counts_append, lemma_counts_insert, lemma_counts_settle,
    lemma_counts_widen, lemma_dedup_grows, lemma_fresh, lemma_known_prefixes,
    lemma_minted_not_fixed, lemma_prefix_at, minted, pair_key, pair_key_string,
};
use crate::grouping::{
    album_key, artist_of, category_ok, lemma_category_run, lemma_child_step, lemma_found_step, lemma_insert_step,
    same_album, step_ok, steps_ok,
};
use crate::library::strings_view;
use crate::media::{
    appended, children_spec, has_track_for, is_container_at, is_track_at, object_id, Container,
    LibraryObject, ObjectStore, Track, TrackMetadata,
};
use crate::text::decimal;

verus! {

/// The abstract state of the DLNA library.
pub struct DlnaLibraryView {
    pub objects: Map<Seq<char>, LibraryObject>,
    pub total_tracks: nat,
}

/// The in-memory media library of the DLNA server.
pub struct Library {
    store: ObjectStore,
    total_tracks: u32,
}

impl View for Library {
    type V = DlnaLibraryView;

    closed spec fn view(&self) -> DlnaLibraryView {
        DlnaLibraryView { objects: self.store@, total_tracks: self.total_tracks as nat }
    }
}

impl Library {
    /// The stored objects agree with their ids and every container counts
    /// its children.
    pub closed spec fn wf(&self) -> bool {
        &&& self.store.wf()
        &&& counts_consistent(self.store@)
    }

    /// A library holding only the empty root.
    pub fn new() -> (r: Self)
        ensures
            r.wf(),
            r@.objects.dom() == set!["0"@],
            crate::library::container_fields(r@.objects, "0"@, "-1"@, "Root"@, "object.container"@),
            r@.objects["0"@]->Container_0.children@.len() == 0,
            r@.total_tracks == 0,
    {
        let mut store = ObjectStore::new();
        store.insert_new(crate::library::new_container("0", "-1", "Root", "object.container"));
        let r = Library { store, total_tracks: 0 };
        assert(r@.objects.dom() =~= set!["0"@]);
        r
    }

    /// The object with this id.
    pub fn get(&self, id: &str) -> (r: Option<&LibraryObject>)
        requires
            self.wf(),
        ensures
            match r {
                Some(o) => self@.objects.contains_key(id@) && *o == self@.objects[id@],
                None => !self@.objects.contains_key(id@),
            },
    {
        self.store.get(id)
    }

    /// The objects listed under a container, in order; nothing for an id
    /// that names no container.
    pub fn children_of(&self, id: &str) -> (r: Vec<&LibraryObject>)
        requires
            self.wf(),
        ensures
            r@.map_values(|o: &LibraryObject| *o) == children_spec(self@.objects, id@),
    {
        self.store.children_of(id)
    }

    /// The update id a client compares to notice a rescan: the number of
    /// tracks.
    pub fn system_update_id(&self) -> (r: u32)
        ensures
            r as nat == self@.total_tracks,
    {
        self.total_tracks
    }

    /// The number of tracks.
    pub fn total_tracks(&self) -> (r: u32)
        ensures
            r as nat == self@.total_tracks,
    {
        self.total_tracks
    }
}

/// Whether a track sits where a scan puts it: under the container of its
/// album (`al{n}`, titled with the album), which sits under the container of
/// its album artist (`a{n}`) under the root.
pub open spec fn track_in_tree(m: Map<Seq<char>, LibraryObject>, k: Seq<char>) -> bool {
    let t = m[k]->Track_0;
    let al = t.parent_id@;
    let ar = m[al]->Container_0.parent_id@;
    &&& named_under(m, al, ar, t.meta.album@)
    &&& minted_as(al, "al"@)
    &&& lists(m, al, k)
    &&& named_under(m, ar, "0"@, t.meta.album_artist@)
    &&& minted_as(ar, "a"@)
}

/// Whether every track sits where a scan puts it.
pub open spec fn tracks_in_tree(m: Map<Seq<char>, LibraryObject>) -> bool {
    forall|k: Seq<char>| #[trigger] is_track_at(m, k) ==> track_in_tree(m, k)
}

/// Keeping every object, and adding no track, keeps the tracks in the tree.
proof fn lemma_tree_grows(m: Map<Seq<char>, LibraryObject>, m2: Map<Seq<char>, LibraryObject>)
    requires
        grows(m, m2),
        tracks_within(m, m2),
        tracks_in_tree(m),
    ensures
        tracks_in_tree(m2),
{
    assert forall|k: Seq<char>| #[trigger] is_track_at(m2, k) implies track_in_tree(m2, k) by {
        assert(is_track_at(m, k));
        lemma_in_tree_grows(m, m2, k);
    }
}

/// Keeping every object keeps a track in the tree.
proof fn lemma_in_tree_grows(m: Map<Seq<char>, LibraryObject>, m2: Map<Seq<char>, LibraryObject>, k: Seq<char>)
    requires
        grows(m, m2),
        is_track_at(m, k),
        track_in_tree(m, k),
    ensures
        track_in_tree(m2, k),
{
    let t = m[k]->Track_0;
    assert(m2[k] == m[k]);
    let al = t.parent_id@;
    let ar = m[al]->Container_0.parent_id@;
    lemma_named_grows(m, m2, al, ar, t.meta.album@);
    assert(kept_container(m[al], m2[al]));
    lemma_lists_grows(m, m2, al, k);
    lemma_named_grows(m, m2, ar, "0"@, t.meta.album_artist@);
}

/// A new track under the album the maps name for it, listed by that album,
/// is in the tree; the others stay.
proof fn lemma_tree_new(
    m2: Map<Seq<char>, LibraryObject>,
    m4: Map<Seq<char>, LibraryObject>,
    tid: Seq<char>,
    artists: Map<Seq<char>, String>,
    albums: Map<Seq<char>, String>,
)
    requires
        tracks_in_tree(m2),
        grows(m2, m4),
        forall|k: Seq<char>| #[trigger] is_track_at(m4, k) ==> k == tid || is_track_at(m2, k),
        is_track_at(m4, tid),
        by_name_ok(artists, m2, "0"@),
        albums_ok(albums, artists, m2),
        dedup_ok(artists, m2, "a"@),
        dedup_ok(albums, m2, "al"@),
        ({
            let t = m4[tid]->Track_0;
            let pk = pair_key(t.meta.album_artist@, t.meta.album@);
            &&& albums.contains_key(pk)
            &&& albums[pk]@ == t.parent_id@
            &&& lists(m4, t.parent_id@, tid)
        }),
    ensures
        tracks_in_tree(m4),
{
    let t = m4[tid]->Track_0;
    let aa = t.meta.album_artist@;
    let al = t.meta.album@;
    let alid = t.parent_id@;
    assert(albums.contains_key(pair_key(aa, al)));
    assert(artists.contains_key(aa));
    let arid = artists[aa]@;
    lemma_named_grows(m2, m4, alid, arid, al);
    lemma_named_grows(m2, m4, arid, "0"@, aa);
    assert(minted_as(alid, "al"@));
    assert(minted_as(arid, "a"@));
    assert(track_in_tree(m4, tid));
    assert forall|k: Seq<char>| #[trigger] is_track_at(m4, k) implies track_in_tree(m4, k) by {
        if k != tid {
            lemma_in_tree_grows(m2, m4, k);
        }
    }
}

/// Whether each track is a `t{n}` and sits under the album container its
/// (album artist, album) leads to.
pub open spec fn tracks_under_albums(m: Map<Seq<char>, LibraryObject>, albums: Map<Seq<char>, String>) -> bool {
    forall|k: Seq<char>|
        #[trigger] is_track_at(m, k) ==> {
            let t = m[k]->Track_0;
            &&& minted_as(k, "t"@)
            &&& albums.contains_key(album_key(t))
            &&& t.parent_id@ == albums[album_key(t)]@
        }
}

/// Whether every album artist a find-again map holds has a track.
pub open spec fn artists_used(m: Map<Seq<char>, LibraryObject>, artists: Map<Seq<char>, String>) -> bool {
    forall|n: Seq<char>|
        #[trigger] artists.contains_key(n) ==> exists|k: Seq<char>|
            #[trigger] is_track_at(m, k) && m[k]->Track_0.meta.album_artist@ == n
}

/// How a scanned library groups its tracks:
/// - tracks with the same album artist sit under the same artist container,
///   and tracks with the same (album artist, album) in the same album
///   container;
/// - the root lists only containers of tracks' album artists (`a{n}`), each
///   once;
/// - every track is a `t{n}`.
#[verifier::opaque]
pub open spec fn grouped_by_artist(m: Map<Seq<char>, LibraryObject>) -> bool {
    &&& forall|k1: Seq<char>, k2: Seq<char>|
        #[trigger] is_track_at(m, k1) && #[trigger] is_track_at(m, k2) && m[k1]->Track_0.meta.album_artist@
            == m[k2]->Track_0.meta.album_artist@ ==> artist_of(m, k1) == artist_of(m, k2)
    &&& forall|k1: Seq<char>, k2: Seq<char>|
        #[trigger] same_album(m, k1, k2) ==> m[k1]->Track_0.parent_id@ == m[k2]->Track_0.parent_id@
    &&& forall|c: Seq<char>|
        #[trigger] lists(m, "0"@, c) ==> exists|k: Seq<char>| #[trigger] is_track_at(m, k) && artist_of(m, k) == c
    &&& strings_view(m["0"@]->Container_0.children@).no_duplicates()
    &&& forall|c: Seq<char>| #[trigger] lists(m, "0"@, c) ==> minted_as(c, "a"@)
    &&& forall|k: Seq<char>| #[trigger] is_track_at(m, k) ==> minted_as(k, "t"@)
}

/// The builder's find-again maps give the library's grouping.
pub proof fn lemma_grouped_by_artist(
    m: Map<Seq<char>, LibraryObject>,
    artists: Map<Seq<char>, String>,
    albums: Map<Seq<char>, String>,
)
    requires
        tracks_under_albums(m, albums),
        albums_ok(albums, artists, m),
        category_ok(artists, m, "0"@),
        artists_used(m, artists),
        dedup_ok(artists, m, "a"@),
    ensures
        grouped_by_artist(m),
{
    reveal(grouped_by_artist);
    assert forall|k: Seq<char>| #[trigger] is_track_at(m, k) implies artists.contains_key(
        m[k]->Track_0.meta.album_artist@,
    ) && artist_of(m, k) == artists[m[k]->Track_0.meta.album_artist@]@ by {
        let t = m[k]->Track_0;
        assert(albums.contains_key(pair_key(t.meta.album_artist@, t.meta.album@)));
    }
    assert forall|c: Seq<char>| #[trigger] lists(m, "0"@, c) implies exists|k: Seq<char>|
        #[trigger] is_track_at(m, k) && artist_of(m, k) == c by {
        let n = choose|n: Seq<char>| #[trigger] artists.contains_key(n) && artists[n]@ == c;
        let k = choose|k: Seq<char>| #[trigger] is_track_at(m, k) && m[k]->Track_0.meta.album_artist@ == n;
        assert(artist_of(m, k) == c);
    }
    assert forall|c: Seq<char>| #[trigger] lists(m, "0"@, c) implies minted_as(c, "a"@) by {
        let n = choose|n: Seq<char>| #[trigger] artists.contains_key(n) && artists[n]@ == c;
    }
}

/// The abstract state of a DLNA library being built.
pub struct DlnaBuilderView {
    pub objects: Map<Seq<char>, LibraryObject>,
    pub total_tracks: nat,
    pub next_id: nat,
    pub artists: Map<Seq<char>, Seq<char>>,
    pub albums: Map<Seq<char>, Seq<char>>,
}

/// A DLNA library being built from scanned files.
pub struct DlnaLibraryBuilder {
    lib: Library,
    next_id: u64,
    artist_ids: StringHashMap<String>,
    album_ids: StringHashMap<String>,
}

impl View for DlnaLibraryBuilder {
    type V = DlnaBuilderView;

    closed spec fn view(&self) -> DlnaBuilderView {
        DlnaBuilderView {
            objects: self.lib@.objects,
            total_tracks: self.lib@.total_tracks,
            next_id: self.next_id as nat,
            artists: crate::library::ids_view(self.artist_ids@),
            albums: crate::library::ids_view(self.album_ids@),
        }
    }
}

impl DlnaLibraryBuilder {
    /// The builder's parts agree: the library is well formed, counts stay
    /// within the number of tracks, ids are fixed or handed out, and the
    /// find-again maps lead to containers.
    pub closed spec fn inv(&self) -> bool {
        let m = self.lib.store@;
        &&& self.lib.wf()
        &&& counts_ok(m, self.lib.total_tracks as nat, Set::empty(), Seq::empty())
        &&& keys_ok(m, self.next_id as nat)
        &&& 1 <= self.next_id <= 3 * self.lib.total_tracks + 1
        &&& dedup_ok(self.artist_ids@, m, "a"@)
        &&& dedup_ok(self.album_ids@, m, "al"@)
        &&& is_container_at(m, "0"@)
        &&& container_fields(m, "0"@, "-1"@, "Root"@, "object.container"@)
        &&& by_name_ok(self.artist_ids@, m, "0"@)
        &&& albums_ok(self.album_ids@, self.artist_ids@, m)
        &&& tracks_in_tree(m)
        &&& children_resolve(m)
        &&& tracks_under_albums(m, self.album_ids@)
        &&& category_ok(self.artist_ids@, m, "0"@)
        &&& artists_used(m, self.artist_ids@)
    }

    /// A builder holding the empty library.
    pub fn new() -> (r: Self)
        ensures
            r.inv(),
            r@.objects.dom() == set!["0"@],
            r@.total_tracks == 0,
    {
        let lib = Library::new();
        let r = DlnaLibraryBuilder {
            lib,
            next_id: 1,
            artist_ids: StringHashMap::new(),
            album_ids: StringHashMap::new(),
        };
        proof {
            reveal_strlit("0");
            let m = r.lib.store@;
            assert forall|k: Seq<char>| #[trigger] m.contains_key(k) implies fixed_id(k) || minted(k, 1) by {}
            assert(strings_view(m["0"@]->Container_0.children@).len() == 0);
        }
        r
    }

    /// Add one scanned file: find or create its album artist under the
    /// root and its album under that artist, then create the track under
    /// the album. Returns the track's id.
    #[verifier::spinoff_prover]
    #[verifier::rlimit(60)]
    pub fn add_track(&mut self, path: String, meta: TrackMetadata) -> (tid: String)
        requires
            old(self).inv(),
            old(self)@.total_tracks < u32::MAX,
        ensures
            final(self).inv(),
            final(self)@.total_tracks == old(self)@.total_tracks + 1,
            grows(old(self)@.objects, final(self)@.objects),
            !old(self)@.objects.contains_key(tid@),
            is_track_at(final(self)@.objects, tid@),
            final(self)@.objects[tid@]->Track_0.id@ == tid@,
            final(self)@.objects[tid@]->Track_0.path@ == path@,
            final(self)@.objects[tid@]->Track_0.meta == meta,
            final(self)@.artists.contains_key(meta.album_artist@),
            final(self)@.albums.contains_key(pair_key(meta.album_artist@, meta.album@)),
            final(self)@.objects[tid@]->Track_0.parent_id@ == final(self)@.albums[pair_key(
                meta.album_artist@,
                meta.album@,
            )],
            is_container_at(final(self)@.objects, final(self)@.objects[tid@]->Track_0.parent_id@),
            final(self)@.objects[final(self)@.objects[tid@]->Track_0.parent_id@]->Container_0.children@.last()@
                == tid@,
            forall|k: Seq<char>|
                #[trigger] is_track_at(final(self)@.objects, k) ==> k == tid@ || is_track_at(old(self)@.objects, k),
            old(self)@.artists.contains_key(meta.album_artist@) ==> final(self)@.artists[meta.album_artist@]
                == old(self)@.artists[meta.album_artist@],
            old(self)@.albums.contains_key(pair_key(meta.album_artist@, meta.album@))
                ==> final(self)@.albums[pair_key(meta.album_artist@, meta.album@)]
                == old(self)@.albums[pair_key(meta.album_artist@, meta.album@)],
    {
        let ghost t = self.lib.total_tracks as nat;
        let ghost m0 = self.lib.store@;
        let ghost e: Set<Seq<char>> = Set::empty();
        let ghost ex: Seq<char> = Seq::empty();
        proof {
            reveal_strlit("0");
            lemma_known_prefixes();
        }
        let ghost aa = meta.album_artist@;
        let ghost al = meta.album@;
        let ghost ar0 = self.artist_ids@;
        let ghost al0 = self.album_ids@;
        let ghost had1 = self.artist_ids@.contains_key(meta.album_artist@);
        let artist_id = find_or_create(
            &mut self.lib.store,
            &mut self.artist_ids,
            &mut self.next_id,
            meta.album_artist.as_str(),
            "a",
            "0",
            meta.album_artist.as_str(),
            "object.container.person.musicArtist",
            Ghost(t),
            Ghost(e),
            Ghost(ex),
        );
        let ghost m1 = self.lib.store@;
        let ghost s1 = e.insert("0"@);
        proof {
            if had1 {
                lemma_counts_widen(m1, t, e, s1, ex);
            } else {
                lemma_counts_widen(m1, t, e.insert("0"@), s1, ex);
            }
            lemma_dedup_grows(self.album_ids@, m0, m1, "al"@);
            lemma_tracks_within(m0, m1);
            lemma_prefix_at(artist_id@, "a"@, 0);
            assert(artist_id@[0] == 'a');
        }
        proof {
            lemma_by_name_step(ar0, self.artist_ids@, m0, m1, "0"@, aa);
            lemma_albums_step(al0, al0, ar0, self.artist_ids@, m0, m1, aa, al);
            lemma_tree_grows(m0, m1);
            assert(kept_container(m0["0"@], m1["0"@]));
        }
        let ghost ar1 = self.artist_ids@;
        let pair = pair_key_string(meta.album_artist.as_str(), meta.album.as_str());
        let ghost had2 = self.album_ids@.contains_key(pair@);
        let ghost al1 = self.album_ids@;
        let album_id = find_or_create(
            &mut self.lib.store,
            &mut self.album_ids,
            &mut self.next_id,
            pair.as_str(),
            "al",
            artist_id.as_str(),
            meta.album.as_str(),
            "object.container.album.musicAlbum",
            Ghost(t),
            Ghost(s1),
            Ghost(ex),
        );
        let ghost m2 = self.lib.store@;
        let ghost s2 = s1.insert(artist_id@);
        proof {
            if had2 {
                lemma_counts_widen(m2, t, s1, s2, ex);
            } else {
                lemma_counts_widen(m2, t, s1.insert(artist_id@), s2, ex);
            }
            lemma_dedup_grows(self.artist_ids@, m1, m2, "a"@);
            lemma_tracks_within(m1, m2);
        }
        proof {
            lemma_albums_step(al0, self.album_ids@, ar1, ar1, m1, m2, aa, al);
            lemma_by_name_step(ar1, ar1, m1, m2, "0"@, aa);
            lemma_tree_grows(m1, m2);
            assert(kept_container(m1["0"@], m2["0"@]));
        }
        let tid = id_with_prefix("t", self.next_id);
        proof {
            assert(minted_as(tid@, "t"@));
            lemma_fresh(m2, self.next_id as nat, "t"@);
            lemma_minted_not_fixed("t"@, self.next_id as nat);
            lemma_prefix_at(tid@, "t"@, 0);
        }
        let track = LibraryObject::Track(
            Track { id: tid.clone(), parent_id: album_id.clone(), path, meta },
        );
        self.lib.store.insert_new(track);
        let ghost m3 = self.lib.store@;
        proof {
            lemma_counts_insert(m2, tid@, track, t, s2, ex);
            lemma_dedup_grows(self.artist_ids@, m2, m3, "a"@);
            lemma_dedup_grows(self.album_ids@, m2, m3, "al"@);
            lemma_prefix_at(album_id@, "al"@, 0);
            lemma_prefix_at(album_id@, "al"@, 1);
            assert(album_id@[0] == 'a' && album_id@[1] == 'l');
            assert(crate::text::is_digit(artist_id@[1]));
            assert(album_id@ != artist_id@);
            assert(album_id@ != "0"@);
            assert(!s2.contains(album_id@));
            assert(album_id@ != ex);
            assert(is_container_at(m3, album_id@));
        }
        self.lib.store.add_child(album_id.as_str(), tid.as_str());
        let ghost m4 = self.lib.store@;
        self.next_id = self.next_id + 1;
        self.lib.total_tracks = self.lib.total_tracks + 1;
        proof {
            lemma_counts_append(m3, m4, album_id@, tid@, t, s2, ex);
            lemma_counts_settle(m4, t, s2.insert(album_id@), ex);
            lemma_grows_trans(m0, m1, m2);
            lemma_grows_trans(m0, m2, m3);
            lemma_grows_trans(m0, m3, m4);
            lemma_grows_trans(m2, m3, m4);
            assert(m3[tid@] == track);
            assert(m3.contains_key(tid@));
            assert(m4[tid@] == m3[tid@]);
            assert forall|k: Seq<char>| #[trigger] is_track_at(m4, k) implies k == tid@ || is_track_at(m2, k) by {
                if k != tid@ {
                    assert(m4[k] == m3[k]);
                }
            }
            let ac = m4[album_id@]->Container_0.children@;
            assert(ac[ac.len() - 1]@ == tid@);
            lemma_tree_new(m2, m4, tid@, ar1, self.album_ids@);
            lemma_by_name_step(ar1, ar1, m2, m4, "0"@, aa);
            lemma_albums_step(self.album_ids@, self.album_ids@, ar1, ar1, m2, m4, aa, al);
            assert(kept_container(m2["0"@], m4["0"@]));
            lemma_dedup_grows(self.artist_ids@, m3, m4, "a"@);
            lemma_dedup_grows(self.album_ids@, m3, m4, "al"@);
            assert(m3[tid@] == track);
            assert(m3.contains_key(tid@));
            assert(m4[tid@] == m3[tid@]);
            assert forall|k: Seq<char>| #[trigger] m4.contains_key(k) implies fixed_id(k) || minted(
                k,
                self.next_id as nat,
            ) by {
                if k != tid@ {
                    assert(m2.contains_key(k));
                }
            }
            assert forall|k: Seq<char>| #[trigger] is_track_at(m4, k) implies k == tid@ || is_track_at(m0, k) by {
                if k != tid@ {
                    assert(m4[k] == m3[k]);
                    assert(is_track_at(m2, k));
                    assert(is_track_at(m1, k));
                }
            }
        }
        // The groups: each track under the album of its key, each artist
        // with a track, and the root listing each artist once.
        proof {
            let al4 = self.album_ids@;
            assert(al4 == al1 || (al4 == al1.insert(pair@, al4[pair@]) && !al1.contains_key(pair@)));
            assert forall|k: Seq<char>| #[trigger] is_track_at(m4, k) implies {
                let t = m4[k]->Track_0;
                &&& minted_as(k, "t"@)
                &&& al4.contains_key(album_key(t))
                &&& t.parent_id@ == al4[album_key(t)]@
            } by {
                if k != tid@ {
                    assert(is_track_at(m0, k));
                    assert(m4[k] == m0[k]);
                    assert(al1.contains_key(album_key(m0[k]->Track_0)));
                }
            }
            let ar4 = self.artist_ids@;
            assert forall|n: Seq<char>| #[trigger] ar4.contains_key(n) implies exists|k: Seq<char>|
                #[trigger] is_track_at(m4, k) && m4[k]->Track_0.meta.album_artist@ == n by {
                if n == aa {
                    assert(is_track_at(m4, tid@));
                } else {
                    assert(ar0.contains_key(n));
                    let k = choose|k: Seq<char>| #[trigger] is_track_at(m0, k) && m0[k]->Track_0.meta.album_artist@ == n;
                    assert(is_track_at(m4, k));
                }
            }
            let ms = seq![m0, m1, m2, m3, m4];
            let ps = seq!["0"@, artist_id@, tid@, album_id@];
            let cs = seq![artist_id@, album_id@, tid@, tid@];
            lemma_found_step(m0, m1, had1, "0"@, artist_id@);
            lemma_found_step(m1, m2, had2, artist_id@, album_id@);
            assert(m3 == m2.insert(tid@, track));
            lemma_insert_step(m2, tid@, track);
            lemma_child_step(m3, m4, album_id@, tid@);
            assert forall|j: int| 0 <= j < ps.len() implies step_ok(ms[j], ms[j + 1], #[trigger] ps[j], cs[j]) by {
                if j == 0 {
                    assert(step_ok(m0, m1, "0"@, artist_id@));
                } else if j == 1 {
                    assert(step_ok(m1, m2, artist_id@, album_id@));
                } else if j == 2 {
                    assert(step_ok(m2, m3, tid@, tid@));
                } else {
                    assert(step_ok(m3, m4, album_id@, tid@));
                }
            }
            assert(steps_ok(ms, ps, cs));
            assert("0"@[0] == '0');
            assert(tid@[0] == 't');
            lemma_category_run(ms, ps, cs, ar0, ar4, "0"@, 0, aa);
            assert(ms[ps.len() as int] == m4);
        }
        tid
    }

    /// The library built so far.
    pub fn finish(self) -> (lib: Library)
        requires
            self.inv(),
        ensures
            lib.wf(),
            lib@.objects == self@.objects,
            lib@.total_tracks == self@.total_tracks,
            container_fields(lib@.objects, "0"@, "-1"@, "Root"@, "object.container"@),
            counts_consistent(lib@.objects),
            tracks_in_tree(lib@.objects),
            children_resolve(lib@.objects),
            grouped_by_artist(lib@.objects),
    {
        proof {
            lemma_grouped_by_artist(self.lib.store@, self.artist_ids@, self.album_ids@);
        }
        self.lib
    }
}

/// The library of the scanned files, in the order they were found: each
/// file becomes one track.
pub fn scan_entries(entries: Vec<(String, TrackMetadata)>) -> (lib: Library)
    requires
        entries@.len() <= u32::MAX,
    ensures
        lib.wf(),
        lib@.total_tracks == entries@.len(),
        forall|i: int|
            0 <= i < entries@.len() ==> has_track_for(lib@.objects, #[trigger] entries@[i].0@, entries@[i].1),
        forall|k: Seq<char>|
            #[trigger] is_track_at(lib@.objects, k) ==> exists|i: int|
                0 <= i < entries@.len() && lib@.objects[k]->Track_0.path@ == (#[trigger] entries@[i]).0@
                    && lib@.objects[k]->Track_0.meta == entries@[i].1,
        container_fields(lib@.objects, "0"@, "-1"@, "Root"@, "object.container"@),
        counts_consistent(lib@.objects),
        tracks_in_tree(lib@.objects),
        children_resolve(lib@.objects),
        grouped_by_artist(lib@.objects),
{
    let ghost n = entries@.len();
    let ghost es = entries@;
    let mut rest = entries;
    let mut rev: Vec<(String, TrackMetadata)> = Vec::new();
    while rest.len() > 0
        invariant
            rest@.len() + rev@.len() == n,
            n == es.len(),
            rest@ == es.take(rest@.len() as int),
            forall|j: int| 0 <= j < rev@.len() ==> #[trigger] rev@[j] == es[n - 1 - j],
        decreases rest@.len(),
    {
        let ghost r0 = rest@;
        let e = rest.pop().unwrap();
        proof {
            assert(rest@ =~= es.take(rest@.len() as int));
            assert(e == r0[r0.len() - 1]);
        }
        rev.push(e);
    }
    let mut b = DlnaLibraryBuilder::new();
    while rev.len() > 0
        invariant
            b.inv(),
            b@.total_tracks + rev@.len() == n,
            n == es.len(),
            n <= u32::MAX,
            forall|j: int| 0 <= j < rev@.len() ==> #[trigger] rev@[j] == es[n - 1 - j],
            forall|i: int|
                0 <= i < n - rev@.len() ==> has_track_for(b@.objects, #[trigger] es[i].0@, es[i].1),
            forall|k: Seq<char>|
                #[trigger] is_track_at(b@.objects, k) ==> exists|i: int|
                    0 <= i < n - rev@.len() && b@.objects[k]->Track_0.path@ == (#[trigger] es[i]).0@
                        && b@.objects[k]->Track_0.meta == es[i].1,
        decreases rev@.len(),
    {
        let ghost before = b@.objects;
        let ghost done = n - rev@.len();
        let ghost v0 = rev@;
        let (path, meta) = rev.pop().unwrap();
        proof {
            assert(v0[v0.len() - 1] == es[done]);
        }
        let tid = b.add_track(path, meta);
        proof {
            assert forall|i: int| 0 <= i < n - rev@.len() implies has_track_for(
                b@.objects,
                #[trigger] es[i].0@,
                es[i].1,
            ) by {
                if i < done {
                    assert(has_track_for(before, es[i].0@, es[i].1));
                    let k = choose|k: Seq<char>|
                        #[trigger] is_track_at(before, k) && before[k]->Track_0.path@ == es[i].0@
                            && before[k]->Track_0.meta == es[i].1;
                    assert(b@.objects[k] == before[k]);
                    assert(is_track_at(b@.objects, k));
                } else {
                    assert(is_track_at(b@.objects, tid@));
                }
            }
            assert forall|k: Seq<char>| #[trigger] is_track_at(b@.objects, k) implies exists|i: int|
                0 <= i < n - rev@.len() && b@.objects[k]->Track_0.path@ == (#[trigger] es[i]).0@
                    && b@.objects[k]->Track_0.meta == es[i].1 by {
                if k == tid@ {
                    assert(es[done].0@ == b@.objects[k]->Track_0.path@);
                } else {
                    assert(is_track_at(before, k));
                    let i = choose|i: int|
                        0 <= i < done && before[k]->Track_0.path@ == (#[trigger] es[i]).0@
                            && before[k]->Track_0.meta == es[i].1;
                    assert(b@.objects[k] == before[k]);
                    assert(0 <= i < n - rev@.len());
                }
            }
        }
    }
    b.finish()
}

} // verus!
