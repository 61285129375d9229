//! How a scan groups the catalog's tracks: one container per album artist,
//! one per album, one per entry of the albums view and one per genre, each
//! listed once by its category, and every track of a group in its group's
//! container.

use vstd::prelude::*;

use crate::library::{
    albums_ok, children_resolve, dedup_ok, lemma_named_apart, fixed_id, grows, lemma_known_prefixes, lemma_lists_grows,
    lemma_minted_as_not_fixed, lists, minted_as, pair_key, parents_ok, strings_view,
};
use crate::media::{appended, is_container_at, is_track_at, LibraryObject, Track};

verus! {

/// The key of a track's album: its (album artist, album).
pub open spec fn album_key(t: Track) -> Seq<char> {
    pair_key(t.meta.album_artist@, t.meta.album@)
}

/// The genre of a track, as text.
pub open spec fn genre_key(t: Track) -> Option<Seq<char>> {
    match t.meta.genre {
        Some(g) => Some(g@),
        None => None,
    }
}

/// The container a track's album sits under.
pub open spec fn artist_of(m: Map<Seq<char>, LibraryObject>, k: Seq<char>) -> Seq<char> {
    m[m[k]->Track_0.parent_id@]->Container_0.parent_id@
}

/// Whether one step of building a catalog keeps every object, changes none
/// but `parent`, to which it may append `child`, and adds only tracks and
/// empty containers.
#[verifier::opaque]
pub open spec fn step_ok(m0: Map<Seq<char>, LibraryObject>, m1: Map<Seq<char>, LibraryObject>, parent: Seq<char>, child: Seq<char>) -> bool {
    &&& forall|k: Seq<char>| #[trigger] m0.contains_key(k) ==> m1.contains_key(k)
    &&& forall|k: Seq<char>| m0.contains_key(k) && k != parent ==> #[trigger] m1[k] == m0[k]
    &&& forall|k: Seq<char>|
        #[trigger] m1.contains_key(k) && !m0.contains_key(k) && m1[k] is Container ==> m1[k]->Container_0.children@.len()
            == 0
    &&& m0.contains_key(parent) ==> m1[parent] == m0[parent] || (is_container_at(m0, parent) && appended(
        m0[parent],
        m1[parent],
        child,
    ))
}

/// Whether each step of a run of catalogs is a `step_ok` with its parent and
/// child.
pub open spec fn steps_ok(ms: Seq<Map<Seq<char>, LibraryObject>>, ps: Seq<Seq<char>>, cs: Seq<Seq<char>>) -> bool {
    &&& ms.len() == ps.len() + 1
    &&& ps.len() == cs.len()
    &&& forall|j: int| 0 <= j < ps.len() ==> step_ok(ms[j], ms[j + 1], #[trigger] ps[j], cs[j])
}

/// A step that finds a container a find-again map already has changes
/// nothing; one that creates it adds it, empty, and appends it to its
/// parent.
pub proof fn lemma_found_step(
    m0: Map<Seq<char>, LibraryObject>,
    m1: Map<Seq<char>, LibraryObject>,
    had: bool,
    parent: Seq<char>,
    id: Seq<char>,
)
    requires
        is_container_at(m0, parent),
        had ==> m1 == m0,
        !had ==> {
            &&& !m0.contains_key(id)
            &&& m1[id]->Container_0.children@.len() == 0
            &&& appended(m0[parent], m1[parent], id)
            &&& m1.dom() == m0.dom().insert(id)
            &&& forall|k: Seq<char>| k != parent && #[trigger] m0.contains_key(k) ==> m1[k] == m0[k]
        },
    ensures
        step_ok(m0, m1, parent, id),
{
    reveal(step_ok);
    if !had {
        assert forall|k: Seq<char>| #[trigger] m1.contains_key(k) && !m0.contains_key(k) && m1[k] is Container implies m1[k]->Container_0.children@.len()
            == 0 by {
            assert(k == id);
        }
    }
}

/// Appending a child to a container is a step.
pub proof fn lemma_child_step(m0: Map<Seq<char>, LibraryObject>, m1: Map<Seq<char>, LibraryObject>, parent: Seq<char>, child: Seq<char>)
    requires
        m1.dom() == m0.dom(),
        is_container_at(m0, parent) ==> appended(m0[parent], m1[parent], child),
        !is_container_at(m0, parent) ==> m1 == m0,
        forall|k: Seq<char>| k != parent && #[trigger] m0.contains_key(k) ==> m1[k] == m0[k],
    ensures
        step_ok(m0, m1, parent, child),
{
    reveal(step_ok);
}

/// Adding a track under a new id is a step.
pub proof fn lemma_insert_step(m0: Map<Seq<char>, LibraryObject>, k: Seq<char>, obj: LibraryObject)
    requires
        !m0.contains_key(k),
        obj is Track,
    ensures
        step_ok(m0, m0.insert(k, obj), k, k),
{
    reveal(step_ok);
}

/// Doing nothing is a step.
pub proof fn lemma_same_step(m: Map<Seq<char>, LibraryObject>, parent: Seq<char>, child: Seq<char>)
    ensures
        step_ok(m, m, parent, child),
{
    reveal(step_ok);
}

/// What a container lists after a step it listed before, or is what the
/// step appended.
proof fn lemma_step_lists(m0: Map<Seq<char>, LibraryObject>, m1: Map<Seq<char>, LibraryObject>, p: Seq<char>, ch: Seq<char>, c: Seq<char>, x: Seq<char>)
    requires
        step_ok(m0, m1, p, ch),
        lists(m1, c, x),
    ensures
        lists(m0, c, x) || (c == p && x == ch),
{
    reveal(step_ok);
    let j = choose|j: int| 0 <= j < m1[c]->Container_0.children@.len() && #[trigger] m1[c]->Container_0.children@[j]@ == x;
    if m0.contains_key(c) {
        if c != p || m1[c] == m0[c] {
            assert(m1[c] == m0[c]);
            assert(m0[c]->Container_0.children@[j]@ == x);
        } else {
            let a = m0[c]->Container_0.children@;
            let b = m1[c]->Container_0.children@;
            if j < a.len() {
                assert(b.take(a.len() as int)[j] == b[j]);
                assert(a[j]@ == x);
            } else {
                assert(b[j] == b.last());
            }
        }
    }
}

/// What a container lists after a run of steps it listed before, or is what
/// one of the steps appended.
pub proof fn lemma_run_lists(
    ms: Seq<Map<Seq<char>, LibraryObject>>,
    ps: Seq<Seq<char>>,
    cs: Seq<Seq<char>>,
    i: int,
    c: Seq<char>,
    x: Seq<char>,
)
    requires
        steps_ok(ms, ps, cs),
        0 <= i < ms.len(),
        lists(ms[i], c, x),
    ensures
        lists(ms[0], c, x) || exists|j: int| 0 <= j < i && #[trigger] ps[j] == c && cs[j] == x,
    decreases i,
{
    if i > 0 {
        assert(step_ok(ms[i - 1], ms[i], ps[i - 1], cs[i - 1]));
        lemma_step_lists(ms[i - 1], ms[i], ps[i - 1], cs[i - 1], c, x);
        if lists(ms[i - 1], c, x) {
            lemma_run_lists(ms, ps, cs, i - 1, c, x);
        } else {
            assert(ps[i - 1] == c && cs[i - 1] == x);
        }
    }
}

/// A run of steps none of whose parents is `k` leaves `k` as it was.
pub proof fn lemma_run_frame(
    ms: Seq<Map<Seq<char>, LibraryObject>>,
    ps: Seq<Seq<char>>,
    cs: Seq<Seq<char>>,
    k: Seq<char>,
    a: int,
    b: int,
)
    requires
        steps_ok(ms, ps, cs),
        0 <= a <= b < ms.len(),
        ms[a].contains_key(k),
        forall|j: int| a <= j < b ==> #[trigger] ps[j] != k,
    ensures
        ms[b].contains_key(k),
        ms[b][k] == ms[a][k],
    decreases b - a,
{
    if a < b {
        lemma_run_frame(ms, ps, cs, k, a, b - 1);
        assert(step_ok(ms[b - 1], ms[b], ps[b - 1], cs[b - 1]));
        reveal(step_ok);
        assert(ps[b - 1] != k);
    }
}

/// Whether a category lists only containers a find-again map leads to,
/// each once.
pub open spec fn category_ok(d: Map<Seq<char>, String>, m: Map<Seq<char>, LibraryObject>, cat: Seq<char>) -> bool {
    &&& forall|x: Seq<char>| #[trigger] lists(m, cat, x) ==> exists|n: Seq<char>| #[trigger] d.contains_key(n) && d[n]@ == x
    &&& strings_view(m[cat]->Container_0.children@).no_duplicates()
}

/// Whether a find-again map leads different keys to different containers.
pub open spec fn one_to_one(d: Map<Seq<char>, String>) -> bool {
    forall|n1: Seq<char>, n2: Seq<char>|
        #[trigger] d.contains_key(n1) && #[trigger] d.contains_key(n2) && d[n1]@ == d[n2]@ ==> n1 == n2
}

/// Whether each container of the albums view lists only tracks of its
/// (album artist, album).
pub open spec fn view_members(d: Map<Seq<char>, String>, m: Map<Seq<char>, LibraryObject>) -> bool {
    forall|n: Seq<char>, c: Seq<char>|
        #[trigger] d.contains_key(n) && #[trigger] lists(m, d[n]@, c) ==> is_track_at(m, c) && album_key(
            m[c]->Track_0,
        ) == n
}

/// Whether each genre container lists only tracks of its genre.
pub open spec fn genre_members(d: Map<Seq<char>, String>, m: Map<Seq<char>, LibraryObject>) -> bool {
    forall|n: Seq<char>, c: Seq<char>|
        #[trigger] d.contains_key(n) && #[trigger] lists(m, d[n]@, c) ==> is_track_at(m, c) && genre_key(
            m[c]->Track_0,
        ) == Some(n)
}

/// Whether each track is a `t{n}`, sits under the album container of its
/// key and is listed by the albums-view and genre containers of its keys.
pub open spec fn tracks_keyed(
    m: Map<Seq<char>, LibraryObject>,
    albums: Map<Seq<char>, String>,
    views: Map<Seq<char>, String>,
    genres: Map<Seq<char>, String>,
) -> bool {
    forall|k: Seq<char>|
        #[trigger] is_track_at(m, k) ==> {
            let t = m[k]->Track_0;
            &&& crate::library::minted_as(k, "t"@)
            &&& albums.contains_key(album_key(t))
            &&& t.parent_id@ == albums[album_key(t)]@
            &&& views.contains_key(album_key(t))
            &&& lists(m, views[album_key(t)]@, k)
            &&& (genre_key(t) matches Some(g) ==> genres.contains_key(g) && lists(m, genres[g]@, k))
        }
}

/// Whether every key of the find-again maps belongs to a track.
pub open spec fn entries_used(
    m: Map<Seq<char>, LibraryObject>,
    artists: Map<Seq<char>, String>,
    views: Map<Seq<char>, String>,
    genres: Map<Seq<char>, String>,
) -> bool {
    &&& forall|n: Seq<char>|
        #[trigger] artists.contains_key(n) ==> exists|k: Seq<char>|
            #[trigger] is_track_at(m, k) && m[k]->Track_0.meta.album_artist@ == n
    &&& forall|n: Seq<char>|
        #[trigger] views.contains_key(n) ==> exists|k: Seq<char>|
            #[trigger] is_track_at(m, k) && album_key(m[k]->Track_0) == n
    &&& forall|n: Seq<char>|
        #[trigger] genres.contains_key(n) ==> exists|k: Seq<char>|
            #[trigger] is_track_at(m, k) && genre_key(m[k]->Track_0) == Some(n)
}

/// How a catalog being built keeps its groups.
#[verifier::opaque]
pub open spec fn groups_inv(
    m: Map<Seq<char>, LibraryObject>,
    artists: Map<Seq<char>, String>,
    albums: Map<Seq<char>, String>,
    views: Map<Seq<char>, String>,
    genres: Map<Seq<char>, String>,
) -> bool {
    &&& category_ok(artists, m, "vc_artists"@)
    &&& category_ok(views, m, "vc_albums"@)
    &&& category_ok(genres, m, "vc_genres"@)
    &&& one_to_one(views)
    &&& one_to_one(genres)
    &&& view_members(views, m)
    &&& genre_members(genres, m)
    &&& tracks_keyed(m, albums, views, genres)
    &&& entries_used(m, artists, views, genres)
}

/// Whether two tracks share their (album artist, album).
pub open spec fn same_album(m: Map<Seq<char>, LibraryObject>, k1: Seq<char>, k2: Seq<char>) -> bool {
    is_track_at(m, k1) && is_track_at(m, k2) && album_key(m[k1]->Track_0) == album_key(m[k2]->Track_0)
}

/// Whether two tracks share a genre.
pub open spec fn same_genre(m: Map<Seq<char>, LibraryObject>, k1: Seq<char>, k2: Seq<char>) -> bool {
    is_track_at(m, k1) && is_track_at(m, k2) && genre_key(m[k1]->Track_0) is Some && genre_key(m[k1]->Track_0)
        == genre_key(m[k2]->Track_0)
}

/// Whether a container lists at least one track, and only tracks.
pub open spec fn lists_tracks(m: Map<Seq<char>, LibraryObject>, c: Seq<char>) -> bool {
    &&& exists|k: Seq<char>| #[trigger] lists(m, c, k) && is_track_at(m, k)
    &&& forall|k: Seq<char>| #[trigger] lists(m, c, k) ==> is_track_at(m, k)
}

/// How a scanned catalog groups its tracks:
/// - tracks with the same album artist sit under the same artist container,
///   and tracks with the same (album artist, album) in the same album
///   container;
/// - an entry of "Albums" that lists a track lists every track of the same
///   (album artist, album), and no two entries list the same track; the
///   same for "Genres" and genres;
/// - "Artists" lists only containers of tracks' artists (`ar{n}`),
///   "Albums" (`av{n}`) and "Genres" (`gr{n}`) only containers that list
///   tracks, each once;
/// - every track is a `t{n}`.
#[verifier::opaque]
pub open spec fn grouped(m: Map<Seq<char>, LibraryObject>) -> bool {
    &&& forall|k1: Seq<char>, k2: Seq<char>|
        #[trigger] is_track_at(m, k1) && #[trigger] is_track_at(m, k2) && m[k1]->Track_0.meta.album_artist@
            == m[k2]->Track_0.meta.album_artist@ ==> artist_of(m, k1) == artist_of(m, k2)
    &&& forall|k1: Seq<char>, k2: Seq<char>|
        #[trigger] same_album(m, k1, k2) ==> m[k1]->Track_0.parent_id@ == m[k2]->Track_0.parent_id@
    &&& forall|v: Seq<char>, k1: Seq<char>, k2: Seq<char>|
        #![trigger lists(m, v, k1), same_album(m, k1, k2)]
        lists(m, "vc_albums"@, v) && lists(m, v, k1) && same_album(m, k1, k2) ==> lists(m, v, k2)
    &&& forall|v1: Seq<char>, v2: Seq<char>, k: Seq<char>|
        #![trigger lists(m, v1, k), lists(m, v2, k)]
        lists(m, "vc_albums"@, v1) && lists(m, "vc_albums"@, v2) && lists(m, v1, k) && lists(m, v2, k) ==> v1
            == v2
    &&& forall|g: Seq<char>, k1: Seq<char>, k2: Seq<char>|
        #![trigger lists(m, g, k1), same_genre(m, k1, k2)]
        lists(m, "vc_genres"@, g) && lists(m, g, k1) && same_genre(m, k1, k2) ==> lists(m, g, k2)
    &&& forall|g1: Seq<char>, g2: Seq<char>, k: Seq<char>|
        #![trigger lists(m, g1, k), lists(m, g2, k)]
        lists(m, "vc_genres"@, g1) && lists(m, "vc_genres"@, g2) && lists(m, g1, k) && lists(m, g2, k) ==> g1
            == g2
    &&& forall|c: Seq<char>|
        #[trigger] lists(m, "vc_artists"@, c) ==> exists|k: Seq<char>|
            #[trigger] is_track_at(m, k) && artist_of(m, k) == c
    &&& forall|v: Seq<char>| #[trigger] lists(m, "vc_albums"@, v) ==> lists_tracks(m, v)
    &&& forall|g: Seq<char>| #[trigger] lists(m, "vc_genres"@, g) ==> lists_tracks(m, g)
    &&& strings_view(m["vc_artists"@]->Container_0.children@).no_duplicates()
    &&& strings_view(m["vc_albums"@]->Container_0.children@).no_duplicates()
    &&& strings_view(m["vc_genres"@]->Container_0.children@).no_duplicates()
    &&& forall|c: Seq<char>| #[trigger] lists(m, "vc_artists"@, c) ==> minted_as(c, "ar"@)
    &&& forall|v: Seq<char>| #[trigger] lists(m, "vc_albums"@, v) ==> minted_as(v, "av"@)
    &&& forall|g: Seq<char>| #[trigger] lists(m, "vc_genres"@, g) ==> minted_as(g, "gr"@)
    &&& forall|k: Seq<char>| #[trigger] is_track_at(m, k) ==> crate::library::minted_as(k, "t"@)
}

/// The builder's groups give the catalog's grouping.
pub proof fn lemma_grouped(
    m: Map<Seq<char>, LibraryObject>,
    artists: Map<Seq<char>, String>,
    albums: Map<Seq<char>, String>,
    views: Map<Seq<char>, String>,
    genres: Map<Seq<char>, String>,
)
    requires
        groups_inv(m, artists, albums, views, genres),
        crate::library::albums_ok(albums, artists, m),
        forall|n: Seq<char>| #[trigger] artists.contains_key(n) ==> minted_as(artists[n]@, "ar"@),
        forall|n: Seq<char>| #[trigger] views.contains_key(n) ==> minted_as(views[n]@, "av"@),
        forall|n: Seq<char>| #[trigger] genres.contains_key(n) ==> minted_as(genres[n]@, "gr"@),
    ensures
        grouped(m),
{
    reveal(groups_inv);
    reveal(grouped);
    assert forall|k: Seq<char>| #[trigger] is_track_at(m, k) implies artists.contains_key(
        m[k]->Track_0.meta.album_artist@,
    ) && artist_of(m, k) == artists[m[k]->Track_0.meta.album_artist@]@ by {
        let t = m[k]->Track_0;
        assert(albums.contains_key(pair_key(t.meta.album_artist@, t.meta.album@)));
    }
    assert forall|v: Seq<char>, k1: Seq<char>, k2: Seq<char>|
        #![trigger lists(m, v, k1), same_album(m, k1, k2)]
        lists(m, "vc_albums"@, v) && lists(m, v, k1) && same_album(m, k1, k2) implies lists(m, v, k2) by {
        let n = choose|n: Seq<char>| #[trigger] views.contains_key(n) && views[n]@ == v;
        assert(album_key(m[k1]->Track_0) == n);
        assert(is_track_at(m, k2));
    }
    assert forall|v1: Seq<char>, v2: Seq<char>, k: Seq<char>|
        #![trigger lists(m, v1, k), lists(m, v2, k)]
        lists(m, "vc_albums"@, v1) && lists(m, "vc_albums"@, v2) && lists(m, v1, k) && lists(m, v2, k) implies v1
            == v2 by {
        let n1 = choose|n: Seq<char>| #[trigger] views.contains_key(n) && views[n]@ == v1;
        let n2 = choose|n: Seq<char>| #[trigger] views.contains_key(n) && views[n]@ == v2;
        assert(album_key(m[k]->Track_0) == n1);
        assert(album_key(m[k]->Track_0) == n2);
    }
    assert forall|g: Seq<char>, k1: Seq<char>, k2: Seq<char>|
        #![trigger lists(m, g, k1), same_genre(m, k1, k2)]
        lists(m, "vc_genres"@, g) && lists(m, g, k1) && same_genre(m, k1, k2) implies lists(m, g, k2) by {
        let n = choose|n: Seq<char>| #[trigger] genres.contains_key(n) && genres[n]@ == g;
        assert(genre_key(m[k1]->Track_0) == Some(n));
        assert(is_track_at(m, k2));
    }
    assert forall|g1: Seq<char>, g2: Seq<char>, k: Seq<char>|
        #![trigger lists(m, g1, k), lists(m, g2, k)]
        lists(m, "vc_genres"@, g1) && lists(m, "vc_genres"@, g2) && lists(m, g1, k) && lists(m, g2, k) implies g1
            == g2 by {
        let n1 = choose|n: Seq<char>| #[trigger] genres.contains_key(n) && genres[n]@ == g1;
        let n2 = choose|n: Seq<char>| #[trigger] genres.contains_key(n) && genres[n]@ == g2;
        assert(genre_key(m[k]->Track_0) == Some(n1));
        assert(genre_key(m[k]->Track_0) == Some(n2));
    }
    assert forall|c: Seq<char>| #[trigger] lists(m, "vc_artists"@, c) implies exists|k: Seq<char>|
        #[trigger] is_track_at(m, k) && artist_of(m, k) == c by {
        let n = choose|n: Seq<char>| #[trigger] artists.contains_key(n) && artists[n]@ == c;
        let k = choose|k: Seq<char>| #[trigger] is_track_at(m, k) && m[k]->Track_0.meta.album_artist@ == n;
        assert(artist_of(m, k) == c);
    }
    assert forall|v: Seq<char>| #[trigger] lists(m, "vc_albums"@, v) implies lists_tracks(m, v) by {
        let n = choose|n: Seq<char>| #[trigger] views.contains_key(n) && views[n]@ == v;
        let k = choose|k: Seq<char>| #[trigger] is_track_at(m, k) && album_key(m[k]->Track_0) == n;
        assert(lists(m, v, k));
    }
    assert forall|g: Seq<char>| #[trigger] lists(m, "vc_genres"@, g) implies lists_tracks(m, g) by {
        let n = choose|n: Seq<char>| #[trigger] genres.contains_key(n) && genres[n]@ == g;
        let k = choose|k: Seq<char>| #[trigger] is_track_at(m, k) && genre_key(m[k]->Track_0) == Some(n);
        assert(lists(m, g, k));
    }
    assert forall|c: Seq<char>| #[trigger] lists(m, "vc_artists"@, c) implies minted_as(c, "ar"@) by {
        let n = choose|n: Seq<char>| #[trigger] artists.contains_key(n) && artists[n]@ == c;
    }
    assert forall|v: Seq<char>| #[trigger] lists(m, "vc_albums"@, v) implies minted_as(v, "av"@) by {
        let n = choose|n: Seq<char>| #[trigger] views.contains_key(n) && views[n]@ == v;
    }
    assert forall|g: Seq<char>| #[trigger] lists(m, "vc_genres"@, g) implies minted_as(g, "gr"@) by {
        let n = choose|n: Seq<char>| #[trigger] genres.contains_key(n) && genres[n]@ == g;
    }
}

/// After a run of steps where only step `dsg` may touch a category, which
/// then appends the container a map gains, the category still lists only
/// the map's containers, each once.
pub proof fn lemma_category_run(
    ms: Seq<Map<Seq<char>, LibraryObject>>,
    ps: Seq<Seq<char>>,
    cs: Seq<Seq<char>>,
    d0: Map<Seq<char>, String>,
    d8: Map<Seq<char>, String>,
    cat: Seq<char>,
    dsg: int,
    key: Seq<char>,
)
    requires
        steps_ok(ms, ps, cs),
        category_ok(d0, ms[0], cat),
        children_resolve(ms[0]),
        is_container_at(ms[0], cat),
        forall|j: int| 0 <= j < ps.len() && j != dsg ==> #[trigger] ps[j] != cat,
        (dsg == -1 && d8 == d0) || (0 <= dsg < ps.len() && ps[dsg] == cat && d8.contains_key(key) && cs[dsg] == d8[key]@
            && ((d8 == d0 && ms[dsg + 1] == ms[dsg]) || (d8 == d0.insert(key, d8[key]) && !d0.contains_key(key)
            && !ms[0].contains_key(d8[key]@)))),
    ensures
        category_ok(d8, ms[ps.len() as int], cat),
{
    let m0 = ms[0];
    let m8 = ms[ps.len() as int];
    assert forall|x: Seq<char>| #[trigger] lists(m8, cat, x) implies exists|n: Seq<char>|
        #[trigger] d8.contains_key(n) && d8[n]@ == x by {
        lemma_run_lists(ms, ps, cs, ps.len() as int, cat, x);
        if lists(m0, cat, x) {
            let n = choose|n: Seq<char>| #[trigger] d0.contains_key(n) && d0[n]@ == x;
            assert(d8.contains_key(n) && d8[n] == d0[n]);
        } else {
            let j = choose|j: int| 0 <= j < ps.len() && #[trigger] ps[j] == cat && cs[j] == x;
            assert(j == dsg);
            assert(d8.contains_key(key) && d8[key]@ == x);
        }
    }
    let old_kids = m0[cat]->Container_0.children@;
    if dsg == -1 {
        lemma_run_frame(ms, ps, cs, cat, 0, ps.len() as int);
    } else {
        lemma_run_frame(ms, ps, cs, cat, 0, dsg);
        assert(step_ok(ms[dsg], ms[dsg + 1], ps[dsg], cs[dsg]));
        reveal(step_ok);
        let before = ms[dsg][cat];
        let after = ms[dsg + 1][cat];
        if after != before {
            let x = d8[key]@;
            let b = after->Container_0.children@;
            assert(appended(before, after, x));
            assert(b.take(old_kids.len() as int) == old_kids);
            assert(strings_view(b) =~= strings_view(old_kids).push(x));
            assert(!strings_view(old_kids).contains(x)) by {
                if strings_view(old_kids).contains(x) {
                    let i = choose|i: int| 0 <= i < strings_view(old_kids).len() && strings_view(old_kids)[i] == x;
                    assert(old_kids[i]@ == x);
                    assert(m0.contains_key(m0[cat]->Container_0.children@[i]@));
                }
            }
            assert(strings_view(b).no_duplicates()) by {
                let ov = strings_view(old_kids);
                let nv = strings_view(b);
                assert forall|i: int, j: int| 0 <= i < nv.len() && 0 <= j < nv.len() && i != j implies nv[i] != nv[j] by {
                    if i < ov.len() && j < ov.len() {
                        assert(nv[i] == ov[i] && nv[j] == ov[j]);
                    } else if i < ov.len() {
                        assert(nv[i] == ov[i]);
                        assert(ov.contains(ov[i]));
                    } else {
                        assert(nv[j] == ov[j]);
                        assert(ov.contains(ov[j]));
                    }
                }
            }
        }
        lemma_run_frame(ms, ps, cs, cat, dsg + 1, ps.len() as int);
    }
}

/// The ids and literals a step of `add_track` takes as parents: the
/// categories differ from each other and from every id a scan hands out.
proof fn lemma_categories_apart()
    ensures
        "vc_artists"@ != "vc_albums"@,
        "vc_artists"@ != "vc_genres"@,
        "vc_albums"@ != "vc_genres"@,
        fixed_id("vc_artists"@),
        fixed_id("vc_albums"@),
        fixed_id("vc_genres"@),
{
    reveal_strlit("vc_artists");
    reveal_strlit("vc_albums");
    reveal_strlit("vc_genres");
    assert("vc_albums"@[4] != "vc_artists"@[4]);
    assert("vc_genres"@[3] != "vc_artists"@[3] && "vc_genres"@[3] != "vc_albums"@[3]);
}

/// What the steps of `add_track` do, as a run of `step_ok` steps with their
/// parents and children, and the find-again maps before and after them.
pub open spec fn add_ok(
    ms: Seq<Map<Seq<char>, LibraryObject>>,
    ps: Seq<Seq<char>>,
    cs: Seq<Seq<char>>,
    a0: Map<Seq<char>, String>,
    a8: Map<Seq<char>, String>,
    l0: Map<Seq<char>, String>,
    l8: Map<Seq<char>, String>,
    v0: Map<Seq<char>, String>,
    v8: Map<Seq<char>, String>,
    g0: Map<Seq<char>, String>,
    g8: Map<Seq<char>, String>,
    tid: Seq<char>,
) -> bool {
    let m0 = ms[0];
    let m8 = ms[8];
    let t = m8[tid]->Track_0;
    let aa = t.meta.album_artist@;
    let pk = album_key(t);
    &&& steps_ok(ms, ps, cs)
    &&& ms.len() == 9
    &&& groups_inv(m0, a0, l0, v0, g0)
    &&& children_resolve(m0)
    &&& is_container_at(m0, "vc_artists"@)
    &&& is_container_at(m0, "vc_albums"@)
    &&& is_container_at(m0, "vc_genres"@)
    &&& dedup_ok(v0, m0, "av"@)
    &&& dedup_ok(g0, m0, "gr"@)
    &&& grows(m0, m8)
    &&& (forall|k: Seq<char>| #[trigger] is_track_at(m8, k) ==> k == tid || is_track_at(m0, k))
    &&& !m0.contains_key(tid)
    &&& is_track_at(m8, tid)
    &&& minted_as(tid, "t"@)
    &&& a8.contains_key(aa)
    &&& l8.contains_key(pk)
    &&& v8.contains_key(pk)
    &&& t.parent_id@ == l8[pk]@
    &&& lists(m8, v8[pk]@, tid)
    &&& ps[0] == "vc_artists"@
    &&& cs[0] == a8[aa]@
    &&& ((a8 == a0 && ms[1] == ms[0]) || (a8 == a0.insert(aa, a8[aa]) && !a0.contains_key(aa)
        && !m0.contains_key(a8[aa]@)))
    &&& ps[1] == a8[aa]@
    &&& (l8 == l0 || (l8 == l0.insert(pk, l8[pk]) && !l0.contains_key(pk)))
    &&& ps[2] == "vc_albums"@
    &&& cs[2] == v8[pk]@
    &&& ((v8 == v0 && ms[3] == ms[2]) || (v8 == v0.insert(pk, v8[pk]) && !v0.contains_key(pk)
        && !m0.contains_key(v8[pk]@)))
    &&& ps[4] == tid
    &&& ps[5] == l8[pk]@
    &&& ps[6] == v8[pk]@
    &&& cs[6] == tid
    &&& match genre_key(t) {
        None => g8 == g0 && ps[3] == tid && ps[7] == tid,
        Some(g) => {
            &&& g8.contains_key(g)
            &&& lists(m8, g8[g]@, tid)
            &&& ps[3] == "vc_genres"@
            &&& cs[3] == g8[g]@
            &&& ps[7] == g8[g]@
            &&& cs[7] == tid
            &&& ((g8 == g0 && ms[4] == ms[3]) || (g8 == g0.insert(g, g8[g]) && !g0.contains_key(g)
                && !m0.contains_key(g8[g]@)))
        },
    }
    &&& parents_ok(a8, m8, "vc_artists"@)
    &&& parents_ok(v8, m8, "vc_albums"@)
    &&& parents_ok(g8, m8, "vc_genres"@)
    &&& albums_ok(l8, a8, m8)
    &&& dedup_ok(a8, m8, "ar"@)
    &&& dedup_ok(l8, m8, "aa"@)
    &&& dedup_ok(v8, m8, "av"@)
    &&& dedup_ok(g8, m8, "gr"@)
}

/// The ids the steps of `add_track` take as parents are no fixed ids, but
/// for the categories; an album's container sits under its artist's.
proof fn lemma_add_ids(
    ms: Seq<Map<Seq<char>, LibraryObject>>,
    ps: Seq<Seq<char>>,
    cs: Seq<Seq<char>>,
    a0: Map<Seq<char>, String>,
    a8: Map<Seq<char>, String>,
    l0: Map<Seq<char>, String>,
    l8: Map<Seq<char>, String>,
    v0: Map<Seq<char>, String>,
    v8: Map<Seq<char>, String>,
    g0: Map<Seq<char>, String>,
    g8: Map<Seq<char>, String>,
    tid: Seq<char>,
)
    requires
        add_ok(ms, ps, cs, a0, a8, l0, l8, v0, v8, g0, g8, tid),
    ensures
        ({
            let t = ms[8][tid]->Track_0;
            let aa = t.meta.album_artist@;
            let pk = album_key(t);
            &&& !fixed_id(tid)
            &&& !fixed_id(a8[aa]@)
            &&& !fixed_id(l8[pk]@)
            &&& !fixed_id(v8[pk]@)
            &&& (genre_key(t) matches Some(g) ==> !fixed_id(g8[g]@))
            &&& ms[8][l8[pk]@]->Container_0.parent_id@ == a8[aa]@
            &&& forall|n: Seq<char>| #[trigger] v8.contains_key(n) ==> !fixed_id(v8[n]@)
            &&& forall|n: Seq<char>| #[trigger] g8.contains_key(n) ==> !fixed_id(g8[n]@)
        }),
        "vc_artists"@ != "vc_albums"@,
        "vc_artists"@ != "vc_genres"@,
        "vc_albums"@ != "vc_genres"@,
        fixed_id("vc_artists"@),
        fixed_id("vc_albums"@),
        fixed_id("vc_genres"@),
{
    let t = ms[8][tid]->Track_0;
    let aa = t.meta.album_artist@;
    let al = t.meta.album@;
    let pk = album_key(t);
    lemma_categories_apart();
    lemma_known_prefixes();
    lemma_minted_as_not_fixed(tid, "t"@);
    lemma_minted_as_not_fixed(a8[aa]@, "ar"@);
    lemma_minted_as_not_fixed(l8[pk]@, "aa"@);
    lemma_minted_as_not_fixed(v8[pk]@, "av"@);
    assert(l8.contains_key(pair_key(aa, al)));
    if genre_key(t) is Some {
        lemma_minted_as_not_fixed(g8[genre_key(t)->0]@, "gr"@);
    }
    assert forall|n: Seq<char>| #[trigger] v8.contains_key(n) implies !fixed_id(v8[n]@) by {
        lemma_minted_as_not_fixed(v8[n]@, "av"@);
    }
    assert forall|n: Seq<char>| #[trigger] g8.contains_key(n) implies !fixed_id(g8[n]@) by {
        lemma_minted_as_not_fixed(g8[n]@, "gr"@);
    }
}

/// Adding one track keeps the categories and the one-to-one maps.
#[verifier::spinoff_prover]
#[verifier::rlimit(100)]
proof fn lemma_add_categories(
    ms: Seq<Map<Seq<char>, LibraryObject>>,
    ps: Seq<Seq<char>>,
    cs: Seq<Seq<char>>,
    a0: Map<Seq<char>, String>,
    a8: Map<Seq<char>, String>,
    l0: Map<Seq<char>, String>,
    l8: Map<Seq<char>, String>,
    v0: Map<Seq<char>, String>,
    v8: Map<Seq<char>, String>,
    g0: Map<Seq<char>, String>,
    g8: Map<Seq<char>, String>,
    tid: Seq<char>,
)
    requires
        add_ok(ms, ps, cs, a0, a8, l0, l8, v0, v8, g0, g8, tid),
    ensures
        category_ok(a8, ms[8], "vc_artists"@),
        category_ok(v8, ms[8], "vc_albums"@),
        category_ok(g8, ms[8], "vc_genres"@),
        one_to_one(v8),
        one_to_one(g8),
{
    reveal(groups_inv);
    let m0 = ms[0];
    let t = ms[8][tid]->Track_0;
    let aa = t.meta.album_artist@;
    let pk = album_key(t);
    let gk = genre_key(t);
    lemma_add_ids(ms, ps, cs, a0, a8, l0, l8, v0, v8, g0, g8, tid);
    assert forall|j: int| 0 <= j < 8 && j != 0 implies #[trigger] ps[j] != "vc_artists"@ by {}
    lemma_category_run(ms, ps, cs, a0, a8, "vc_artists"@, 0, aa);
    assert forall|j: int| 0 <= j < 8 && j != 2 implies #[trigger] ps[j] != "vc_albums"@ by {}
    lemma_category_run(ms, ps, cs, v0, v8, "vc_albums"@, 2, pk);
    if gk is Some {
        assert forall|j: int| 0 <= j < 8 && j != 3 implies #[trigger] ps[j] != "vc_genres"@ by {}
        lemma_category_run(ms, ps, cs, g0, g8, "vc_genres"@, 3, gk->0);
    } else {
        assert forall|j: int| 0 <= j < 8 && j != -1 implies #[trigger] ps[j] != "vc_genres"@ by {}
        lemma_category_run(ms, ps, cs, g0, g8, "vc_genres"@, -1, Seq::empty());
    }
    assert forall|n1: Seq<char>, n2: Seq<char>|
        #[trigger] v8.contains_key(n1) && #[trigger] v8.contains_key(n2) && v8[n1]@ == v8[n2]@ implies n1 == n2 by {
        if v0.contains_key(n1) && v0.contains_key(n2) {
            assert(v8[n1] == v0[n1] && v8[n2] == v0[n2]);
        } else if v0.contains_key(n1) {
            assert(is_container_at(m0, v0[n1]@));
        } else if v0.contains_key(n2) {
            assert(is_container_at(m0, v0[n2]@));
        }
    }
    assert forall|n1: Seq<char>, n2: Seq<char>|
        #[trigger] g8.contains_key(n1) && #[trigger] g8.contains_key(n2) && g8[n1]@ == g8[n2]@ implies n1 == n2 by {
        if g0.contains_key(n1) && g0.contains_key(n2) {
            assert(g8[n1] == g0[n1] && g8[n2] == g0[n2]);
        } else if g0.contains_key(n1) {
            assert(is_container_at(m0, g0[n1]@));
        } else if g0.contains_key(n2) {
            assert(is_container_at(m0, g0[n2]@));
        }
    }
}

/// Adding one track keeps each container of the albums view listing only
/// tracks of its (album artist, album).
#[verifier::spinoff_prover]
#[verifier::rlimit(100)]
proof fn lemma_add_view_members(
    ms: Seq<Map<Seq<char>, LibraryObject>>,
    ps: Seq<Seq<char>>,
    cs: Seq<Seq<char>>,
    a0: Map<Seq<char>, String>,
    a8: Map<Seq<char>, String>,
    l0: Map<Seq<char>, String>,
    l8: Map<Seq<char>, String>,
    v0: Map<Seq<char>, String>,
    v8: Map<Seq<char>, String>,
    g0: Map<Seq<char>, String>,
    g8: Map<Seq<char>, String>,
    tid: Seq<char>,
)
    requires
        add_ok(ms, ps, cs, a0, a8, l0, l8, v0, v8, g0, g8, tid),
        one_to_one(v8),
    ensures
        view_members(v8, ms[8]),
{
    reveal(groups_inv);
    let m0 = ms[0];
    let m8 = ms[8];
    let t = m8[tid]->Track_0;
    let aa = t.meta.album_artist@;
    let pk = album_key(t);
    let gk = genre_key(t);
    lemma_add_ids(ms, ps, cs, a0, a8, l0, l8, v0, v8, g0, g8, tid);
    assert forall|n: Seq<char>, c: Seq<char>|
        #[trigger] v8.contains_key(n) && #[trigger] lists(m8, v8[n]@, c) implies is_track_at(m8, c) && album_key(
            m8[c]->Track_0,
        ) == n by {
        let v = v8[n]@;
        lemma_run_lists(ms, ps, cs, 8, v, c);
        if lists(m0, v, c) {
            if v0.contains_key(n) {
                assert(v8[n] == v0[n]);
                assert(is_track_at(m0, c));
                assert(m8[c] == m0[c]);
            } else {
                assert(!m0.contains_key(v));
            }
        } else {
            let j = choose|j: int| 0 <= j < 8 && #[trigger] ps[j] == v && cs[j] == c;
            if j == 1 {
                assert(m8[a8[aa]@]->Container_0.parent_id@ == "vc_artists"@);
            } else if j == 5 {
                assert(m8[v]->Container_0.parent_id@ == "vc_albums"@);
            } else if j == 7 && gk is Some {
                assert(m8[g8[gk->0]@]->Container_0.parent_id@ == "vc_genres"@);
            } else if j == 6 {
                assert(v8[pk]@ == v);
            }
        }
    }
}

/// Adding one track keeps each genre container listing only tracks of its
/// genre.
#[verifier::spinoff_prover]
#[verifier::rlimit(100)]
proof fn lemma_add_genre_members(
    ms: Seq<Map<Seq<char>, LibraryObject>>,
    ps: Seq<Seq<char>>,
    cs: Seq<Seq<char>>,
    a0: Map<Seq<char>, String>,
    a8: Map<Seq<char>, String>,
    l0: Map<Seq<char>, String>,
    l8: Map<Seq<char>, String>,
    v0: Map<Seq<char>, String>,
    v8: Map<Seq<char>, String>,
    g0: Map<Seq<char>, String>,
    g8: Map<Seq<char>, String>,
    tid: Seq<char>,
)
    requires
        add_ok(ms, ps, cs, a0, a8, l0, l8, v0, v8, g0, g8, tid),
        one_to_one(g8),
    ensures
        genre_members(g8, ms[8]),
{
    reveal(groups_inv);
    let m0 = ms[0];
    let m8 = ms[8];
    let t = m8[tid]->Track_0;
    let aa = t.meta.album_artist@;
    let pk = album_key(t);
    let gk = genre_key(t);
    lemma_add_ids(ms, ps, cs, a0, a8, l0, l8, v0, v8, g0, g8, tid);
    assert forall|n: Seq<char>, c: Seq<char>|
        #[trigger] g8.contains_key(n) && #[trigger] lists(m8, g8[n]@, c) implies is_track_at(m8, c) && genre_key(
            m8[c]->Track_0,
        ) == Some(n) by {
        let v = g8[n]@;
        lemma_run_lists(ms, ps, cs, 8, v, c);
        if lists(m0, v, c) {
            if g0.contains_key(n) {
                assert(g8[n] == g0[n]);
                assert(is_track_at(m0, c));
                assert(m8[c] == m0[c]);
            } else {
                assert(!m0.contains_key(v));
            }
        } else {
            let j = choose|j: int| 0 <= j < 8 && #[trigger] ps[j] == v && cs[j] == c;
            if j == 1 {
                assert(m8[a8[aa]@]->Container_0.parent_id@ == "vc_artists"@);
            } else if j == 5 {
                assert(m8[v]->Container_0.parent_id@ == "vc_genres"@);
            } else if j == 6 {
                assert(m8[v8[pk]@]->Container_0.parent_id@ == "vc_albums"@);
            } else if j == 7 {
                assert(g8[gk->0]@ == v);
            }
        }
    }
}

/// Adding one track keeps every track keyed and every key used.
#[verifier::spinoff_prover]
#[verifier::rlimit(100)]
proof fn lemma_add_keys(
    ms: Seq<Map<Seq<char>, LibraryObject>>,
    ps: Seq<Seq<char>>,
    cs: Seq<Seq<char>>,
    a0: Map<Seq<char>, String>,
    a8: Map<Seq<char>, String>,
    l0: Map<Seq<char>, String>,
    l8: Map<Seq<char>, String>,
    v0: Map<Seq<char>, String>,
    v8: Map<Seq<char>, String>,
    g0: Map<Seq<char>, String>,
    g8: Map<Seq<char>, String>,
    tid: Seq<char>,
)
    requires
        add_ok(ms, ps, cs, a0, a8, l0, l8, v0, v8, g0, g8, tid),
    ensures
        tracks_keyed(ms[8], l8, v8, g8),
{
    reveal(groups_inv);
    let m0 = ms[0];
    let m8 = ms[8];
    assert forall|k: Seq<char>| #[trigger] is_track_at(m8, k) implies {
        let u = m8[k]->Track_0;
        &&& minted_as(k, "t"@)
        &&& l8.contains_key(album_key(u))
        &&& u.parent_id@ == l8[album_key(u)]@
        &&& v8.contains_key(album_key(u))
        &&& lists(m8, v8[album_key(u)]@, k)
        &&& (genre_key(u) matches Some(g) ==> g8.contains_key(g) && lists(m8, g8[g]@, k))
    } by {
        if k != tid {
            assert(is_track_at(m0, k));
            assert(m8[k] == m0[k]);
            let u = m0[k]->Track_0;
            assert(l8[album_key(u)] == l0[album_key(u)]);
            assert(v8[album_key(u)] == v0[album_key(u)]);
            lemma_lists_grows(m0, m8, v0[album_key(u)]@, k);
            if genre_key(u) is Some {
                let g = genre_key(u)->0;
                assert(g8[g] == g0[g]);
                lemma_lists_grows(m0, m8, g0[g]@, k);
            }
        }
    }
}

/// Adding one track keeps every key used.
#[verifier::spinoff_prover]
#[verifier::rlimit(100)]
proof fn lemma_add_used(
    ms: Seq<Map<Seq<char>, LibraryObject>>,
    ps: Seq<Seq<char>>,
    cs: Seq<Seq<char>>,
    a0: Map<Seq<char>, String>,
    a8: Map<Seq<char>, String>,
    l0: Map<Seq<char>, String>,
    l8: Map<Seq<char>, String>,
    v0: Map<Seq<char>, String>,
    v8: Map<Seq<char>, String>,
    g0: Map<Seq<char>, String>,
    g8: Map<Seq<char>, String>,
    tid: Seq<char>,
)
    requires
        add_ok(ms, ps, cs, a0, a8, l0, l8, v0, v8, g0, g8, tid),
    ensures
        entries_used(ms[8], a8, v8, g8),
{
    reveal(groups_inv);
    let m0 = ms[0];
    let m8 = ms[8];
    let t = m8[tid]->Track_0;
    let aa = t.meta.album_artist@;
    let pk = album_key(t);
    assert forall|n: Seq<char>| #[trigger] a8.contains_key(n) implies exists|k: Seq<char>|
        #[trigger] is_track_at(m8, k) && m8[k]->Track_0.meta.album_artist@ == n by {
        if a0.contains_key(n) {
            let k = choose|k: Seq<char>| #[trigger] is_track_at(m0, k) && m0[k]->Track_0.meta.album_artist@ == n;
            assert(m8[k] == m0[k]);
            assert(is_track_at(m8, k));
        } else {
            assert(n == aa);
            assert(is_track_at(m8, tid) && m8[tid]->Track_0.meta.album_artist@ == n);
        }
    }
    assert forall|n: Seq<char>| #[trigger] v8.contains_key(n) implies exists|k: Seq<char>|
        #[trigger] is_track_at(m8, k) && album_key(m8[k]->Track_0) == n by {
        if v0.contains_key(n) {
            let k = choose|k: Seq<char>| #[trigger] is_track_at(m0, k) && album_key(m0[k]->Track_0) == n;
            assert(m8[k] == m0[k]);
            assert(is_track_at(m8, k));
        } else {
            assert(n == pk);
            assert(is_track_at(m8, tid) && album_key(m8[tid]->Track_0) == n);
        }
    }
    assert forall|n: Seq<char>| #[trigger] g8.contains_key(n) implies exists|k: Seq<char>|
        #[trigger] is_track_at(m8, k) && genre_key(m8[k]->Track_0) == Some(n) by {
        if g0.contains_key(n) {
            let k = choose|k: Seq<char>| #[trigger] is_track_at(m0, k) && genre_key(m0[k]->Track_0) == Some(n);
            assert(m8[k] == m0[k]);
            assert(is_track_at(m8, k));
        } else {
            assert(genre_key(t) is Some);
            assert(n == genre_key(t)->0);
            assert(is_track_at(m8, tid) && genre_key(m8[tid]->Track_0) == Some(n));
        }
    }
}

/// Adding one track keeps the catalog's groups.
pub proof fn lemma_groups_add(
    ms: Seq<Map<Seq<char>, LibraryObject>>,
    ps: Seq<Seq<char>>,
    cs: Seq<Seq<char>>,
    a0: Map<Seq<char>, String>,
    a8: Map<Seq<char>, String>,
    l0: Map<Seq<char>, String>,
    l8: Map<Seq<char>, String>,
    v0: Map<Seq<char>, String>,
    v8: Map<Seq<char>, String>,
    g0: Map<Seq<char>, String>,
    g8: Map<Seq<char>, String>,
    tid: Seq<char>,
)
    requires
        add_ok(ms, ps, cs, a0, a8, l0, l8, v0, v8, g0, g8, tid),
    ensures
        groups_inv(ms[8], a8, l8, v8, g8),
{
    reveal(groups_inv);
    lemma_add_categories(ms, ps, cs, a0, a8, l0, l8, v0, v8, g0, g8, tid);
    lemma_add_view_members(ms, ps, cs, a0, a8, l0, l8, v0, v8, g0, g8, tid);
    lemma_add_genre_members(ms, ps, cs, a0, a8, l0, l8, v0, v8, g0, g8, tid);
    lemma_add_keys(ms, ps, cs, a0, a8, l0, l8, v0, v8, g0, g8, tid);
    lemma_add_used(ms, ps, cs, a0, a8, l0, l8, v0, v8, g0, g8, tid);
}

/// A container away from "All Tracks" lists the same when only "All
/// Tracks" changes.
proof fn lemma_lists_apart_all(m: Map<Seq<char>, LibraryObject>, ls: Map<Seq<char>, LibraryObject>, c: Seq<char>)
    requires
        c != "vc_all"@,
        ls.dom() == m.dom(),
        forall|x: Seq<char>| x != "vc_all"@ && #[trigger] m.contains_key(x) ==> ls[x] == m[x],
    ensures
        forall|x: Seq<char>| #[trigger] lists(ls, c, x) == lists(m, c, x),
{
    if m.contains_key(c) {
        assert(ls[c] == m[c]);
    }
}

/// The albums under each artist stay in place when only "All Tracks"
/// changes.
proof fn lemma_albums_apart(
    m: Map<Seq<char>, LibraryObject>,
    ls: Map<Seq<char>, LibraryObject>,
    artists: Map<Seq<char>, String>,
    albums: Map<Seq<char>, String>,
)
    requires
        albums_ok(albums, artists, m),
        dedup_ok(artists, m, "ar"@),
        dedup_ok(albums, m, "aa"@),
        ls.dom() == m.dom(),
        forall|x: Seq<char>| x != "vc_all"@ && #[trigger] m.contains_key(x) ==> ls[x] == m[x],
    ensures
        albums_ok(albums, artists, ls),
{
    lemma_known_prefixes();
    assert forall|a: Seq<char>, b: Seq<char>| #[trigger] albums.contains_key(pair_key(a, b)) implies artists.contains_key(
        a,
    ) && crate::library::named_under(ls, albums[pair_key(a, b)]@, artists[a]@, b) by {
        lemma_minted_as_not_fixed(artists[a]@, "ar"@);
        let id = albums[pair_key(a, b)]@;
        lemma_minted_as_not_fixed(id, "aa"@);
        lemma_named_apart(m, ls, id, artists[a]@, b);
    }
}

/// A category away from "All Tracks" keeps its listing and its entries'
/// listings when only "All Tracks" changes.
proof fn lemma_category_apart(
    m: Map<Seq<char>, LibraryObject>,
    ls: Map<Seq<char>, LibraryObject>,
    d: Map<Seq<char>, String>,
    cat: Seq<char>,
    prefix: Seq<char>,
)
    requires
        category_ok(d, m, cat),
        dedup_ok(d, m, prefix),
        cat != "vc_all"@,
        prefix == "ar"@ || prefix == "av"@ || prefix == "gr"@,
        m.contains_key(cat),
        ls.dom() == m.dom(),
        forall|x: Seq<char>| x != "vc_all"@ && #[trigger] m.contains_key(x) ==> ls[x] == m[x],
    ensures
        category_ok(d, ls, cat),
        forall|n: Seq<char>, x: Seq<char>| #[trigger] d.contains_key(n) ==> #[trigger] lists(ls, d[n]@, x) == lists(m, d[n]@, x),
{
    lemma_known_prefixes();
    lemma_lists_apart_all(m, ls, cat);
    assert(ls[cat] == m[cat]);
    assert forall|n: Seq<char>, x: Seq<char>| #[trigger] d.contains_key(n) implies #[trigger] lists(ls, d[n]@, x) == lists(m, d[n]@, x) by {
        lemma_minted_as_not_fixed(d[n]@, prefix);
        lemma_lists_apart_all(m, ls, d[n]@);
    }
}

/// Tracks and the entries' listings that stay the same keep the members and
/// keys of the groups.
proof fn lemma_members_apart(
    m: Map<Seq<char>, LibraryObject>,
    ls: Map<Seq<char>, LibraryObject>,
    artists: Map<Seq<char>, String>,
    albums: Map<Seq<char>, String>,
    views: Map<Seq<char>, String>,
    genres: Map<Seq<char>, String>,
)
    requires
        view_members(views, m),
        genre_members(genres, m),
        tracks_keyed(m, albums, views, genres),
        entries_used(m, artists, views, genres),
        forall|k: Seq<char>| #[trigger] is_track_at(ls, k) == is_track_at(m, k),
        forall|k: Seq<char>| #[trigger] is_track_at(ls, k) ==> ls[k] == m[k],
        forall|n: Seq<char>, x: Seq<char>| #[trigger] views.contains_key(n) ==> #[trigger] lists(ls, views[n]@, x) == lists(m, views[n]@, x),
        forall|n: Seq<char>, x: Seq<char>| #[trigger] genres.contains_key(n) ==> #[trigger] lists(ls, genres[n]@, x) == lists(m, genres[n]@, x),
    ensures
        view_members(views, ls),
        genre_members(genres, ls),
        tracks_keyed(ls, albums, views, genres),
        entries_used(ls, artists, views, genres),
{
    assert forall|k: Seq<char>| #[trigger] is_track_at(ls, k) implies {
        let t = ls[k]->Track_0;
        &&& crate::library::minted_as(k, "t"@)
        &&& albums.contains_key(album_key(t))
        &&& t.parent_id@ == albums[album_key(t)]@
        &&& views.contains_key(album_key(t))
        &&& lists(ls, views[album_key(t)]@, k)
        &&& (genre_key(t) matches Some(g) ==> genres.contains_key(g) && lists(ls, genres[g]@, k))
    } by {
        assert(is_track_at(m, k));
        let t = m[k]->Track_0;
        assert(lists(m, views[album_key(t)]@, k));
        if let Some(g) = genre_key(t) {
            assert(lists(m, genres[g]@, k));
        }
    }
    assert forall|n: Seq<char>| #[trigger] artists.contains_key(n) implies exists|k: Seq<char>|
        #[trigger] is_track_at(ls, k) && ls[k]->Track_0.meta.album_artist@ == n by {
        let k = choose|k: Seq<char>| #[trigger] is_track_at(m, k) && m[k]->Track_0.meta.album_artist@ == n;
        assert(is_track_at(ls, k));
    }
    assert forall|n: Seq<char>| #[trigger] views.contains_key(n) implies exists|k: Seq<char>|
        #[trigger] is_track_at(ls, k) && album_key(ls[k]->Track_0) == n by {
        let k = choose|k: Seq<char>| #[trigger] is_track_at(m, k) && album_key(m[k]->Track_0) == n;
        assert(is_track_at(ls, k));
    }
    assert forall|n: Seq<char>| #[trigger] genres.contains_key(n) implies exists|k: Seq<char>|
        #[trigger] is_track_at(ls, k) && genre_key(ls[k]->Track_0) == Some(n) by {
        let k = choose|k: Seq<char>| #[trigger] is_track_at(m, k) && genre_key(m[k]->Track_0) == Some(n);
        assert(is_track_at(ls, k));
    }
    assert forall|n: Seq<char>, c: Seq<char>|
        #[trigger] views.contains_key(n) && #[trigger] lists(ls, views[n]@, c) implies is_track_at(ls, c) && album_key(
            ls[c]->Track_0,
        ) == n by {
        assert(lists(m, views[n]@, c));
    }
    assert forall|n: Seq<char>, c: Seq<char>|
        #[trigger] genres.contains_key(n) && #[trigger] lists(ls, genres[n]@, c) implies is_track_at(ls, c) && genre_key(
            ls[c]->Track_0,
        ) == Some(n) by {
        assert(lists(m, genres[n]@, c));
    }
}

/// Changing the children of "All Tracks" alone keeps the groups.
#[verifier::spinoff_prover]
#[verifier::rlimit(100)]
pub proof fn lemma_groups_apart(
    m: Map<Seq<char>, LibraryObject>,
    ls: Map<Seq<char>, LibraryObject>,
    artists: Map<Seq<char>, String>,
    albums: Map<Seq<char>, String>,
    views: Map<Seq<char>, String>,
    genres: Map<Seq<char>, String>,
)
    requires
        groups_inv(m, artists, albums, views, genres),
        albums_ok(albums, artists, m),
        dedup_ok(artists, m, "ar"@),
        dedup_ok(albums, m, "aa"@),
        dedup_ok(views, m, "av"@),
        dedup_ok(genres, m, "gr"@),
        is_container_at(m, "vc_all"@),
        is_container_at(m, "vc_artists"@),
        is_container_at(m, "vc_albums"@),
        is_container_at(m, "vc_genres"@),
        is_container_at(ls, "vc_all"@),
        ls.dom() == m.dom(),
        forall|x: Seq<char>| x != "vc_all"@ && #[trigger] m.contains_key(x) ==> ls[x] == m[x],
    ensures
        groups_inv(ls, artists, albums, views, genres),
        albums_ok(albums, artists, ls),
        grouped(ls),
{
    reveal(groups_inv);
    reveal_strlit("vc_all");
    reveal_strlit("vc_artists");
    reveal_strlit("vc_albums");
    reveal_strlit("vc_genres");
    assert("vc_all"@.len() == 6 && "vc_artists"@.len() == 10 && "vc_albums"@.len() == 9 && "vc_genres"@.len() == 9);
    lemma_albums_apart(m, ls, artists, albums);
    assert forall|k: Seq<char>| #[trigger] is_track_at(ls, k) == is_track_at(m, k) by {
        if k != "vc_all"@ && m.contains_key(k) {
            assert(ls[k] == m[k]);
        }
    }
    assert forall|k: Seq<char>| #[trigger] is_track_at(ls, k) implies ls[k] == m[k] by {
        assert(k != "vc_all"@);
    }
    lemma_category_apart(m, ls, artists, "vc_artists"@, "ar"@);
    lemma_category_apart(m, ls, views, "vc_albums"@, "av"@);
    lemma_category_apart(m, ls, genres, "vc_genres"@, "gr"@);
    lemma_members_apart(m, ls, artists, albums, views, genres);
    lemma_grouped(ls, artists, albums, views, genres);
}

} // verus!
