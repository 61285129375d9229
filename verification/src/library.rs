//! The browsable music catalog of the control plane.
//!
//! Tree structure:
//!   Root ("0")
//!   ├── Artists (vc_artists) → Artist → Album → Track
//!   ├── Albums (vc_albums) → Album → Track
//!   ├── Genres (vc_genres) → Genre → Track
//!   └── All Tracks (vc_all) → Track
//!
//! A track is stored once, under its artist's album, and listed again in its
//! album of the albums view, its genre and the list of all tracks.

use vstd::prelude::*;

use vstd::hash_map::StringHashMap;

use crate::grouping::{
    grouped, groups_inv, lemma_child_step, lemma_found_step, lemma_groups_add, lemma_groups_apart,
    lemma_insert_step, lemma_same_step, step_ok,
};
use crate::media::{
    appended, children_spec, has_track_for, is_container_at, is_track_at, object_id, Container,
    LibraryObject, ObjectStore, Track, TrackMetadata,
};
use crate::text::{
    all_digits, contains_substring, decimal, decimal_string, digits_value, has_substring, is_digit,
    lemma_decimal_digits, lowercase, push_char, push_str, str_eq, to_lower,
};

verus! {

broadcast use vstd::seq_lib::group_seq_properties;

/// The id of the root container.
pub const ROOT_ID: &'static str = "0";

/// The id of the artists category.
pub const VC_ARTISTS: &'static str = "vc_artists";

/// The id of the albums category.
pub const VC_ALBUMS: &'static str = "vc_albums";

/// The id of the genres category.
pub const VC_GENRES: &'static str = "vc_genres";

/// The id of the list of all tracks.
pub const VC_ALL: &'static str = "vc_all";

/// The id of the search entry of the browse menu.
pub const VC_SEARCH: &'static str = "vc_search";

/// The abstract state of a catalog.
pub struct LibraryView {
    pub objects: Map<Seq<char>, LibraryObject>,
    pub all_track_ids: Seq<Seq<char>>,
    pub total_tracks: nat,
}

/// The in-memory media library.
pub struct Library {
    store: ObjectStore,
    all_track_ids: Vec<String>,
    total_tracks: u32,
}

/// The views of a list of strings.
pub open spec fn strings_view(v: Seq<String>) -> Seq<Seq<char>> {
    v.map_values(|s: String| s@)
}

impl View for Library {
    type V = LibraryView;

    closed spec fn view(&self) -> LibraryView {
        LibraryView {
            objects: self.store@,
            all_track_ids: strings_view(self.all_track_ids@),
            total_tracks: self.total_tracks as nat,
        }
    }
}

/// Whether every container's count is the length of its child list.
pub open spec fn counts_consistent(m: Map<Seq<char>, LibraryObject>) -> bool {
    forall|k: Seq<char>|
        #[trigger] m.contains_key(k) && m[k] is Container ==> m[k]->Container_0.child_count
            == m[k]->Container_0.children@.len()
}

/// Whether every child a container lists was stored after the container
/// (so that no container lies below itself).
pub open spec fn children_later(m: Map<Seq<char>, LibraryObject>, rank: Map<Seq<char>, nat>) -> bool {
    forall|k: Seq<char>, j: int|
        #![trigger m[k]->Container_0.children@[j]]
        is_container_at(m, k) && 0 <= j < m[k]->Container_0.children@.len() && m.contains_key(
            m[k]->Container_0.children@[j]@,
        ) ==> rank[m[k]->Container_0.children@[j]@] > rank[k]
}

/// Whether the categories come first: "All Tracks" has rank 4 and every
/// id that is not fixed comes after the fixed ones.
pub open spec fn rank_floor(m: Map<Seq<char>, LibraryObject>, rank: Map<Seq<char>, nat>) -> bool {
    &&& rank.contains_key("vc_all"@)
    &&& rank["vc_all"@] == 4
    &&& m.contains_key("vc_all"@)
    &&& forall|x: Seq<char>| #[trigger] m.contains_key(x) && !fixed_id(x) ==> rank[x] >= 5
}

/// Storing a new id after all others keeps the categories first.
pub(crate) proof fn lemma_floor_insert(
    m: Map<Seq<char>, LibraryObject>,
    rank: Map<Seq<char>, nat>,
    k: Seq<char>,
    obj: LibraryObject,
    n: nat,
)
    requires
        rank_floor(m, rank),
        !m.contains_key(k),
        forall|x: Seq<char>| #[trigger] m.contains_key(x) ==> rank.contains_key(x) && rank[x] < n,
    ensures
        rank_floor(m.insert(k, obj), rank.insert(k, n)),
{
    assert(rank["vc_all"@] < n);
}

/// The tracks below a container, depth first in child order, from its
/// `j`-th child on: a track child is listed, a container child is walked.
/// Ids that name nothing are skipped, and so is a child that was not stored
/// after its container (the catalog holds none).
pub open spec fn tracks_from(
    m: Map<Seq<char>, LibraryObject>,
    rank: Map<Seq<char>, nat>,
    id: Seq<char>,
    j: int,
) -> Seq<(Seq<char>, Seq<char>)>
    decreases
            (if rank.contains_key(id) && rank[id] < m.len() {
                (m.len() - rank[id]) as nat
            } else {
                0nat
            }),
            (if is_container_at(m, id) && 0 <= j < m[id]->Container_0.children@.len() {
                (m[id]->Container_0.children@.len() - j) as nat
            } else {
                0nat
            }),
{
    if !is_container_at(m, id) || j < 0 || j >= m[id]->Container_0.children@.len() {
        Seq::empty()
    } else {
        let c = m[id]->Container_0.children@[j]@;
        let here: Seq<(Seq<char>, Seq<char>)> = if !m.contains_key(c) {
            Seq::empty()
        } else if m[c] is Track {
            seq![(m[c]->Track_0.id@, m[c]->Track_0.path@)]
        } else if rank.contains_key(c) && rank.contains_key(id) && rank[id] < rank[c] && rank[c] < m.len() {
            tracks_from(m, rank, c, 0)
        } else {
            Seq::empty()
        };
        here + tracks_from(m, rank, id, j + 1)
    }
}

/// The ids of listed tracks.
pub open spec fn entry_ids(v: Seq<(Seq<char>, Seq<char>)>) -> Seq<Seq<char>> {
    v.map_values(|p: (Seq<char>, Seq<char>)| p.0)
}

/// The view of a list of (id, path) pairs.
pub open spec fn entries_view(v: Seq<(String, String)>) -> Seq<(Seq<char>, Seq<char>)> {
    v.map_values(|p: (String, String)| (p.0@, p.1@))
}

/// Whether a container with these fields is stored under `id`.
pub open spec fn container_fields(
    m: Map<Seq<char>, LibraryObject>,
    id: Seq<char>,
    parent: Seq<char>,
    title: Seq<char>,
    class: Seq<char>,
) -> bool {
    &&& is_container_at(m, id)
    &&& m[id]->Container_0.id@ == id
    &&& m[id]->Container_0.parent_id@ == parent
    &&& m[id]->Container_0.title@ == title
    &&& m[id]->Container_0.upnp_class@ == class
}

/// The ids the root lists, in order: the browse menu.
pub open spec fn menu_ids() -> Seq<Seq<char>> {
    seq!["vc_artists"@, "vc_albums"@, "vc_genres"@, "vc_all"@, "vc_search"@]
}

/// Whether the root and the five entries of its browse menu are in place:
/// the root (parent `-1`) lists Artists, Albums, Genres, All Tracks and
/// Search, each a container under the root.
pub open spec fn menu_in_place(m: Map<Seq<char>, LibraryObject>) -> bool {
    &&& container_fields(m, "0"@, "-1"@, "Root"@, "object.container"@)
    &&& strings_view(m["0"@]->Container_0.children@) == menu_ids()
    &&& m["0"@]->Container_0.child_count == 5
    &&& container_fields(m, "vc_artists"@, "0"@, "Artists"@, "object.container"@)
    &&& container_fields(m, "vc_albums"@, "0"@, "Albums"@, "object.container"@)
    &&& container_fields(m, "vc_genres"@, "0"@, "Genres"@, "object.container"@)
    &&& container_fields(m, "vc_all"@, "0"@, "All Tracks"@, "object.container"@)
    &&& container_fields(m, "vc_search"@, "0"@, "Search"@, "object.container"@)
}

/// The catalog as it starts: the root and the five entries of its menu, all
/// empty but for the root, which lists them.
pub open spec fn initial_layout(m: Map<Seq<char>, LibraryObject>) -> bool {
    &&& m.dom() == set!["0"@, "vc_artists"@, "vc_albums"@, "vc_genres"@, "vc_all"@, "vc_search"@]
    &&& menu_in_place(m)
    &&& forall|k: Seq<char>|
        k != "0"@ && #[trigger] m.contains_key(k) ==> m[k]->Container_0.children@.len() == 0
            && m[k]->Container_0.child_count == 0
}

/// Whether a track matches a lower-case query: the query occurs in the
/// lower-cased title, artist, album or album artist.
pub open spec fn track_matches(t: Track, q: Seq<char>) -> bool {
    has_substring(lowercase(t.meta.title@), q) || has_substring(lowercase(t.meta.artist@), q)
        || has_substring(lowercase(t.meta.album@), q) || has_substring(
        lowercase(t.meta.album_artist@),
        q,
    )
}

/// Whether the id names a track that matches a lower-case query.
pub open spec fn search_hit(m: Map<Seq<char>, LibraryObject>, id: Seq<char>, q: Seq<char>) -> bool {
    is_track_at(m, id) && track_matches(m[id]->Track_0, q)
}

/// The tracks a search finds, in the order of the list of all tracks.
pub open spec fn search_spec(v: LibraryView, q: Seq<char>) -> Seq<LibraryObject> {
    v.all_track_ids.filter(|id: Seq<char>| search_hit(v.objects, id, q)).map_values(
        |id: Seq<char>| v.objects[id],
    )
}

/// Keeping some items of a list that holds each once keeps each once.
proof fn lemma_filter_distinct(s: Seq<Seq<char>>, p: spec_fn(Seq<char>) -> bool)
    requires
        s.no_duplicates(),
    ensures
        s.filter(p).no_duplicates(),
    decreases s.len(),
{
    reveal(Seq::filter);
    if s.len() > 0 {
        let t = s.drop_last();
        assert(t.no_duplicates()) by {
            assert forall|i: int, j: int| 0 <= i < t.len() && 0 <= j < t.len() && i != j implies t[i] != t[j] by {
                assert(t[i] == s[i] && t[j] == s[j]);
            }
        }
        lemma_filter_distinct(t, p);
        if p(s.last()) {
            let f = t.filter(p);
            let g = s.filter(p);
            assert(g == f.push(s.last()));
            assert(!f.contains(s.last())) by {
                if f.contains(s.last()) {
                    t.lemma_filter_contains_rev(p, s.last());
                    let i = choose|i: int| 0 <= i < t.len() && t[i] == s.last();
                    assert(s[i] == s[s.len() - 1]);
                }
            }
            assert forall|i: int, j: int| 0 <= i < g.len() && 0 <= j < g.len() && i != j implies g[i] != g[j] by {
                if i < f.len() && j < f.len() {
                    assert(g[i] == f[i] && g[j] == f[j]);
                } else if i < f.len() {
                    assert(g[i] == f[i]);
                    assert(f.contains(f[i]));
                } else {
                    assert(g[j] == f[j]);
                    assert(f.contains(f[j]));
                }
            }
        }
    }
}

/// A search finds each track at most once when the list of all tracks holds
/// each once, as a scanned catalog's does: the ids it finds, whose objects
/// `search_spec` lists, hold no id twice.
pub proof fn search_finds_each_once(v: LibraryView, q: Seq<char>)
    requires
        v.all_track_ids.no_duplicates(),
    ensures
        v.all_track_ids.filter(|id: Seq<char>| search_hit(v.objects, id, q)).no_duplicates(),
{
    lemma_filter_distinct(v.all_track_ids, |id: Seq<char>| search_hit(v.objects, id, q));
}

/// A search finds every listed track whose lower-cased title, artist,
/// album or album artist holds the query.
pub proof fn law_search_finds_matches(v: LibraryView, q: Seq<char>, id: Seq<char>)
    requires
        v.all_track_ids.contains(id),
        is_track_at(v.objects, id),
        has_substring(lowercase(v.objects[id]->Track_0.meta.title@), q) || has_substring(
            lowercase(v.objects[id]->Track_0.meta.artist@),
            q,
        ) || has_substring(lowercase(v.objects[id]->Track_0.meta.album@), q) || has_substring(
            lowercase(v.objects[id]->Track_0.meta.album_artist@),
            q,
        ),
    ensures
        search_spec(v, q).contains(v.objects[id]),
{
    let p = |id: Seq<char>| search_hit(v.objects, id, q);
    let f = v.all_track_ids.filter(p);
    let i = choose|i: int| 0 <= i < v.all_track_ids.len() && v.all_track_ids[i] == id;
    v.all_track_ids.lemma_filter_contains(p, i);
    let k = choose|k: int| 0 <= k < f.len() && f[k] == id;
    assert(search_spec(v, q)[k] == v.objects[id]);
}

/// A search finds nothing else: each object it returns is a listed track
/// whose lower-cased title, artist, album or album artist holds the query.
pub proof fn law_search_results_match(v: LibraryView, q: Seq<char>, j: int)
    requires
        0 <= j < search_spec(v, q).len(),
    ensures
        exists|k: Seq<char>|
            #[trigger] v.all_track_ids.contains(k) && is_track_at(v.objects, k) && search_spec(v, q)[j]
                == v.objects[k] && (has_substring(lowercase(v.objects[k]->Track_0.meta.title@), q) || has_substring(
                lowercase(v.objects[k]->Track_0.meta.artist@),
                q,
            ) || has_substring(lowercase(v.objects[k]->Track_0.meta.album@), q) || has_substring(
                lowercase(v.objects[k]->Track_0.meta.album_artist@),
                q,
            )),
{
    let p = |id: Seq<char>| search_hit(v.objects, id, q);
    let f = v.all_track_ids.filter(p);
    v.all_track_ids.lemma_filter_pred(p, j);
    let k = f[j];
    assert(f.contains(k));
    v.all_track_ids.lemma_filter_contains_rev(p, k);
    assert(search_spec(v, q)[j] == v.objects[k]);
    assert(search_hit(v.objects, k, q));
    assert(v.all_track_ids.contains(k));
}

pub(crate) fn new_container(id: &str, parent: &str, title: &str, class: &'static str) -> (r: LibraryObject)
    ensures
        r is Container,
        r->Container_0.id@ == id@,
        r->Container_0.parent_id@ == parent@,
        r->Container_0.title@ == title@,
        r->Container_0.upnp_class@ == class@,
        r->Container_0.children@.len() == 0,
        r->Container_0.child_count == 0,
{
    LibraryObject::Container(
        Container {
            id: id.to_owned(),
            parent_id: parent.to_owned(),
            title: title.to_owned(),
            children: Vec::new(),
            child_count: 0,
            upnp_class: class,
        },
    )
}

impl Library {
    /// The library's stored objects agree with their ids, and every
    /// container counts its children.
    pub closed spec fn wf(&self) -> bool {
        &&& self.store.wf()
        &&& counts_consistent(self.store@)
        &&& children_later(self.store@, self.store.rank())
    }

    /// The order in which the catalog's objects were stored.
    pub closed spec fn rank(&self) -> Map<Seq<char>, nat> {
        self.store.rank()
    }

    /// An empty catalog: the root and the five empty entries of its menu.
    pub fn new() -> (r: Self)
        ensures
            r.wf(),
            rank_floor(r@.objects, r.rank()),
            initial_layout(r@.objects),
            r@.all_track_ids.len() == 0,
            r@.total_tracks == 0,
    {
        let mut store = ObjectStore::new();
        let root_children = vec![
            "vc_artists".to_owned(),
            "vc_albums".to_owned(),
            "vc_genres".to_owned(),
            "vc_all".to_owned(),
            "vc_search".to_owned(),
        ];
        proof {
            reveal_strlit("0");
            reveal_strlit("vc_artists");
            reveal_strlit("vc_albums");
            reveal_strlit("vc_genres");
            reveal_strlit("vc_all");
            reveal_strlit("vc_search");
            assert("vc_artists"@.len() == 10 && "0"@.len() == 1);
            assert("vc_albums"@[4] != "vc_artists"@[4]);
            assert("vc_genres"@[3] != "vc_artists"@[3] && "vc_genres"@[3] != "vc_albums"@[3]);
            assert("vc_all"@.len() == 6);
            assert("vc_search"@.len() == 9);
            assert("vc_search"@[3] != "vc_artists"@[3] && "vc_search"@[3] != "vc_albums"@[3]
                && "vc_search"@[3] != "vc_genres"@[3]);
        }
        store.insert_new(
            LibraryObject::Container(
                Container {
                    id: "0".to_owned(),
                    parent_id: "-1".to_owned(),
                    title: "Root".to_owned(),
                    children: root_children,
                    child_count: 5,
                    upnp_class: "object.container",
                },
            ),
        );
        store.insert_new(new_container("vc_artists", "0", "Artists", "object.container"));
        store.insert_new(new_container("vc_albums", "0", "Albums", "object.container"));
        store.insert_new(new_container("vc_genres", "0", "Genres", "object.container"));
        store.insert_new(new_container("vc_all", "0", "All Tracks", "object.container"));
        store.insert_new(new_container("vc_search", "0", "Search", "object.container"));
        let r = Library { store, all_track_ids: Vec::new(), total_tracks: 0 };
        proof {
            let m = r.store@;
            assert(m.dom() =~= set!["0"@, "vc_artists"@, "vc_albums"@, "vc_genres"@, "vc_all"@, "vc_search"@]);
            assert(strings_view(m["0"@]->Container_0.children@) =~= menu_ids());
        }
        r
    }

    /// The object with this id.
    pub fn get(&self, id: &str) -> (r: Option<&LibraryObject>)
        requires
            self.wf(),
        ensures
            match r {
                Some(o) => self@.objects.contains_key(id@) && *o == self@.objects[id@],
                None => !self@.objects.contains_key(id@),
            },
    {
        self.store.get(id)
    }

    /// The objects listed under a container, in order; nothing for an id
    /// that names no container.
    pub fn children_of(&self, id: &str) -> (r: Vec<&LibraryObject>)
        requires
            self.wf(),
        ensures
            r@.map_values(|o: &LibraryObject| *o) == children_spec(self@.objects, id@),
    {
        self.store.children_of(id)
    }

    /// Search tracks by matching the query, case-insensitively, against
    /// title, artist, album and album artist.
    pub fn search(&self, query: &str) -> (r: Vec<&LibraryObject>)
        requires
            self.wf(),
        ensures
            r@.map_values(|o: &LibraryObject| *o) == search_spec(self@, lowercase(query@)),
    {
        let q = to_lower(query);
        let ghost ids = strings_view(self.all_track_ids@);
        let ghost m = self.store@;
        let mut r: Vec<&LibraryObject> = Vec::new();
        let mut i: usize = 0;
        while i < self.all_track_ids.len()
            invariant
                self.wf(),
                ids == strings_view(self.all_track_ids@),
                m == self.store@,
                i <= ids.len(),
                r@.map_values(|o: &LibraryObject| *o) == ids.take(i as int).filter(
                    |id: Seq<char>| search_hit(m, id, q@),
                ).map_values(|id: Seq<char>| m[id]),
            decreases self.all_track_ids.len() - i,
        {
            let ghost prev = r@.map_values(|o: &LibraryObject| *o);
            let ghost id = ids[i as int];
            proof {
                reveal(Seq::filter);
                assert(ids.take(i + 1).drop_last() =~= ids.take(i as int));
                assert(ids.take(i + 1).last() == id);
            }
            let hit = match self.store.get(self.all_track_ids[i].as_str()) {
                Some(obj) => match obj {
                    LibraryObject::Track(t) => {
                        let matched = {
                            let a = to_lower(t.meta.title.as_str());
                            if contains_substring(a.as_str(), q.as_str()) {
                                true
                            } else {
                                let b = to_lower(t.meta.artist.as_str());
                                if contains_substring(b.as_str(), q.as_str()) {
                                    true
                                } else {
                                    let c = to_lower(t.meta.album.as_str());
                                    if contains_substring(c.as_str(), q.as_str()) {
                                        true
                                    } else {
                                        let d = to_lower(t.meta.album_artist.as_str());
                                        contains_substring(d.as_str(), q.as_str())
                                    }
                                }
                            }
                        };
                        if matched {
                            Some(obj)
                        } else {
                            None
                        }
                    },
                    LibraryObject::Container(_) => None,
                },
                None => None,
            };
            match hit {
                Some(obj) => {
                    let ghost ov = *obj;
                    r.push(obj);
                    proof {
                        let f = ids.take(i + 1).filter(|id: Seq<char>| search_hit(m, id, q@));
                        let g = ids.take(i as int).filter(|id: Seq<char>| search_hit(m, id, q@));
                        assert(search_hit(m, id, q@));
                        assert(f == g.push(id));
                        assert(r@.map_values(|o: &LibraryObject| *o) =~= prev.push(ov));
                        assert(f.map_values(|id: Seq<char>| m[id]) =~= g.map_values(
                            |id: Seq<char>| m[id],
                        ).push(m[id]));
                    }
                },
                None => {
                    proof {
                        assert(!search_hit(m, id, q@));
                        let f = ids.take(i + 1).filter(|id: Seq<char>| search_hit(m, id, q@));
                        let g = ids.take(i as int).filter(|id: Seq<char>| search_hit(m, id, q@));
                        assert(f == g);
                    }
                },
            }
            i = i + 1;
        }
        assert(ids.take(ids.len() as int) =~= ids);
        r
    }

    /// Append the tracks below the container `container_id` (id and path),
    /// depth first, starting at its `j`-th child.
    fn collect_from(&self, container_id: &str, j: usize, out: &mut Vec<(String, String)>)
        requires
            self.wf(),
        ensures
            entries_view(final(out)@) == entries_view(old(out)@) + tracks_from(
                self@.objects,
                self.rank(),
                container_id@,
                j as int,
            ),
        decreases
            (if self.rank().contains_key(container_id@) && self.rank()[container_id@] < self@.objects.len() {
                (self@.objects.len() - self.rank()[container_id@]) as nat
            } else {
                0nat
            }),
            (if is_container_at(self@.objects, container_id@) && 0 <= j < self@.objects[container_id@]->Container_0.children@.len() {
                (self@.objects[container_id@]->Container_0.children@.len() - j) as nat
            } else {
                0nat
            }),
    {
        let ghost m = self.store@;
        let ghost rank = self.store.rank();
        let ghost before = entries_view(out@);
        proof {
            self.store.lemma_rank();
        }
        match self.store.get(container_id) {
            Some(LibraryObject::Container(c)) => {
                if j >= c.children.len() {
                    assert(entries_view(out@) =~= before + Seq::<(Seq<char>, Seq<char>)>::empty());
                    return;
                }
                let child_id = c.children[j].as_str();
                let ghost cid = child_id@;
                assert(cid == m[container_id@]->Container_0.children@[j as int]@);
                match self.store.get(child_id) {
                    Some(LibraryObject::Track(t)) => {
                        out.push((t.id.clone(), t.path.clone()));
                        assert(entries_view(out@) =~= before + seq![(t.id@, t.path@)]);
                    },
                    Some(LibraryObject::Container(_)) => {
                        proof {
                            assert(m.contains_key(cid));
                            assert(rank[cid] > rank[container_id@]);
                        }
                        self.collect_from(child_id, 0, out);
                    },
                    None => {
                        assert(entries_view(out@) =~= before + Seq::<(Seq<char>, Seq<char>)>::empty());
                    },
                }
                let ghost mid = entries_view(out@);
                self.collect_from(container_id, j + 1, out);
                proof {
                    assert(entries_view(out@) =~= before + tracks_from(m, rank, container_id@, j as int));
                }
            },
            _ => {
                assert(entries_view(out@) =~= before + Seq::<(Seq<char>, Seq<char>)>::empty());
            },
        }
    }

    /// The tracks below a container (id and path), depth first in child
    /// order.
    pub fn track_entries(&self, container_id: &str) -> (r: Vec<(String, String)>)
        requires
            self.wf(),
        ensures
            entries_view(r@) == tracks_from(self@.objects, self.rank(), container_id@, 0),
    {
        let mut out: Vec<(String, String)> = Vec::new();
        self.collect_from(container_id, 0, &mut out);
        assert(entries_view(out@) =~= tracks_from(self@.objects, self.rank(), container_id@, 0));
        out
    }

    /// The update id a client compares to notice a rescan: the number of
    /// tracks.
    pub fn system_update_id(&self) -> (r: u32)
        ensures
            r as nat == self@.total_tracks,
    {
        self.total_tracks
    }

    /// The number of tracks.
    pub fn total_tracks(&self) -> (r: u32)
        ensures
            r as nat == self@.total_tracks,
    {
        self.total_tracks
    }

    /// The ids of all tracks, sorted by lower-case title.
    pub fn all_track_ids(&self) -> (r: &Vec<String>)
        ensures
            strings_view(r@) == self@.all_track_ids,
    {
        &self.all_track_ids
    }
}




/// Whether an id is one of the catalog's fixed ids.
pub open spec fn fixed_id(k: Seq<char>) -> bool {
    k == "0"@ || k == "vc_artists"@ || k == "vc_albums"@ || k == "vc_genres"@ || k == "vc_all"@
        || k == "vc_search"@
}

/// Whether a prefix can start the ids a scan hands out: it is not empty and
/// holds no digit, so that the number after it is found again.
pub open spec fn id_prefix(p: Seq<char>) -> bool {
    p.len() > 0 && no_digits(p)
}

/// Whether a sequence holds no decimal digit.
pub open spec fn no_digits(p: Seq<char>) -> bool {
    forall|i: int| 0 <= i < p.len() ==> !is_digit(#[trigger] p[i])
}

/// Whether `k` is an id handed out before number `next`.
pub open spec fn minted(k: Seq<char>, next: nat) -> bool {
    exists|p: Seq<char>, n: nat| id_prefix(p) && n < next && k == p + decimal(n)
}

/// Whether every id of the catalog is fixed or was handed out before `next`.
pub open spec fn keys_ok(m: Map<Seq<char>, LibraryObject>, next: nat) -> bool {
    forall|k: Seq<char>| #[trigger] m.contains_key(k) ==> fixed_id(k) || minted(k, next)
}

/// Whether every container other than `exempt` has at most `bound`
/// children, one more for those in `touched`.
pub open spec fn counts_ok(
    m: Map<Seq<char>, LibraryObject>,
    bound: nat,
    touched: Set<Seq<char>>,
    exempt: Seq<char>,
) -> bool {
    forall|k: Seq<char>|
        #[trigger] m.contains_key(k) && m[k] is Container && k != exempt ==> m[k]->Container_0.children@.len()
            <= bound + (if touched.contains(k) {
            1nat
        } else {
            0nat
        })
}

/// Whether `k` is `p` followed by a number in decimal: the form of the ids
/// a scan hands out (`ar7`, `t12`).
pub open spec fn minted_as(k: Seq<char>, p: Seq<char>) -> bool {
    exists|n: nat| k == p + #[trigger] decimal(n)
}

/// Whether the values of a find-again map are containers of the catalog
/// whose ids are `prefix` and a number.
pub open spec fn dedup_ok(d: Map<Seq<char>, String>, m: Map<Seq<char>, LibraryObject>, prefix: Seq<char>) -> bool {
    forall|name: Seq<char>|
        #[trigger] d.contains_key(name) ==> is_container_at(m, d[name]@) && crate::text::has_prefix(
            d[name]@,
            prefix,
        ) && d[name]@.len() > prefix.len() && is_digit(d[name]@[prefix.len() as int]) && minted_as(
            d[name]@,
            prefix,
        )
}

/// Whether container `b` is container `a`, perhaps with more children:
/// the same parent and title, and the children of `a` first.
pub open spec fn kept_container(a: LibraryObject, b: LibraryObject) -> bool {
    &&& b is Container
    &&& b->Container_0.id@ == a->Container_0.id@
    &&& b->Container_0.upnp_class@ == a->Container_0.upnp_class@
    &&& b->Container_0.parent_id@ == a->Container_0.parent_id@
    &&& b->Container_0.title@ == a->Container_0.title@
    &&& a->Container_0.children@.len() <= b->Container_0.children@.len()
    &&& forall|j: int|
        0 <= j < a->Container_0.children@.len() ==> #[trigger] b->Container_0.children@[j]@
            == a->Container_0.children@[j]@
}

/// Whether `b` keeps every object of `a`: the same ids, containers stay
/// containers under the same parent and title with their children first,
/// tracks stay as they are.
pub open spec fn grows(a: Map<Seq<char>, LibraryObject>, b: Map<Seq<char>, LibraryObject>) -> bool {
    &&& forall|k: Seq<char>| #[trigger] a.contains_key(k) ==> b.contains_key(k)
    &&& forall|k: Seq<char>| #[trigger] is_container_at(a, k) ==> is_container_at(b, k) && kept_container(a[k], b[k])
    &&& forall|k: Seq<char>| #[trigger] is_track_at(a, k) ==> b[k] == a[k]
}

/// Whether container `c` lists `k` among its children.
pub open spec fn lists(m: Map<Seq<char>, LibraryObject>, c: Seq<char>, k: Seq<char>) -> bool {
    is_container_at(m, c) && exists|j: int|
        0 <= j < m[c]->Container_0.children@.len() && #[trigger] m[c]->Container_0.children@[j]@ == k
}

/// Whether `id` is a container under `parent` (which lists it) with this
/// title.
pub open spec fn named_under(m: Map<Seq<char>, LibraryObject>, id: Seq<char>, parent: Seq<char>, title: Seq<char>) -> bool {
    &&& is_container_at(m, id)
    &&& m[id]->Container_0.parent_id@ == parent
    &&& m[id]->Container_0.title@ == title
    &&& lists(m, parent, id)
}

/// Whether each container a find-again map keyed by name leads to sits
/// under `parent`, titled with its name.
pub open spec fn by_name_ok(d: Map<Seq<char>, String>, m: Map<Seq<char>, LibraryObject>, parent: Seq<char>) -> bool {
    forall|name: Seq<char>| #[trigger] d.contains_key(name) ==> named_under(m, d[name]@, parent, name)
}

/// Whether each album of the albums view sits under "Albums", titled after
/// its (album artist, album).
pub open spec fn views_ok(d: Map<Seq<char>, String>, m: Map<Seq<char>, LibraryObject>) -> bool {
    forall|a: Seq<char>, b: Seq<char>|
        #[trigger] d.contains_key(pair_key(a, b)) ==> named_under(
            m,
            d[pair_key(a, b)]@,
            "vc_albums"@,
            album_view_title(a, b),
        )
}

/// Whether each album of an artist sits under that artist's container,
/// titled with the album's name.
pub open spec fn albums_ok(d: Map<Seq<char>, String>, artists: Map<Seq<char>, String>, m: Map<Seq<char>, LibraryObject>) -> bool {
    forall|a: Seq<char>, b: Seq<char>|
        #[trigger] d.contains_key(pair_key(a, b)) ==> artists.contains_key(a) && named_under(
            m,
            d[pair_key(a, b)]@,
            artists[a]@,
            b,
        )
}

/// Whether a track sits where a scan puts it: under the container of its
/// album (`aa{n}`, titled with the album), which sits under the container of
/// its album artist (`ar{n}`) in "Artists"; listed by the album (`av{n}`) of
/// the "Albums" view for its (album artist, album); and listed by the genre
/// (`gr{n}`) of "Genres" for its genre, when it has one.
pub open spec fn track_placed(m: Map<Seq<char>, LibraryObject>, k: Seq<char>) -> bool {
    let t = m[k]->Track_0;
    let al = t.parent_id@;
    let ar = m[al]->Container_0.parent_id@;
    &&& named_under(m, al, ar, t.meta.album@)
    &&& minted_as(al, "aa"@)
    &&& lists(m, al, k)
    &&& named_under(m, ar, "vc_artists"@, t.meta.album_artist@)
    &&& minted_as(ar, "ar"@)
    &&& exists|v: Seq<char>|
        #[trigger] named_under(m, v, "vc_albums"@, album_view_title(t.meta.album_artist@, t.meta.album@))
            && minted_as(v, "av"@) && lists(m, v, k)
    &&& match t.meta.genre {
        Some(g) => exists|gid: Seq<char>|
            #[trigger] named_under(m, gid, "vc_genres"@, g@) && minted_as(gid, "gr"@) && lists(m, gid, k),
        None => true,
    }
}

/// Whether every track sits where a scan puts it.
pub open spec fn tracks_placed(m: Map<Seq<char>, LibraryObject>) -> bool {
    forall|k: Seq<char>| #[trigger] is_track_at(m, k) ==> track_placed(m, k)
}

/// Keeping every object keeps a container where it is.
pub(crate) proof fn lemma_named_grows(
    m: Map<Seq<char>, LibraryObject>,
    m2: Map<Seq<char>, LibraryObject>,
    id: Seq<char>,
    parent: Seq<char>,
    title: Seq<char>,
)
    requires
        grows(m, m2),
        named_under(m, id, parent, title),
    ensures
        named_under(m2, id, parent, title),
{
    assert(kept_container(m[id], m2[id]));
    lemma_lists_grows(m, m2, parent, id);
}

/// Keeping every object, and adding no track, keeps the catalog's shape:
/// the find-again maps and the tracks stay where they were.
pub(crate) proof fn lemma_shape_grows(
    m: Map<Seq<char>, LibraryObject>,
    m2: Map<Seq<char>, LibraryObject>,
    artists: Map<Seq<char>, String>,
    albums: Map<Seq<char>, String>,
    views: Map<Seq<char>, String>,
    genres: Map<Seq<char>, String>,
)
    requires
        grows(m, m2),
        forall|k: Seq<char>| #[trigger] is_track_at(m2, k) ==> is_track_at(m, k),
        by_name_ok(artists, m, "vc_artists"@),
        albums_ok(albums, artists, m),
        views_ok(views, m),
        by_name_ok(genres, m, "vc_genres"@),
        tracks_placed(m),
    ensures
        by_name_ok(artists, m2, "vc_artists"@),
        albums_ok(albums, artists, m2),
        views_ok(views, m2),
        by_name_ok(genres, m2, "vc_genres"@),
        tracks_placed(m2),
{
    assert forall|name: Seq<char>| #[trigger] artists.contains_key(name) implies named_under(
        m2,
        artists[name]@,
        "vc_artists"@,
        name,
    ) by {
        lemma_named_grows(m, m2, artists[name]@, "vc_artists"@, name);
    }
    assert forall|name: Seq<char>| #[trigger] genres.contains_key(name) implies named_under(
        m2,
        genres[name]@,
        "vc_genres"@,
        name,
    ) by {
        lemma_named_grows(m, m2, genres[name]@, "vc_genres"@, name);
    }
    assert forall|a: Seq<char>, b: Seq<char>| #[trigger] views.contains_key(pair_key(a, b)) implies named_under(
        m2,
        views[pair_key(a, b)]@,
        "vc_albums"@,
        album_view_title(a, b),
    ) by {
        lemma_named_grows(m, m2, views[pair_key(a, b)]@, "vc_albums"@, album_view_title(a, b));
    }
    assert forall|a: Seq<char>, b: Seq<char>| #[trigger] albums.contains_key(pair_key(a, b)) implies artists.contains_key(
        a,
    ) && named_under(m2, albums[pair_key(a, b)]@, artists[a]@, b) by {
        lemma_named_grows(m, m2, albums[pair_key(a, b)]@, artists[a]@, b);
    }
    assert forall|k: Seq<char>| #[trigger] is_track_at(m2, k) implies track_placed(m2, k) by {
        lemma_placed_grows(m, m2, k);
    }
}

/// Adding an entry to a find-again map keyed by name, for a container
/// placed under `parent` with that name, keeps the map's containers placed.
pub(crate) proof fn lemma_by_name_step(
    d0: Map<Seq<char>, String>,
    d1: Map<Seq<char>, String>,
    m0: Map<Seq<char>, LibraryObject>,
    m1: Map<Seq<char>, LibraryObject>,
    parent: Seq<char>,
    key: Seq<char>,
)
    requires
        by_name_ok(d0, m0, parent),
        grows(m0, m1),
        d1 == d0 || (d1 == d0.insert(key, d1[key]) && named_under(m1, d1[key]@, parent, key)),
    ensures
        by_name_ok(d1, m1, parent),
{
    assert forall|name: Seq<char>| #[trigger] d1.contains_key(name) implies named_under(m1, d1[name]@, parent, name) by {
        if d1 == d0 || name != key {
            assert(d0.contains_key(name));
            assert(d1[name] == d0[name]);
            lemma_named_grows(m0, m1, d0[name]@, parent, name);
        }
    }
}

/// Adding the albums-view entry of an (album artist, album) pair keeps the
/// view's albums placed.
pub(crate) proof fn lemma_views_step(
    d0: Map<Seq<char>, String>,
    d1: Map<Seq<char>, String>,
    m0: Map<Seq<char>, LibraryObject>,
    m1: Map<Seq<char>, LibraryObject>,
    a: Seq<char>,
    b: Seq<char>,
)
    requires
        views_ok(d0, m0),
        grows(m0, m1),
        d1 == d0 || (d1 == d0.insert(pair_key(a, b), d1[pair_key(a, b)]) && named_under(
            m1,
            d1[pair_key(a, b)]@,
            "vc_albums"@,
            album_view_title(a, b),
        )),
    ensures
        views_ok(d1, m1),
{
    assert forall|x: Seq<char>, y: Seq<char>| #[trigger] d1.contains_key(pair_key(x, y)) implies named_under(
        m1,
        d1[pair_key(x, y)]@,
        "vc_albums"@,
        album_view_title(x, y),
    ) by {
        if d1 == d0 || pair_key(x, y) != pair_key(a, b) {
            assert(d0.contains_key(pair_key(x, y)));
            lemma_named_grows(m0, m1, d0[pair_key(x, y)]@, "vc_albums"@, album_view_title(x, y));
        } else {
            lemma_pair_key_injective(x, y, a, b);
        }
    }
}

/// Adding the album of an (album artist, album) pair under the artist's
/// container, or adding artists, keeps the artists' albums placed.
pub(crate) proof fn lemma_albums_step(
    d0: Map<Seq<char>, String>,
    d1: Map<Seq<char>, String>,
    ar0: Map<Seq<char>, String>,
    ar1: Map<Seq<char>, String>,
    m0: Map<Seq<char>, LibraryObject>,
    m1: Map<Seq<char>, LibraryObject>,
    a: Seq<char>,
    b: Seq<char>,
)
    requires
        albums_ok(d0, ar0, m0),
        grows(m0, m1),
        forall|n: Seq<char>| #[trigger] ar0.contains_key(n) ==> ar1.contains_key(n) && ar1[n] == ar0[n],
        d1 == d0 || (d1 == d0.insert(pair_key(a, b), d1[pair_key(a, b)]) && ar1.contains_key(a) && named_under(
            m1,
            d1[pair_key(a, b)]@,
            ar1[a]@,
            b,
        )),
    ensures
        albums_ok(d1, ar1, m1),
{
    assert forall|x: Seq<char>, y: Seq<char>| #[trigger] d1.contains_key(pair_key(x, y)) implies ar1.contains_key(x)
        && named_under(m1, d1[pair_key(x, y)]@, ar1[x]@, y) by {
        if d1 == d0 || pair_key(x, y) != pair_key(a, b) {
            assert(d0.contains_key(pair_key(x, y)));
            assert(ar0.contains_key(x));
            lemma_named_grows(m0, m1, d0[pair_key(x, y)]@, ar0[x]@, y);
        } else {
            lemma_pair_key_injective(x, y, a, b);
        }
    }
}

/// A new track, listed by its album, its albums-view entry and its genre,
/// under the album the maps name for it, is placed; the others stay placed.
pub(crate) proof fn lemma_track_new(
    m4: Map<Seq<char>, LibraryObject>,
    m8: Map<Seq<char>, LibraryObject>,
    tid: Seq<char>,
    artists: Map<Seq<char>, String>,
    albums: Map<Seq<char>, String>,
    views: Map<Seq<char>, String>,
    genres: Map<Seq<char>, String>,
)
    requires
        tracks_placed(m4),
        grows(m4, m8),
        forall|k: Seq<char>| #[trigger] is_track_at(m8, k) ==> k == tid || is_track_at(m4, k),
        is_track_at(m8, tid),
        by_name_ok(artists, m4, "vc_artists"@),
        albums_ok(albums, artists, m4),
        views_ok(views, m4),
        by_name_ok(genres, m4, "vc_genres"@),
        dedup_ok(artists, m4, "ar"@),
        dedup_ok(albums, m4, "aa"@),
        dedup_ok(views, m4, "av"@),
        dedup_ok(genres, m4, "gr"@),
        ({
            let t = m8[tid]->Track_0;
            let pk = pair_key(t.meta.album_artist@, t.meta.album@);
            &&& albums.contains_key(pk)
            &&& albums[pk]@ == t.parent_id@
            &&& lists(m8, t.parent_id@, tid)
            &&& views.contains_key(pk)
            &&& lists(m8, views[pk]@, tid)
            &&& (t.meta.genre matches Some(g) ==> genres.contains_key(g@) && lists(m8, genres[g@]@, tid))
        }),
    ensures
        tracks_placed(m8),
{
    let t = m8[tid]->Track_0;
    let aa = t.meta.album_artist@;
    let al = t.meta.album@;
    let pk = pair_key(aa, al);
    let alid = t.parent_id@;
    assert(albums.contains_key(pair_key(aa, al)));
    assert(artists.contains_key(aa));
    let arid = artists[aa]@;
    lemma_named_grows(m4, m8, alid, arid, al);
    lemma_named_grows(m4, m8, arid, "vc_artists"@, aa);
    assert(minted_as(alid, "aa"@));
    assert(artists.contains_key(aa));
    assert(minted_as(arid, "ar"@));
    let v = views[pk]@;
    assert(views.contains_key(pair_key(aa, al)));
    lemma_named_grows(m4, m8, v, "vc_albums"@, album_view_title(aa, al));
    assert(minted_as(v, "av"@));
    assert(named_under(m8, v, "vc_albums"@, album_view_title(aa, al)) && minted_as(v, "av"@) && lists(m8, v, tid));
    match t.meta.genre {
        Some(g) => {
            assert(genres.contains_key(g@));
            let gid = genres[g@]@;
            lemma_named_grows(m4, m8, gid, "vc_genres"@, g@);
            assert(minted_as(gid, "gr"@));
            assert(named_under(m8, gid, "vc_genres"@, g@) && minted_as(gid, "gr"@) && lists(m8, gid, tid));
        },
        None => {},
    }
    assert(track_placed(m8, tid));
    assert forall|k: Seq<char>| #[trigger] is_track_at(m8, k) implies track_placed(m8, k) by {
        if k != tid {
            lemma_placed_grows(m4, m8, k);
        }
    }
}

/// Keeping every object keeps the tracks placed, when no track is added.
pub(crate) proof fn lemma_tracks_placed_grows(m: Map<Seq<char>, LibraryObject>, m2: Map<Seq<char>, LibraryObject>)
    requires
        grows(m, m2),
        tracks_within(m, m2),
        tracks_placed(m),
    ensures
        tracks_placed(m2),
{
    assert forall|k: Seq<char>| #[trigger] is_track_at(m2, k) implies track_placed(m2, k) by {
        assert(is_track_at(m, k));
        lemma_placed_grows(m, m2, k);
    }
}

/// Keeping every object and the root keeps the browse menu in place.
pub(crate) proof fn lemma_menu_grows(m: Map<Seq<char>, LibraryObject>, m2: Map<Seq<char>, LibraryObject>)
    requires
        grows(m, m2),
        menu_in_place(m),
        m2.contains_key("0"@),
        m2["0"@] == m["0"@],
    ensures
        menu_in_place(m2),
{
    assert(kept_container(m["vc_artists"@], m2["vc_artists"@]));
    assert(kept_container(m["vc_albums"@], m2["vc_albums"@]));
    assert(kept_container(m["vc_genres"@], m2["vc_genres"@]));
    assert(kept_container(m["vc_all"@], m2["vc_all"@]));
    assert(kept_container(m["vc_search"@], m2["vc_search"@]));
}

/// An id of the form `p{n}` is no fixed id.
pub(crate) proof fn lemma_minted_as_not_fixed(k: Seq<char>, p: Seq<char>)
    requires
        minted_as(k, p),
        id_prefix(p),
    ensures
        !fixed_id(k),
{
    let n = choose|n: nat| k == p + #[trigger] decimal(n);
    lemma_minted_not_fixed(p, n);
}

/// A container placed in a catalog, away from "All Tracks", stays placed
/// when only "All Tracks" changes.
pub(crate) proof fn lemma_named_apart(
    m: Map<Seq<char>, LibraryObject>,
    ls: Map<Seq<char>, LibraryObject>,
    id: Seq<char>,
    parent: Seq<char>,
    title: Seq<char>,
)
    requires
        named_under(m, id, parent, title),
        id != "vc_all"@,
        parent != "vc_all"@,
        forall|k: Seq<char>| k != "vc_all"@ && #[trigger] m.contains_key(k) ==> ls.contains_key(k) && ls[k] == m[k],
    ensures
        named_under(ls, id, parent, title),
{
    assert(ls[id] == m[id]);
    assert(ls[parent] == m[parent]);
    let j = choose|j: int| 0 <= j < m[parent]->Container_0.children@.len() && #[trigger] m[parent]->Container_0.children@[j]@ == id;
    assert(ls[parent]->Container_0.children@[j]@ == id);
}

/// A child listed away from "All Tracks" stays listed when only "All
/// Tracks" changes.
pub(crate) proof fn lemma_lists_apart(m: Map<Seq<char>, LibraryObject>, ls: Map<Seq<char>, LibraryObject>, c: Seq<char>, k: Seq<char>)
    requires
        lists(m, c, k),
        c != "vc_all"@,
        forall|x: Seq<char>| x != "vc_all"@ && #[trigger] m.contains_key(x) ==> ls.contains_key(x) && ls[x] == m[x],
    ensures
        lists(ls, c, k),
{
    assert(ls[c] == m[c]);
    let j = choose|j: int| 0 <= j < m[c]->Container_0.children@.len() && #[trigger] m[c]->Container_0.children@[j]@ == k;
    assert(ls[c]->Container_0.children@[j]@ == k);
}

/// Changing the children of "All Tracks" alone keeps the browse menu and
/// every track in place.
pub(crate) proof fn lemma_shape_apart(m: Map<Seq<char>, LibraryObject>, ls: Map<Seq<char>, LibraryObject>)
    requires
        menu_in_place(m),
        tracks_placed(m),
        ls.dom() == m.dom(),
        forall|x: Seq<char>| x != "vc_all"@ && #[trigger] m.contains_key(x) ==> ls.contains_key(x) && ls[x] == m[x],
        container_fields(ls, "vc_all"@, "0"@, "All Tracks"@, "object.container"@),
    ensures
        menu_in_place(ls),
        tracks_placed(ls),
{
    reveal_strlit("0");
    reveal_strlit("vc_all");
    reveal_strlit("vc_artists");
    reveal_strlit("vc_albums");
    reveal_strlit("vc_genres");
    reveal_strlit("vc_search");
    assert("vc_all"@.len() == 6 && "0"@.len() == 1);
    assert("vc_artists"@.len() == 10 && "vc_albums"@.len() == 9 && "vc_genres"@.len() == 9 && "vc_search"@.len() == 9);
    assert(ls["0"@] == m["0"@]);
    assert(ls["vc_artists"@] == m["vc_artists"@]);
    assert(ls["vc_albums"@] == m["vc_albums"@]);
    assert(ls["vc_genres"@] == m["vc_genres"@]);
    assert(ls["vc_search"@] == m["vc_search"@]);
    lemma_known_prefixes();
    assert forall|k: Seq<char>| #[trigger] is_track_at(ls, k) implies track_placed(ls, k) by {
        assert(m.contains_key(k));
        if k == "vc_all"@ {
            assert(is_container_at(m, k));
        }
        assert(ls[k] == m[k]);
        assert(is_track_at(m, k));
        assert(track_placed(m, k));
        let t = m[k]->Track_0;
        let al = t.parent_id@;
        let ar = m[al]->Container_0.parent_id@;
        lemma_minted_as_not_fixed(al, "aa"@);
        lemma_minted_as_not_fixed(ar, "ar"@);
        lemma_named_apart(m, ls, al, ar, t.meta.album@);
        lemma_lists_apart(m, ls, al, k);
        lemma_named_apart(m, ls, ar, "vc_artists"@, t.meta.album_artist@);
        let v = choose|v: Seq<char>|
            #[trigger] named_under(m, v, "vc_albums"@, album_view_title(t.meta.album_artist@, t.meta.album@))
                && minted_as(v, "av"@) && lists(m, v, k);
        lemma_minted_as_not_fixed(v, "av"@);
        lemma_named_apart(m, ls, v, "vc_albums"@, album_view_title(t.meta.album_artist@, t.meta.album@));
        lemma_lists_apart(m, ls, v, k);
        match t.meta.genre {
            Some(g) => {
                let gid = choose|gid: Seq<char>|
                    #[trigger] named_under(m, gid, "vc_genres"@, g@) && minted_as(gid, "gr"@) && lists(m, gid, k);
                lemma_minted_as_not_fixed(gid, "gr"@);
                lemma_named_apart(m, ls, gid, "vc_genres"@, g@);
                lemma_lists_apart(m, ls, gid, k);
            },
            None => {},
        }
    }
}

/// Whether every child a container lists names an object of the catalog.
pub open spec fn children_resolve(m: Map<Seq<char>, LibraryObject>) -> bool {
    forall|c: Seq<char>, j: int|
        #![trigger m[c]->Container_0.children@[j]]
        is_container_at(m, c) && 0 <= j < m[c]->Container_0.children@.len() ==> m.contains_key(
            m[c]->Container_0.children@[j]@,
        )
}

/// Keeping every object keeps a track where it is.
pub(crate) proof fn lemma_placed_grows(m: Map<Seq<char>, LibraryObject>, m2: Map<Seq<char>, LibraryObject>, k: Seq<char>)
    requires
        grows(m, m2),
        is_track_at(m, k),
        track_placed(m, k),
    ensures
        is_track_at(m2, k),
        track_placed(m2, k),
{
    let t = m[k]->Track_0;
    assert(m2[k] == m[k]);
    let al = t.parent_id@;
    let ar = m[al]->Container_0.parent_id@;
    lemma_named_grows(m, m2, al, ar, t.meta.album@);
    assert(kept_container(m[al], m2[al]));
    lemma_lists_grows(m, m2, al, k);
    lemma_named_grows(m, m2, ar, "vc_artists"@, t.meta.album_artist@);
    let v = choose|v: Seq<char>|
        #[trigger] named_under(m, v, "vc_albums"@, album_view_title(t.meta.album_artist@, t.meta.album@))
            && minted_as(v, "av"@) && lists(m, v, k);
    lemma_named_grows(m, m2, v, "vc_albums"@, album_view_title(t.meta.album_artist@, t.meta.album@));
    lemma_lists_grows(m, m2, v, k);
    match t.meta.genre {
        Some(g) => {
            let gid = choose|gid: Seq<char>|
                #[trigger] named_under(m, gid, "vc_genres"@, g@) && minted_as(gid, "gr"@) && lists(m, gid, k);
            lemma_named_grows(m, m2, gid, "vc_genres"@, g@);
            lemma_lists_grows(m, m2, gid, k);
        },
        None => {},
    }
}

/// Keeping every object keeps every child listed.
pub(crate) proof fn lemma_lists_grows(
    m: Map<Seq<char>, LibraryObject>,
    m2: Map<Seq<char>, LibraryObject>,
    c: Seq<char>,
    k: Seq<char>,
)
    requires
        grows(m, m2),
        lists(m, c, k),
    ensures
        lists(m2, c, k),
{
    let j = choose|j: int| 0 <= j < m[c]->Container_0.children@.len() && #[trigger] m[c]->Container_0.children@[j]@ == k;
    assert(kept_container(m[c], m2[c]));
    assert(m2[c]->Container_0.children@[j]@ == k);
}

/// Whether the containers a find-again map leads to sit under `parent`.
pub open spec fn parents_ok(d: Map<Seq<char>, String>, m: Map<Seq<char>, LibraryObject>, parent: Seq<char>) -> bool {
    forall|name: Seq<char>|
        #[trigger] d.contains_key(name) ==> is_container_at(m, d[name]@) && m[d[name]@]->Container_0.parent_id@
            == parent
}

/// Keeping every object keeps the containers under their parents.
pub(crate) proof fn lemma_parents_grows(
    d: Map<Seq<char>, String>,
    m: Map<Seq<char>, LibraryObject>,
    m2: Map<Seq<char>, LibraryObject>,
    parent: Seq<char>,
)
    requires
        parents_ok(d, m, parent),
        grows(m, m2),
    ensures
        parents_ok(d, m2, parent),
{
    assert forall|name: Seq<char>| #[trigger] d.contains_key(name) implies is_container_at(m2, d[name]@)
        && m2[d[name]@]->Container_0.parent_id@ == parent by {
        assert(is_container_at(m, d[name]@));
    }
}

/// The key under which an (album artist, album) pair is found again: the
/// artist's length, a colon, the artist and the album.
pub open spec fn pair_key(a: Seq<char>, b: Seq<char>) -> Seq<char> {
    decimal(a.len()) + seq![':'] + a + b
}

/// Two (album artist, album) pairs share a key only when they are equal.
pub proof fn lemma_pair_key_injective(a1: Seq<char>, b1: Seq<char>, a2: Seq<char>, b2: Seq<char>)
    requires
        pair_key(a1, b1) == pair_key(a2, b2),
    ensures
        a1 == a2,
        b1 == b2,
{
    let d1 = decimal(a1.len());
    let d2 = decimal(a2.len());
    lemma_decimal_digits(a1.len());
    lemma_decimal_digits(a2.len());
    let s = pair_key(a1, b1);
    assert(s == d1 + seq![':'] + a1 + b1);
    assert(s == d2 + seq![':'] + a2 + b2);
    if d1.len() < d2.len() {
        assert(s[d1.len() as int] == ':');
        assert(s[d1.len() as int] == d2[d1.len() as int]);
        assert(is_digit(d2[d1.len() as int]));
    }
    if d2.len() < d1.len() {
        assert(s[d2.len() as int] == ':');
        assert(s[d2.len() as int] == d1[d2.len() as int]);
        assert(is_digit(d1[d2.len() as int]));
    }
    let l = d1.len() as int;
    assert(d1 =~= s.take(l));
    assert(d2 =~= s.take(l));
    assert(a1.len() == a2.len());
    let n = a1.len() as int;
    assert(a1 =~= s.subrange(l + 1, l + 1 + n));
    assert(a2 =~= s.subrange(l + 1, l + 1 + n));
    assert(b1 =~= s.skip(l + 1 + n));
    assert(b2 =~= s.skip(l + 1 + n));
}

/// The title of an album in the albums view: `"{album artist} — {album}"`,
/// or the album alone when the artist is unknown.
pub open spec fn album_view_title(album_artist: Seq<char>, album: Seq<char>) -> Seq<char> {
    if album_artist != "Unknown Artist"@ {
        album_artist + " — "@ + album
    } else {
        album
    }
}

/// Lexicographic order of character sequences (the order of `String`).
pub open spec fn lex_le(a: Seq<char>, b: Seq<char>) -> bool
    decreases a.len(),
{
    if a.len() == 0 {
        true
    } else if b.len() == 0 {
        false
    } else if a[0] != b[0] {
        (a[0] as u32) < (b[0] as u32)
    } else {
        lex_le(a.drop_first(), b.drop_first())
    }
}

/// Sort pairs by their first string, keeping pairs with equal first strings
/// in their order.
///
/// Calls std's `slice::sort_by` with a comparison of the first fields;
/// std documents the sort as stable and `String`'s order as lexicographic.
/// The contract states that the result is a reordering, sorted, with equal
/// keys in their former order.
#[verifier::external_body]
fn sort_by_first(v: &mut Vec<(String, String)>)
    ensures
        final(v)@.to_multiset() == old(v)@.to_multiset(),
        final(v)@.len() == old(v)@.len(),
        forall|i: int, j: int|
            0 <= i < j < final(v)@.len() ==> lex_le(final(v)@[i].0@, final(v)@[j].0@),
        forall|i: int, j: int|
            0 <= i < j < final(v)@.len() && final(v)@[i].0@ == final(v)@[j].0@ ==> exists|p: int, q: int|
                0 <= p < q < old(v)@.len() && old(v)@[p] == final(v)@[i] && old(v)@[q] == final(v)@[j],
{
    v.sort_by(|a, b| a.0.cmp(&b.0));
}

/// The abstract state of a catalog being built.
pub struct BuilderView {
    pub objects: Map<Seq<char>, LibraryObject>,
    pub total_tracks: nat,
    pub next_id: nat,
    pub artists: Map<Seq<char>, Seq<char>>,
    pub albums: Map<Seq<char>, Seq<char>>,
    pub album_views: Map<Seq<char>, Seq<char>>,
    pub genres: Map<Seq<char>, Seq<char>>,
    pub sort_keys: Seq<(Seq<char>, Seq<char>)>,
}

/// The views of a find-again map's values.
pub open spec fn ids_view(d: Map<Seq<char>, String>) -> Map<Seq<char>, Seq<char>> {
    d.map_values(|s: String| s@)
}

/// The view of the list of (sort key, track id) pairs.
pub open spec fn pairs_view(v: Seq<(String, String)>) -> Seq<(Seq<char>, Seq<char>)> {
    v.map_values(|p: (String, String)| (p.0@, p.1@))
}

/// A catalog being built, with what it needs to find artists, albums and
/// genres again.
pub struct LibraryBuilder {
    lib: Library,
    next_id: u64,
    artist_ids: StringHashMap<String>,
    artist_album_ids: StringHashMap<String>,
    album_view_ids: StringHashMap<String>,
    genre_ids: StringHashMap<String>,
    all_tracks: Vec<(String, String)>,
}

impl View for LibraryBuilder {
    type V = BuilderView;

    closed spec fn view(&self) -> BuilderView {
        BuilderView {
            objects: self.lib@.objects,
            total_tracks: self.lib@.total_tracks,
            next_id: self.next_id as nat,
            artists: ids_view(self.artist_ids@),
            albums: ids_view(self.artist_album_ids@),
            album_views: ids_view(self.album_view_ids@),
            genres: ids_view(self.genre_ids@),
            sort_keys: pairs_view(self.all_tracks@),
        }
    }
}

/// The prefixes in use are digit-free and not empty.
pub(crate) proof fn lemma_known_prefixes()
    ensures
        id_prefix("ar"@),
        id_prefix("aa"@),
        id_prefix("av"@),
        id_prefix("gr"@),
        id_prefix("t"@),
        id_prefix("a"@),
        id_prefix("al"@),
        "ar"@ == seq!['a', 'r'],
        "aa"@ == seq!['a', 'a'],
        "av"@ == seq!['a', 'v'],
        "gr"@ == seq!['g', 'r'],
        "t"@ == seq!['t'],
        "a"@ == seq!['a'],
        "al"@ == seq!['a', 'l'],
{
    reveal_strlit("ar");
    reveal_strlit("aa");
    reveal_strlit("av");
    reveal_strlit("gr");
    reveal_strlit("t");
    reveal_strlit("a");
    reveal_strlit("al");
}

/// A prefix's characters start every string that has it.
pub(crate) proof fn lemma_prefix_at(s: Seq<char>, p: Seq<char>, i: int)
    requires
        crate::text::has_prefix(s, p),
        0 <= i < p.len(),
    ensures
        s[i] == p[i],
{
    assert(s.take(p.len() as int)[i] == s[i]);
}

/// A digit-free prefix followed by digits splits in one way only.
proof fn lemma_split(p: Seq<char>, q: Seq<char>, d: Seq<char>, e: Seq<char>)
    requires
        no_digits(p),
        no_digits(q),
        all_digits(d),
        all_digits(e),
        d.len() > 0,
        e.len() > 0,
        p + d == q + e,
    ensures
        p == q,
        d == e,
{
    let k = p + d;
    if p.len() < q.len() {
        assert(k[p.len() as int] == d[0]);
        assert((q + e)[p.len() as int] == q[p.len() as int]);
        assert(is_digit(d[0]));
    } else if q.len() < p.len() {
        assert(k[q.len() as int] == p[q.len() as int]);
        assert((q + e)[q.len() as int] == e[0]);
        assert(is_digit(e[0]));
    }
    assert(p =~= k.take(p.len() as int));
    assert(q =~= (q + e).take(q.len() as int));
    assert(d =~= k.skip(p.len() as int));
    assert(e =~= (q + e).skip(q.len() as int));
}

/// An id made from a prefix and a number is never a fixed id, starts with
/// the prefix and has a digit right after it.
pub(crate) proof fn lemma_minted_not_fixed(p: Seq<char>, n: nat)
    requires
        id_prefix(p),
    ensures
        !fixed_id(p + decimal(n)),
        (p + decimal(n)).len() > p.len(),
        crate::text::has_prefix(p + decimal(n), p),
        is_digit((p + decimal(n))[p.len() as int]),
{
    lemma_decimal_digits(n);
    let k = p + decimal(n);
    let d = decimal(n);
    assert(k.last() == d.last());
    assert(is_digit(d[d.len() - 1]));
    assert(k[p.len() as int] == d[0]);
    assert(k.take(p.len() as int) =~= p);
    reveal_strlit("0");
    reveal_strlit("vc_artists");
    reveal_strlit("vc_albums");
    reveal_strlit("vc_genres");
    reveal_strlit("vc_all");
    reveal_strlit("vc_search");
    assert("vc_artists"@.last() == 's');
    assert("vc_albums"@.last() == 's');
    assert("vc_genres"@.last() == 's');
    assert("vc_all"@.last() == 'l');
    assert("vc_search"@.last() == 'h');
}

/// The next id is not in use, and every id stays valid once it is.
pub(crate) proof fn lemma_fresh(m: Map<Seq<char>, LibraryObject>, next: nat, q: Seq<char>)
    requires
        keys_ok(m, next),
        id_prefix(q),
    ensures
        !m.contains_key(q + decimal(next)),
        forall|k: Seq<char>| #[trigger] m.contains_key(k) ==> fixed_id(k) || minted(k, next + 1),
        minted(q + decimal(next), next + 1),
{
    let key = q + decimal(next);
    lemma_minted_not_fixed(q, next);
    if m.contains_key(key) {
        assert(minted(key, next));
        let (p, n) = choose|p: Seq<char>, n: nat| id_prefix(p) && n < next && key == p + decimal(n);
        lemma_decimal_digits(n);
        lemma_decimal_digits(next);
        lemma_split(p, q, decimal(n), decimal(next));
    }
    assert forall|k: Seq<char>| #[trigger] m.contains_key(k) implies fixed_id(k) || minted(k, next + 1) by {
        if !fixed_id(k) {
            let (p, n) = choose|p: Seq<char>, n: nat| id_prefix(p) && n < next && k == p + decimal(n);
            assert(id_prefix(p) && n < next + 1 && k == p + decimal(n));
        }
    }
}

/// Appending to a container keeps the counts in order and marks it.
pub(crate) proof fn lemma_counts_append(
    m: Map<Seq<char>, LibraryObject>,
    m2: Map<Seq<char>, LibraryObject>,
    parent: Seq<char>,
    child: Seq<char>,
    bound: nat,
    touched: Set<Seq<char>>,
    exempt: Seq<char>,
)
    requires
        counts_consistent(m),
        counts_ok(m, bound, touched, exempt),
        is_container_at(m, parent),
        !touched.contains(parent),
        m2.dom() == m.dom(),
        appended(m[parent], m2[parent], child),
        forall|k: Seq<char>| k != parent && #[trigger] m.contains_key(k) ==> m2[k] == m[k],
    ensures
        counts_consistent(m2),
        counts_ok(m2, bound, touched.insert(parent), exempt),
        grows(m, m2),
{
    assert forall|k: Seq<char>| #[trigger] m2.contains_key(k) && m2[k] is Container implies m2[k]->Container_0.child_count
        == m2[k]->Container_0.children@.len() by {
        assert(m.contains_key(k));
    }
    assert forall|k: Seq<char>|
        #[trigger] m2.contains_key(k) && m2[k] is Container && k != exempt implies m2[k]->Container_0.children@.len()
        <= bound + (if touched.insert(parent).contains(k) {
        1nat
    } else {
        0nat
    }) by {
        assert(m.contains_key(k));
    }
    assert forall|k: Seq<char>| #[trigger] is_container_at(m, k) implies is_container_at(m2, k)
        && kept_container(m[k], m2[k]) by {
        if k == parent {
            let x = m[k]->Container_0.children@;
            let y = m2[k]->Container_0.children@;
            assert forall|j: int| 0 <= j < x.len() implies #[trigger] y[j]@ == x[j]@ by {
                assert(y.take(x.len() as int)[j] == y[j]);
            }
        }
    }
    assert forall|k: Seq<char>| #[trigger] is_track_at(m, k) implies m2[k] == m[k] by {}
}

/// Inserting a new, empty container or a track keeps the counts in order.
pub(crate) proof fn lemma_counts_insert(
    m: Map<Seq<char>, LibraryObject>,
    k: Seq<char>,
    obj: LibraryObject,
    bound: nat,
    touched: Set<Seq<char>>,
    exempt: Seq<char>,
)
    requires
        counts_consistent(m),
        counts_ok(m, bound, touched, exempt),
        !m.contains_key(k),
        obj is Container ==> obj->Container_0.children@.len() == 0 && obj->Container_0.child_count == 0,
    ensures
        counts_consistent(m.insert(k, obj)),
        counts_ok(m.insert(k, obj), bound, touched, exempt),
        grows(m, m.insert(k, obj)),
{
    let m2 = m.insert(k, obj);
    assert forall|j: Seq<char>| #[trigger] m2.contains_key(j) && m2[j] is Container implies m2[j]->Container_0.child_count
        == m2[j]->Container_0.children@.len() by {
        if j != k {
            assert(m.contains_key(j));
        }
    }
    assert forall|j: Seq<char>|
        #[trigger] m2.contains_key(j) && m2[j] is Container && j != exempt implies m2[j]->Container_0.children@.len()
        <= bound + (if touched.contains(j) {
        1nat
    } else {
        0nat
    }) by {
        if j != k {
            assert(m.contains_key(j));
        }
    }
    assert forall|j: Seq<char>| #[trigger] is_container_at(m, j) implies is_container_at(m2, j) && kept_container(
        m[j],
        m2[j],
    ) by {}
    assert forall|j: Seq<char>| #[trigger] is_track_at(m, j) implies m2[j] == m[j] by {}
}

/// Keeping every object keeps the find-again maps valid.
pub(crate) proof fn lemma_dedup_grows(
    d: Map<Seq<char>, String>,
    m: Map<Seq<char>, LibraryObject>,
    m2: Map<Seq<char>, LibraryObject>,
    prefix: Seq<char>,
)
    requires
        dedup_ok(d, m, prefix),
        grows(m, m2),
    ensures
        dedup_ok(d, m2, prefix),
{
    assert forall|name: Seq<char>| #[trigger] d.contains_key(name) implies is_container_at(m2, d[name]@) by {
        assert(is_container_at(m, d[name]@));
    }
}

/// `grows` is transitive.
pub(crate) proof fn lemma_grows_trans(
    a: Map<Seq<char>, LibraryObject>,
    b: Map<Seq<char>, LibraryObject>,
    c: Map<Seq<char>, LibraryObject>,
)
    requires
        grows(a, b),
        grows(b, c),
    ensures
        grows(a, c),
{
    assert forall|k: Seq<char>| #[trigger] a.contains_key(k) implies c.contains_key(k) by {
        assert(b.contains_key(k));
    }
    assert forall|k: Seq<char>| #[trigger] is_container_at(a, k) implies is_container_at(c, k)
        && kept_container(a[k], c[k]) by {
        assert(is_container_at(b, k));
        assert(kept_container(a[k], b[k]));
        assert(kept_container(b[k], c[k]));
        assert forall|j: int| 0 <= j < a[k]->Container_0.children@.len() implies #[trigger] c[k]->Container_0.children@[j]@
            == a[k]->Container_0.children@[j]@ by {
            assert(b[k]->Container_0.children@[j]@ == a[k]->Container_0.children@[j]@);
        }
    }
    assert forall|k: Seq<char>| #[trigger] is_track_at(a, k) implies c[k] == a[k] by {
        assert(is_track_at(b, k));
    }
}


/// Find the container a find-again map names under `key`, or create it:
/// a new container with the next id, under `parent`, with the given title
/// and class, listed among the parent's children and remembered under `key`.
/// Storing a new object with a rank above all others keeps children later
/// than their containers.
pub(crate) proof fn lemma_later_insert(
    m: Map<Seq<char>, LibraryObject>,
    rank: Map<Seq<char>, nat>,
    k: Seq<char>,
    obj: LibraryObject,
    n: nat,
)
    requires
        children_later(m, rank),
        !m.contains_key(k),
        forall|x: Seq<char>| #[trigger] m.contains_key(x) ==> rank.contains_key(x) && rank[x] < n,
        obj is Container ==> obj->Container_0.children@.len() == 0,
    ensures
        children_later(m.insert(k, obj), rank.insert(k, n)),
{
    let m2 = m.insert(k, obj);
    let r2 = rank.insert(k, n);
    assert forall|c: Seq<char>, j: int|
        #![trigger m2[c]->Container_0.children@[j]]
        is_container_at(m2, c) && 0 <= j < m2[c]->Container_0.children@.len() && m2.contains_key(
            m2[c]->Container_0.children@[j]@,
        ) implies r2[m2[c]->Container_0.children@[j]@] > r2[c] by {
        if c != k {
            assert(m2[c] == m[c]);
            let ch = m[c]->Container_0.children@[j]@;
            if ch != k {
                assert(m.contains_key(ch));
                assert(rank[ch] > rank[c]);
            }
        }
    }
}

/// Appending a child stored after its container keeps children later than
/// their containers.
pub(crate) proof fn lemma_later_append(
    m: Map<Seq<char>, LibraryObject>,
    m2: Map<Seq<char>, LibraryObject>,
    rank: Map<Seq<char>, nat>,
    parent: Seq<char>,
    child: Seq<char>,
)
    requires
        children_later(m, rank),
        is_container_at(m, parent),
        appended(m[parent], m2[parent], child),
        m2.dom() == m.dom(),
        forall|x: Seq<char>| x != parent && #[trigger] m.contains_key(x) ==> m2[x] == m[x],
        m.contains_key(child) ==> rank[child] > rank[parent],
    ensures
        children_later(m2, rank),
{
    assert forall|c: Seq<char>, j: int|
        #![trigger m2[c]->Container_0.children@[j]]
        is_container_at(m2, c) && 0 <= j < m2[c]->Container_0.children@.len() && m2.contains_key(
            m2[c]->Container_0.children@[j]@,
        ) implies rank[m2[c]->Container_0.children@[j]@] > rank[c] by {
        if c != parent {
            assert(m.contains_key(c));
            assert(m2[c] == m[c]);
        } else {
            let old_kids = m[parent]->Container_0.children@;
            let new_kids = m2[parent]->Container_0.children@;
            if j < old_kids.len() {
                assert(new_kids.take(old_kids.len() as int)[j] == new_kids[j]);
                assert(new_kids[j] == old_kids[j]);
            }
        }
    }
}

/// Whether every track of `b` is a track of `a`.
pub open spec fn tracks_within(a: Map<Seq<char>, LibraryObject>, b: Map<Seq<char>, LibraryObject>) -> bool {
    forall|k: Seq<char>| #[trigger] is_track_at(b, k) ==> is_track_at(a, k)
}

/// A catalog that keeps every object of another and adds only containers
/// holds no new track.
pub(crate) proof fn lemma_tracks_within(a: Map<Seq<char>, LibraryObject>, b: Map<Seq<char>, LibraryObject>)
    requires
        grows(a, b),
        forall|k: Seq<char>| #[trigger] b.contains_key(k) ==> a.contains_key(k) || is_container_at(b, k),
    ensures
        tracks_within(a, b),
{
    assert forall|k: Seq<char>| #[trigger] is_track_at(b, k) implies is_track_at(a, k) by {
        if a.contains_key(k) && a[k] is Container {
            assert(is_container_at(a, k));
        }
    }
}

/// Adding one track, under a fresh id, to a catalog whose tracks are those
/// the sort keys name, each once, keeps that so once the key is pushed.
pub(crate) proof fn lemma_track_keys(
    m0: Map<Seq<char>, LibraryObject>,
    m1: Map<Seq<char>, LibraryObject>,
    m2: Map<Seq<char>, LibraryObject>,
    m3: Map<Seq<char>, LibraryObject>,
    m4: Map<Seq<char>, LibraryObject>,
    m5: Map<Seq<char>, LibraryObject>,
    m8: Map<Seq<char>, LibraryObject>,
    keys0: Seq<(Seq<char>, Seq<char>)>,
    key: Seq<char>,
    tid: Seq<char>,
    track: LibraryObject,
)
    requires
        tracks_within(m0, m1),
        tracks_within(m1, m2),
        tracks_within(m2, m3),
        tracks_within(m3, m4),
        m5 == m4.insert(tid, track),
        tracks_within(m5, m8),
        forall|k: Seq<char>| #[trigger] is_track_at(m0, k) ==> sort_key_ids(keys0).contains(k),
        sort_key_ids(keys0).no_duplicates(),
        forall|i: int| 0 <= i < keys0.len() ==> is_track_at(m0, #[trigger] keys0[i].1),
        !m4.contains_key(tid),
        grows(m0, m4),
    ensures
        forall|k: Seq<char>| #[trigger] is_track_at(m8, k) ==> sort_key_ids(keys0.push((key, tid))).contains(k),
        sort_key_ids(keys0.push((key, tid))).no_duplicates(),
{
    let ids0 = sort_key_ids(keys0);
    let ids = sort_key_ids(keys0.push((key, tid)));
    assert(ids =~= ids0.push(tid));
    assert forall|k: Seq<char>| #[trigger] is_track_at(m8, k) implies ids.contains(k) by {
        assert(is_track_at(m5, k));
        if k == tid {
            assert(ids[ids0.len() as int] == tid);
        } else {
            assert(is_track_at(m4, k));
            assert(is_track_at(m3, k));
            assert(is_track_at(m2, k));
            assert(is_track_at(m1, k));
            assert(is_track_at(m0, k));
            assert(ids0.contains(k));
            let i = choose|i: int| 0 <= i < ids0.len() && ids0[i] == k;
            assert(ids[i] == k);
        }
    }
    assert(!ids0.contains(tid)) by {
        if ids0.contains(tid) {
            let i = choose|i: int| 0 <= i < ids0.len() && ids0[i] == tid;
            assert(keys0[i].1 == tid);
            assert(is_track_at(m0, keys0[i].1));
            assert(m4.contains_key(tid));
        }
    }
    assert forall|i: int, j: int| 0 <= i < ids.len() && 0 <= j < ids.len() && i != j implies ids[i]
        != ids[j] by {
        if i < ids0.len() && j < ids0.len() {
            assert(ids[i] == ids0[i] && ids[j] == ids0[j]);
        } else if i < ids0.len() {
            assert(ids[i] == ids0[i]);
        } else {
            assert(ids[j] == ids0[j]);
        }
    }
}

pub(crate) fn find_or_create(
    store: &mut ObjectStore,
    d: &mut StringHashMap<String>,
    next_id: &mut u64,
    key: &str,
    prefix: &str,
    parent: &str,
    title: &str,
    class: &'static str,
    Ghost(bound): Ghost<nat>,
    Ghost(touched): Ghost<Set<Seq<char>>>,
    Ghost(exempt): Ghost<Seq<char>>,
) -> (id: String)
    requires
        old(store).wf(),
        counts_consistent(old(store)@),
        counts_ok(old(store)@, bound, touched, exempt),
        bound < u32::MAX,
        keys_ok(old(store)@, *old(next_id) as nat),
        *old(next_id) < u64::MAX,
        id_prefix(prefix@),
        dedup_ok(old(d)@, old(store)@, prefix@),
        is_container_at(old(store)@, parent@),
        parent@ != exempt,
        !touched.contains(parent@),
    ensures
        final(store).wf(),
        counts_consistent(final(store)@),
        keys_ok(final(store)@, *final(next_id) as nat),
        dedup_ok(final(d)@, final(store)@, prefix@),
        grows(old(store)@, final(store)@),
        is_container_at(final(store)@, id@),
        crate::text::has_prefix(id@, prefix@) && id@.len() > prefix@.len() && is_digit(
            id@[prefix@.len() as int],
        ),
        final(d)@.contains_key(key@) && final(d)@[key@]@ == id@,
        *old(next_id) <= *final(next_id) <= *old(next_id) + 1,
        children_later(old(store)@, old(store).rank()) ==> children_later(
            final(store)@,
            final(store).rank(),
        ),
        old(d)@.contains_key(key@) ==> final(store).rank() == old(store).rank(),
        !old(d)@.contains_key(key@) ==> final(store).rank() == old(store).rank().insert(
            id@,
            old(store)@.len(),
        ),
        rank_floor(old(store)@, old(store).rank()) ==> rank_floor(final(store)@, final(store).rank()),
        parents_ok(old(d)@, old(store)@, parent@) ==> parents_ok(final(d)@, final(store)@, parent@),
        !old(d)@.contains_key(key@) ==> lists(final(store)@, parent@, id@),
        old(d)@.contains_key(key@) ==> {
            &&& id@ == old(d)@[key@]@
            &&& final(store)@ == old(store)@
            &&& final(d)@ == old(d)@
            &&& *final(next_id) == *old(next_id)
            &&& counts_ok(final(store)@, bound, touched, exempt)
        },
        !old(d)@.contains_key(key@) ==> {
            &&& id@ == prefix@ + decimal(*old(next_id) as nat)
            &&& !old(store)@.contains_key(id@)
            &&& final(d)@ == old(d)@.insert(key@, final(d)@[key@])
            &&& *final(next_id) == *old(next_id) + 1
            &&& container_fields(final(store)@, id@, parent@, title@, class@)
            &&& final(store)@[id@]->Container_0.children@.len() == 0
            &&& appended(old(store)@[parent@], final(store)@[parent@], id@)
            &&& counts_ok(final(store)@, bound, touched.insert(parent@), exempt)
            &&& final(store)@.dom() == old(store)@.dom().insert(id@)
            &&& forall|k: Seq<char>|
                k != parent@ && #[trigger] old(store)@.contains_key(k) ==> final(store)@[k]
                    == old(store)@[k]
        },
{
    match d.get(key) {
        Some(existing) => {
            let id = existing.clone();
            proof {
                assert(is_container_at(store@, id@));
            }
            id
        },
        None => {
            let ghost m0 = store@;
            let ghost n_id = *next_id as nat;
            let id = id_with_prefix(prefix, *next_id);
            proof {
                lemma_fresh(m0, *next_id as nat, prefix@);
                lemma_minted_not_fixed(prefix@, *next_id as nat);
            }
            let obj = new_container(id.as_str(), parent, title, class);
            let ghost r0 = store.rank();
            proof {
                store.lemma_rank();
            }
            store.insert_new(obj);
            let ghost m1 = store@;
            proof {
                if children_later(m0, r0) {
                    lemma_later_insert(m0, r0, id@, obj, m0.len());
                }
                if rank_floor(m0, r0) {
                    lemma_floor_insert(m0, r0, id@, obj, m0.len());
                }
            }
            proof {
                lemma_counts_insert(m0, id@, obj, bound, touched, exempt);
                assert(m1 == m0.insert(id@, obj));
            }
            proof {
                assert(id@ != parent@);
                assert(m1[parent@] == m0[parent@]);
                assert(m1[parent@]->Container_0.child_count == m1[parent@]->Container_0.children@.len());
                assert(m1[parent@]->Container_0.children@.len() <= bound);
            }
            store.add_child(parent, id.as_str());
            let ghost m2 = store@;
            proof {
                if children_later(m0, r0) {
                    assert(m1.contains_key(id@));
                    lemma_later_append(m1, m2, store.rank(), parent@, id@);
                }
                lemma_counts_append(m1, m2, parent@, id@, bound, touched, exempt);
                lemma_grows_trans(m0, m1, m2);
            }
            let ghost d0 = d@;
            d.insert(key.to_owned(), id.clone());
            *next_id = *next_id + 1;
            proof {
                assert(m2.dom() =~= m0.dom().insert(id@));
                assert forall|k: Seq<char>| #[trigger] m2.contains_key(k) implies fixed_id(k) || minted(
                    k,
                    *next_id as nat,
                ) by {
                    if k != id@ {
                        assert(m0.contains_key(k));
                    }
                }
                assert forall|k: Seq<char>|
                    k != parent@ && #[trigger] m0.contains_key(k) implies m2[k] == m0[k] by {
                    assert(m1[k] == m0[k]);
                }
                assert(m1.contains_key(id@));
                assert(m2[id@] == m1[id@]);
                assert(container_fields(m2, id@, parent@, title@, class@));
                lemma_dedup_grows(d0, m0, m2, prefix@);
                assert(minted_as(id@, prefix@)) by {
                    assert(id@ == prefix@ + decimal(n_id));
                }
                if parents_ok(d0, m0, parent@) {
                    lemma_parents_grows(d0, m0, m2, parent@);
                    assert forall|name: Seq<char>| #[trigger] d@.contains_key(name) implies is_container_at(
                        m2,
                        d@[name]@,
                    ) && m2[d@[name]@]->Container_0.parent_id@ == parent@ by {
                        if name != key@ {
                            assert(d0.contains_key(name));
                        }
                    }
                }
                assert forall|name: Seq<char>| #[trigger] d@.contains_key(name) implies is_container_at(
                    m2,
                    d@[name]@,
                ) && crate::text::has_prefix(d@[name]@, prefix@) && d@[name]@.len() > prefix@.len()
                    && is_digit(d@[name]@[prefix@.len() as int]) && minted_as(d@[name]@, prefix@) by {
                    if name != key@ {
                        assert(d0.contains_key(name));
                    }
                }
            }
            id
        },
    }
}

/// `counts_ok` only weakens when more containers count as touched.
pub(crate) proof fn lemma_counts_widen(
    m: Map<Seq<char>, LibraryObject>,
    bound: nat,
    a: Set<Seq<char>>,
    b: Set<Seq<char>>,
    exempt: Seq<char>,
)
    requires
        counts_ok(m, bound, a, exempt),
        a.subset_of(b),
    ensures
        counts_ok(m, bound, b, exempt),
{
    assert forall|k: Seq<char>|
        #[trigger] m.contains_key(k) && m[k] is Container && k != exempt implies m[k]->Container_0.children@.len()
        <= bound + (if b.contains(k) {
        1nat
    } else {
        0nat
    }) by {
        if a.contains(k) {
            assert(b.contains(k));
        }
    }
}

/// Once a track is counted, every container is within the new count.
pub(crate) proof fn lemma_counts_settle(
    m: Map<Seq<char>, LibraryObject>,
    bound: nat,
    touched: Set<Seq<char>>,
    exempt: Seq<char>,
)
    requires
        counts_ok(m, bound, touched, exempt),
    ensures
        counts_ok(m, bound + 1, Set::empty(), exempt),
{
    assert forall|k: Seq<char>|
        #[trigger] m.contains_key(k) && m[k] is Container && k != exempt implies m[k]->Container_0.children@.len()
        <= (bound + 1) + (if Set::<Seq<char>>::empty().contains(k) {
        1nat
    } else {
        0nat
    }) by {}
}

/// The find-again key of an (album artist, album) pair.
pub(crate) fn pair_key_string(a: &str, b: &str) -> (r: String)
    ensures
        r@ == pair_key(a@, b@),
{
    let n = crate::text::chars_of(a).len();
    let mut s = decimal_string(n as u64);
    push_char(&mut s, ':');
    push_str(&mut s, a);
    push_str(&mut s, b);
    s
}

/// The title of an album in the albums view.
fn album_view_title_string(album_artist: &str, album: &str) -> (r: String)
    ensures
        r@ == album_view_title(album_artist@, album@),
{
    if !str_eq(album_artist, "Unknown Artist") {
        let mut s = album_artist.to_owned();
        push_str(&mut s, " — ");
        push_str(&mut s, album);
        s
    } else {
        album.to_owned()
    }
}

pub(crate) fn id_with_prefix(prefix: &str, n: u64) -> (r: String)
    ensures
        r@ == prefix@ + decimal(n as nat),
{
    let mut s = prefix.to_owned();
    let d = decimal_string(n);
    push_str(&mut s, d.as_str());
    s
}

/// Whether the builder's parts agree: the catalog is well formed, counts
/// stay within the number of tracks, every id is fixed or handed out, the
/// find-again maps lead to containers, and the categories exist.
pub open spec fn builder_inv(v: BuilderView, store_ok: bool, artists: Map<Seq<char>, String>, albums: Map<Seq<char>, String>, album_views: Map<Seq<char>, String>, genres: Map<Seq<char>, String>) -> bool {
    &&& store_ok
    &&& counts_consistent(v.objects)
    &&& counts_ok(v.objects, v.total_tracks, Set::empty(), "0"@)
    &&& keys_ok(v.objects, v.next_id)
    &&& 1 <= v.next_id <= 5 * v.total_tracks + 1
    &&& dedup_ok(artists, v.objects, "ar"@)
    &&& dedup_ok(albums, v.objects, "aa"@)
    &&& dedup_ok(album_views, v.objects, "av"@)
    &&& dedup_ok(genres, v.objects, "gr"@)
    &&& is_container_at(v.objects, "0"@)
    &&& is_container_at(v.objects, "vc_artists"@)
    &&& is_container_at(v.objects, "vc_albums"@)
    &&& is_container_at(v.objects, "vc_genres"@)
    &&& is_container_at(v.objects, "vc_all"@)
    &&& is_container_at(v.objects, "vc_search"@)
    &&& v.sort_keys.len() == v.total_tracks
    &&& forall|i: int| 0 <= i < v.sort_keys.len() ==> is_track_at(v.objects, #[trigger] v.sort_keys[i].1)
    &&& forall|i: int|
        0 <= i < v.sort_keys.len() ==> (#[trigger] v.sort_keys[i]).0 == title_key(v.objects, v.sort_keys[i].1)
}

/// The track ids of the sort keys, in order.
pub open spec fn sort_key_ids(keys: Seq<(Seq<char>, Seq<char>)>) -> Seq<Seq<char>> {
    keys.map_values(|p: (Seq<char>, Seq<char>)| p.1)
}

/// The key the list of all tracks is sorted by: the lower-case title of
/// the track.
pub open spec fn title_key(m: Map<Seq<char>, LibraryObject>, id: Seq<char>) -> Seq<char> {
    lowercase(m[id]->Track_0.meta.title@)
}

impl LibraryBuilder {
    /// The builder's parts agree.
    pub closed spec fn inv(&self) -> bool {
        &&& builder_inv(
            self@,
            self.lib.wf(),
            self.artist_ids@,
            self.artist_album_ids@,
            self.album_view_ids@,
            self.genre_ids@,
        )
        &&& self.lib@.all_track_ids.len() == 0
        &&& self.lib@.total_tracks <= u32::MAX
        &&& forall|k: Seq<char>| #[trigger] is_track_at(self@.objects, k) ==> sort_key_ids(
            self@.sort_keys,
        ).contains(k)
        &&& sort_key_ids(self@.sort_keys).no_duplicates()
        &&& parents_ok(self.artist_ids@, self@.objects, "vc_artists"@)
        &&& parents_ok(self.album_view_ids@, self@.objects, "vc_albums"@)
        &&& parents_ok(self.genre_ids@, self@.objects, "vc_genres"@)
        &&& by_name_ok(self.artist_ids@, self@.objects, "vc_artists"@)
        &&& albums_ok(self.artist_album_ids@, self.artist_ids@, self@.objects)
        &&& views_ok(self.album_view_ids@, self@.objects)
        &&& by_name_ok(self.genre_ids@, self@.objects, "vc_genres"@)
        &&& tracks_placed(self@.objects)
        &&& menu_in_place(self@.objects)
        &&& children_resolve(self@.objects)
        &&& groups_inv(self@.objects, self.artist_ids@, self.artist_album_ids@, self.album_view_ids@, self.genre_ids@)
        &&& rank_floor(self.lib.store@, self.lib.store.rank())
    }

    /// Add one scanned file: find or create its artist under the artists
    /// category, its album under that artist, its album in the albums view
    /// and its genre, then create the track under the artist's album and
    /// list it in the album view and the genre. Returns the track's id.
    #[verifier::rlimit(100)]
    #[verifier::spinoff_prover]
    pub fn add_track(&mut self, path: String, meta: TrackMetadata) -> (tid: String)
        requires
            old(self).inv(),
            old(self)@.total_tracks < u32::MAX,
        ensures
            final(self).inv(),
            final(self)@.total_tracks == old(self)@.total_tracks + 1,
            grows(old(self)@.objects, final(self)@.objects),
            !old(self)@.objects.contains_key(tid@),
            is_track_at(final(self)@.objects, tid@),
            final(self)@.objects[tid@]->Track_0.id@ == tid@,
            final(self)@.objects[tid@]->Track_0.path@ == path@,
            final(self)@.objects[tid@]->Track_0.meta == meta,
            final(self)@.artists.contains_key(meta.album_artist@),
            final(self)@.albums.contains_key(pair_key(meta.album_artist@, meta.album@)),
            final(self)@.album_views.contains_key(pair_key(meta.album_artist@, meta.album@)),
            final(self)@.objects[tid@]->Track_0.parent_id@ == final(self)@.albums[pair_key(
                meta.album_artist@,
                meta.album@,
            )],
            is_container_at(final(self)@.objects, final(self)@.objects[tid@]->Track_0.parent_id@),
            final(self)@.objects[final(self)@.objects[tid@]->Track_0.parent_id@]->Container_0.children@.last()@
                == tid@,
            forall|k: Seq<char>|
                #[trigger] is_track_at(final(self)@.objects, k) ==> k == tid@ || is_track_at(old(self)@.objects, k),
            final(self)@.objects[final(self)@.album_views[pair_key(
                meta.album_artist@,
                meta.album@,
            )]]->Container_0.children@.last()@ == tid@,
            match meta.genre {
                Some(g) => final(self)@.genres.contains_key(g@)
                    && final(self)@.objects[final(self)@.genres[g@]]->Container_0.children@.last()@ == tid@,
                None => final(self)@.genres == old(self)@.genres,
            },
            old(self)@.artists.contains_key(meta.album_artist@) ==> final(self)@.artists[meta.album_artist@]
                == old(self)@.artists[meta.album_artist@],
            old(self)@.albums.contains_key(pair_key(meta.album_artist@, meta.album@))
                ==> final(self)@.albums[pair_key(meta.album_artist@, meta.album@)]
                == old(self)@.albums[pair_key(meta.album_artist@, meta.album@)],
            final(self)@.sort_keys == old(self)@.sort_keys.push((lowercase(meta.title@), tid@)),
            minted_as(tid@, "t"@),
            minted_as(final(self)@.artists[meta.album_artist@], "ar"@),
            minted_as(final(self)@.albums[pair_key(meta.album_artist@, meta.album@)], "aa"@),
            minted_as(final(self)@.album_views[pair_key(meta.album_artist@, meta.album@)], "av"@),
            match meta.genre {
                Some(g) => minted_as(final(self)@.genres[g@], "gr"@),
                None => true,
            },
            final(self)@.objects[final(self)@.artists[meta.album_artist@]]->Container_0.parent_id@
                == "vc_artists"@,
            final(self)@.objects[final(self)@.album_views[pair_key(
                meta.album_artist@,
                meta.album@,
            )]]->Container_0.parent_id@ == "vc_albums"@,
            match meta.genre {
                Some(g) => final(self)@.objects[final(self)@.genres[g@]]->Container_0.parent_id@
                    == "vc_genres"@,
                None => true,
            },
    {
        let ghost t = self.lib.total_tracks as nat;
        let ghost n0 = self.next_id as nat;
        let ghost m0 = self.lib.store@;
        let ghost e: Set<Seq<char>> = Set::empty();
        proof {
            reveal_strlit("0");
            reveal_strlit("vc_artists");
            reveal_strlit("vc_albums");
            reveal_strlit("vc_genres");
            lemma_known_prefixes();
            assert("vc_artists"@[0] == 'v' && "vc_albums"@[0] == 'v' && "vc_genres"@[0] == 'v');
            assert("vc_albums"@[4] != "vc_artists"@[4]);
            assert("vc_genres"@[3] != "vc_artists"@[3] && "vc_genres"@[3] != "vc_albums"@[3]);
        }
        // Artist view: vc_artists -> artist.
        let ghost aa = meta.album_artist@;
        let ghost al = meta.album@;
        let ghost gkey: Seq<char> = if meta.genre is Some {
            meta.genre->0@
        } else {
            Seq::empty()
        };
        let ghost ar0 = self.artist_ids@;
        let ghost al0 = self.artist_album_ids@;
        let ghost vw0 = self.album_view_ids@;
        let ghost gn0 = self.genre_ids@;
        let ghost had1 = self.artist_ids@.contains_key(meta.album_artist@);
        let artist_id = find_or_create(
            &mut self.lib.store,
            &mut self.artist_ids,
            &mut self.next_id,
            meta.album_artist.as_str(),
            "ar",
            "vc_artists",
            meta.album_artist.as_str(),
            "object.container.person.musicArtist",
            Ghost(t),
            Ghost(e),
            Ghost("0"@),
        );
        let ghost m1 = self.lib.store@;
        let ghost s1 = e.insert("vc_artists"@);
        proof {
            if had1 {
                lemma_counts_widen(m1, t, e, s1, "0"@);
            } else {
                lemma_counts_widen(m1, t, e.insert("vc_artists"@), s1, "0"@);
            }
            lemma_dedup_grows(self.artist_album_ids@, m0, m1, "aa"@);
            lemma_tracks_within(m0, m1);
            lemma_parents_grows(self.album_view_ids@, m0, m1, "vc_albums"@);
            lemma_parents_grows(self.genre_ids@, m0, m1, "vc_genres"@);
            lemma_dedup_grows(self.album_view_ids@, m0, m1, "av"@);
            lemma_dedup_grows(self.genre_ids@, m0, m1, "gr"@);
        }
        // Artist view: artist -> album.
        proof {
            lemma_by_name_step(ar0, self.artist_ids@, m0, m1, "vc_artists"@, aa);
            lemma_albums_step(al0, al0, ar0, self.artist_ids@, m0, m1, aa, al);
            lemma_views_step(vw0, vw0, m0, m1, aa, al);
            lemma_by_name_step(gn0, gn0, m0, m1, "vc_genres"@, gkey);
            lemma_tracks_placed_grows(m0, m1);
            assert(m1["0"@] == m0["0"@]);
        }
        let ghost ar1 = self.artist_ids@;
        let pair = pair_key_string(meta.album_artist.as_str(), meta.album.as_str());
        let ghost had2 = self.artist_album_ids@.contains_key(pair@);
        let album_id = find_or_create(
            &mut self.lib.store,
            &mut self.artist_album_ids,
            &mut self.next_id,
            pair.as_str(),
            "aa",
            artist_id.as_str(),
            meta.album.as_str(),
            "object.container.album.musicAlbum",
            Ghost(t),
            Ghost(s1),
            Ghost("0"@),
        );
        let ghost m2 = self.lib.store@;
        let ghost s2 = s1.insert(artist_id@);
        proof {
            if had2 {
                lemma_counts_widen(m2, t, s1, s2, "0"@);
            } else {
                lemma_counts_widen(m2, t, s1.insert(artist_id@), s2, "0"@);
            }
            lemma_dedup_grows(self.artist_ids@, m1, m2, "ar"@);
            lemma_tracks_within(m1, m2);
            lemma_parents_grows(self.artist_ids@, m1, m2, "vc_artists"@);
            lemma_parents_grows(self.album_view_ids@, m1, m2, "vc_albums"@);
            lemma_parents_grows(self.genre_ids@, m1, m2, "vc_genres"@);
            lemma_dedup_grows(self.album_view_ids@, m1, m2, "av"@);
            lemma_dedup_grows(self.genre_ids@, m1, m2, "gr"@);
        }
        proof {
            lemma_prefix_at(artist_id@, "ar"@, 0);
            assert(artist_id@[0] == 'a');
            assert(artist_id@ != "0"@);
            lemma_albums_step(al0, self.artist_album_ids@, ar1, ar1, m1, m2, aa, al);
            lemma_by_name_step(ar1, ar1, m1, m2, "vc_artists"@, aa);
            lemma_views_step(vw0, vw0, m1, m2, aa, al);
            lemma_by_name_step(gn0, gn0, m1, m2, "vc_genres"@, gkey);
            lemma_tracks_placed_grows(m1, m2);
            assert(m2["0"@] == m1["0"@]);
        }
        let ghost al2 = self.artist_album_ids@;
        // Albums view: vc_albums -> album.
        let view_title = album_view_title_string(meta.album_artist.as_str(), meta.album.as_str());
        let ghost had3 = self.album_view_ids@.contains_key(pair@);
        let view_id = find_or_create(
            &mut self.lib.store,
            &mut self.album_view_ids,
            &mut self.next_id,
            pair.as_str(),
            "av",
            "vc_albums",
            view_title.as_str(),
            "object.container.album.musicAlbum",
            Ghost(t),
            Ghost(s2),
            Ghost("0"@),
        );
        let ghost m3 = self.lib.store@;
        let ghost s3 = s2.insert("vc_albums"@);
        proof {
            if had3 {
                lemma_counts_widen(m3, t, s2, s3, "0"@);
            } else {
                lemma_counts_widen(m3, t, s2.insert("vc_albums"@), s3, "0"@);
            }
            lemma_dedup_grows(self.artist_ids@, m2, m3, "ar"@);
            lemma_tracks_within(m2, m3);
            lemma_parents_grows(self.artist_ids@, m2, m3, "vc_artists"@);
            lemma_parents_grows(self.genre_ids@, m2, m3, "vc_genres"@);
            lemma_dedup_grows(self.artist_album_ids@, m2, m3, "aa"@);
            lemma_dedup_grows(self.genre_ids@, m2, m3, "gr"@);
        }
        proof {
            lemma_views_step(vw0, self.album_view_ids@, m2, m3, aa, al);
            lemma_albums_step(al2, al2, ar1, ar1, m2, m3, aa, al);
            lemma_by_name_step(ar1, ar1, m2, m3, "vc_artists"@, aa);
            lemma_by_name_step(gn0, gn0, m2, m3, "vc_genres"@, gkey);
            lemma_tracks_placed_grows(m2, m3);
            assert(m3["0"@] == m2["0"@]);
        }
        let ghost vw3 = self.album_view_ids@;
        // Genres view: vc_genres -> genre.
        let ghost had4 = meta.genre is None || self.genre_ids@.contains_key(meta.genre->0@);
        let genre_id: Option<String> = match &meta.genre {
            Some(g) => Some(
                find_or_create(
                    &mut self.lib.store,
                    &mut self.genre_ids,
                    &mut self.next_id,
                    g.as_str(),
                    "gr",
                    "vc_genres",
                    g.as_str(),
                    "object.container.genre.musicGenre",
                    Ghost(t),
                    Ghost(s3),
                    Ghost("0"@),
                ),
            ),
            None => None,
        };
        let ghost m4 = self.lib.store@;
        let ghost s4 = s3.insert("vc_genres"@);
        proof {
            if had4 {
                lemma_counts_widen(m4, t, s3, s4, "0"@);
            } else {
                lemma_counts_widen(m4, t, s3.insert("vc_genres"@), s4, "0"@);
            }
            if genre_id is None {
                assert(m4 == m3);
            }
            lemma_dedup_grows(self.artist_ids@, m3, m4, "ar"@);
            lemma_tracks_within(m3, m4);
            lemma_parents_grows(self.artist_ids@, m3, m4, "vc_artists"@);
            lemma_parents_grows(self.album_view_ids@, m3, m4, "vc_albums"@);
            lemma_dedup_grows(self.artist_album_ids@, m3, m4, "aa"@);
            lemma_dedup_grows(self.album_view_ids@, m3, m4, "av"@);
        }
        proof {
            lemma_by_name_step(gn0, self.genre_ids@, m3, m4, "vc_genres"@, gkey);
            lemma_views_step(vw3, vw3, m3, m4, aa, al);
            lemma_albums_step(al2, al2, ar1, ar1, m3, m4, aa, al);
            lemma_by_name_step(ar1, ar1, m3, m4, "vc_artists"@, aa);
            lemma_tracks_placed_grows(m3, m4);
            assert(m4["0"@] == m3["0"@]);
        }
        // The track itself, under the artist's album.
        let tid = id_with_prefix("t", self.next_id);
        proof {
            lemma_fresh(m4, self.next_id as nat, "t"@);
            lemma_minted_not_fixed("t"@, self.next_id as nat);
            lemma_prefix_at(tid@, "t"@, 0);
        }
        let sort_key = to_lower(meta.title.as_str());
        let track = LibraryObject::Track(
            Track { id: tid.clone(), parent_id: album_id.clone(), path, meta },
        );
        let ghost r4 = self.lib.store.rank();
        proof {
            self.lib.store.lemma_rank();
        }
        self.lib.store.insert_new(track);
        let ghost m5 = self.lib.store@;
        let ghost r5 = self.lib.store.rank();
        proof {
            lemma_later_insert(m4, r4, tid@, track, m4.len());
            lemma_floor_insert(m4, r4, tid@, track, m4.len());
            lemma_counts_insert(m4, tid@, track, t, s4, "0"@);
            lemma_dedup_grows(self.artist_ids@, m4, m5, "ar"@);
            lemma_dedup_grows(self.artist_album_ids@, m4, m5, "aa"@);
            lemma_dedup_grows(self.album_view_ids@, m4, m5, "av"@);
            lemma_dedup_grows(self.genre_ids@, m4, m5, "gr"@);
            lemma_prefix_at(album_id@, "aa"@, 0);
            lemma_prefix_at(album_id@, "aa"@, 1);
            assert(album_id@[0] == 'a' && album_id@[1] == 'a');
            assert(album_id@ != "0"@);
            assert(!s4.contains(album_id@));
            assert(is_container_at(m2, album_id@));
            assert(is_container_at(m3, album_id@));
            assert(is_container_at(m4, album_id@));
            assert(is_container_at(m5, album_id@));
        }
        self.lib.store.add_child(album_id.as_str(), tid.as_str());
        let ghost m6 = self.lib.store@;
        let ghost s5 = s4.insert(album_id@);
        proof {
            assert(m4.contains_key(album_id@));
            lemma_later_append(m5, m6, r5, album_id@, tid@);
            assert(m6.dom() == m5.dom());
            lemma_counts_append(m5, m6, album_id@, tid@, t, s4, "0"@);
            lemma_prefix_at(view_id@, "av"@, 0);
            lemma_prefix_at(view_id@, "av"@, 1);
            assert(view_id@[0] == 'a' && view_id@[1] == 'v');
            assert(!s5.contains(view_id@));
            assert(view_id@ != "0"@);
            assert(is_container_at(m4, view_id@));
            assert(is_container_at(m5, view_id@));
            assert(is_container_at(m6, view_id@));
        }
        self.lib.store.add_child(view_id.as_str(), tid.as_str());
        let ghost m7 = self.lib.store@;
        let ghost s6 = s5.insert(view_id@);
        proof {
            assert(m4.contains_key(view_id@));
            lemma_later_append(m6, m7, r5, view_id@, tid@);
            lemma_counts_append(m6, m7, view_id@, tid@, t, s5, "0"@);
        }
        match &genre_id {
            Some(gid) => {
                proof {
                    lemma_prefix_at(gid@, "gr"@, 0);
                    assert(gid@[0] == 'g');
                    assert(!s6.contains(gid@));
                    assert(gid@ != "0"@);
                    assert(is_container_at(m5, gid@));
                    assert(is_container_at(m6, gid@));
                    assert(is_container_at(m7, gid@));
                }
                self.lib.store.add_child(gid.as_str(), tid.as_str());
                proof {
                    assert(m4.contains_key(gid@));
                    lemma_later_append(m7, self.lib.store@, r5, gid@, tid@);
                    lemma_counts_append(m7, self.lib.store@, gid@, tid@, t, s6, "0"@);
                    lemma_counts_settle(self.lib.store@, t, s6.insert(gid@), "0"@);
                }
            },
            None => {
                proof {
                    lemma_counts_settle(m7, t, s6, "0"@);
                }
            },
        }
        let ghost m8 = self.lib.store@;
        let ghost keys0 = pairs_view(self.all_tracks@);
        self.all_tracks.push((sort_key, tid.clone()));
        self.next_id = self.next_id + 1;
        self.lib.total_tracks = self.lib.total_tracks + 1;
        proof {
            // The store only grew.
            lemma_grows_trans(m0, m1, m2);
            lemma_grows_trans(m0, m2, m3);
            lemma_grows_trans(m0, m3, m4);
            lemma_grows_trans(m0, m4, m5);
            lemma_grows_trans(m0, m5, m6);
            lemma_grows_trans(m0, m6, m7);
            lemma_grows_trans(m0, m7, m8);
            lemma_grows_trans(m5, m6, m7);
            lemma_grows_trans(m5, m7, m8);
            lemma_dedup_grows(self.artist_ids@, m5, m8, "ar"@);
            lemma_dedup_grows(self.artist_album_ids@, m5, m8, "aa"@);
            lemma_dedup_grows(self.album_view_ids@, m5, m8, "av"@);
            lemma_dedup_grows(self.genre_ids@, m5, m8, "gr"@);
            // The track is in place.
            assert(m5[tid@] == track);
            assert(m5.contains_key(tid@));
            assert(tid@[0] == 't');
            assert(m6[tid@] == m5[tid@]);
            assert(m6.contains_key(tid@));
            assert(m7[tid@] == m6[tid@]);
            assert(m7.contains_key(tid@));
            assert(m8[tid@] == m7[tid@]);
            // Its album lists it last, and so do the album view and genre.
            assert(m6[album_id@]->Container_0.children@.last()@ == tid@);
            assert(m6.contains_key(album_id@));
            assert(m7[album_id@] == m6[album_id@]);
            assert(m7.contains_key(album_id@));
            assert(m8[album_id@] == m7[album_id@]);
            assert(m7[view_id@]->Container_0.children@.last()@ == tid@);
            assert(m7.contains_key(view_id@));
            assert(m8[view_id@] == m7[view_id@]);
            // Every id is still fixed or handed out.
            assert forall|k: Seq<char>| #[trigger] m8.contains_key(k) implies fixed_id(k) || minted(
                k,
                self.next_id as nat,
            ) by {
                if k != tid@ {
                    assert(m4.contains_key(k));
                }
            }
            // The sort keys name tracks.
            assert(pairs_view(self.all_tracks@) =~= keys0.push((sort_key@, tid@)));
            // Each track is named by one sort key.
            assert(m8.dom() =~= m5.dom());
            lemma_tracks_within(m5, m8);
            lemma_track_keys(m0, m1, m2, m3, m4, m5, m8, keys0, sort_key@, tid@, track);
            assert forall|k: Seq<char>| #[trigger] is_track_at(m8, k) implies k == tid@ || is_track_at(m0, k) by {
                assert(is_track_at(m5, k));
                if k != tid@ {
                    assert(is_track_at(m4, k));
                    assert(is_track_at(m3, k));
                    assert(is_track_at(m2, k));
                    assert(is_track_at(m1, k));
                }
            }
            lemma_grows_trans(m4, m5, m8);
            lemma_parents_grows(self.artist_ids@, m4, m8, "vc_artists"@);
            lemma_parents_grows(self.album_view_ids@, m4, m8, "vc_albums"@);
            lemma_parents_grows(self.genre_ids@, m4, m8, "vc_genres"@);
            // The new track is placed, and the rest stays placed.
            let ac = m8[album_id@]->Container_0.children@;
            assert(ac[ac.len() - 1]@ == tid@);
            let vc = m8[view_id@]->Container_0.children@;
            assert(vc[vc.len() - 1]@ == tid@);
            if meta.genre is Some {
                let gc = m8[genre_id->0@]->Container_0.children@;
                assert(gc[gc.len() - 1]@ == tid@);
            }
            lemma_track_new(m4, m8, tid@, ar1, al2, vw3, self.genre_ids@);
            lemma_by_name_step(ar1, ar1, m4, m8, "vc_artists"@, aa);
            lemma_albums_step(al2, al2, ar1, ar1, m4, m8, aa, al);
            lemma_views_step(vw3, vw3, m4, m8, aa, al);
            lemma_by_name_step(self.genre_ids@, self.genre_ids@, m4, m8, "vc_genres"@, gkey);
            assert(m8["0"@] == m0["0"@]);
            lemma_menu_grows(m0, m8);
            assert forall|i: int| 0 <= i < pairs_view(self.all_tracks@).len() implies is_track_at(
                m8,
                #[trigger] pairs_view(self.all_tracks@)[i].1,
            ) by {
                if i < keys0.len() {
                    assert(is_track_at(m0, keys0[i].1));
                }
            }
            assert forall|i: int| 0 <= i < pairs_view(self.all_tracks@).len() implies (
            #[trigger] pairs_view(self.all_tracks@)[i]).0 == title_key(
                m8,
                pairs_view(self.all_tracks@)[i].1,
            ) by {
                if i < keys0.len() {
                    assert(keys0[i].0 == title_key(m0, keys0[i].1));
                    assert(is_track_at(m0, keys0[i].1));
                    assert(m8[keys0[i].1] == m0[keys0[i].1]);
                }
            }
        }
        // The groups: the steps above, one after the other.
        proof {
            lemma_found_step(m0, m1, had1, "vc_artists"@, artist_id@);
            lemma_found_step(m1, m2, had2, artist_id@, album_id@);
            lemma_found_step(m2, m3, had3, "vc_albums"@, view_id@);
            if genre_id is Some {
                lemma_found_step(m3, m4, had4, "vc_genres"@, genre_id->0@);
            } else {
                lemma_same_step(m3, tid@, tid@);
            }
            lemma_insert_step(m4, tid@, track);
            lemma_child_step(m5, m6, album_id@, tid@);
            lemma_child_step(m6, m7, view_id@, tid@);
            if genre_id is Some {
                lemma_child_step(m7, m8, genre_id->0@, tid@);
            } else {
                lemma_same_step(m7, tid@, tid@);
            }
        }
        proof {
            assert(groups_inv(
                m8,
                self.artist_ids@,
                self.artist_album_ids@,
                self.album_view_ids@,
                self.genre_ids@,
            )) by {
                let gp: Seq<char> = if genre_id is Some {
                    "vc_genres"@
                } else {
                    tid@
                };
                let gc: Seq<char> = if genre_id is Some {
                    genre_id->0@
                } else {
                    tid@
                };
                let ms = seq![m0, m1, m2, m3, m4, m5, m6, m7, m8];
                let ps = seq!["vc_artists"@, artist_id@, "vc_albums"@, gp, tid@, album_id@, view_id@, gc];
                let cs = seq![artist_id@, album_id@, view_id@, gc, tid@, tid@, tid@, tid@];
                assert(ms[0] == m0 && ms[1] == m1 && ms[2] == m2 && ms[3] == m3 && ms[4] == m4);
                assert(ms[5] == m5 && ms[6] == m6 && ms[7] == m7 && ms[8] == m8);
                assert forall|j: int| 0 <= j < ps.len() implies step_ok(ms[j], ms[j + 1], #[trigger] ps[j], cs[j]) by {
                    if j == 0 {
                    } else if j == 1 {
                    } else if j == 2 {
                    } else if j == 3 {
                    } else if j == 4 {
                    } else if j == 5 {
                    } else if j == 6 {
                    } else {
                    }
                }
                lemma_groups_add(
                    ms,
                    ps,
                    cs,
                    ar0,
                    self.artist_ids@,
                    al0,
                    self.artist_album_ids@,
                    vw0,
                    self.album_view_ids@,
                    gn0,
                    self.genre_ids@,
                    tid@,
                );
            }
        }
        tid
    }

    /// Finish the catalog: sort the tracks by lower-case title, keeping
    /// tracks with equal titles in scan order, and list them under "All
    /// Tracks" and in the search order.
    #[verifier::spinoff_prover]
    pub fn finish(self) -> (lib: Library)
        requires
            self.inv(),
        ensures
            lib.wf(),
            lib@.total_tracks == self@.total_tracks,
            lib@.objects.dom() == self@.objects.dom(),
            is_container_at(self@.objects, "vc_all"@),
            forall|k: Seq<char>|
                k != "vc_all"@ && #[trigger] self@.objects.contains_key(k) ==> lib@.objects[k]
                    == self@.objects[k],
            is_container_at(lib@.objects, "vc_all"@),
            strings_view(lib@.objects["vc_all"@]->Container_0.children@) == lib@.all_track_ids,
            lib@.objects["vc_all"@]->Container_0.title@ == self@.objects["vc_all"@]->Container_0.title@,
            lib@.objects["vc_all"@]->Container_0.parent_id@ == self@.objects["vc_all"@]->Container_0.parent_id@,
            lib@.all_track_ids.len() == self@.sort_keys.len(),
            forall|i: int|
                0 <= i < lib@.all_track_ids.len() ==> sort_key_ids(self@.sort_keys).contains(
                    #[trigger] lib@.all_track_ids[i],
                ),
            forall|p: int|
                0 <= p < self@.sort_keys.len() ==> lib@.all_track_ids.contains(
                    #[trigger] self@.sort_keys[p].1,
                ),
            forall|i: int, j: int|
                0 <= i < j < lib@.all_track_ids.len() ==> lex_le(
                    title_key(lib@.objects, lib@.all_track_ids[i]),
                    title_key(lib@.objects, lib@.all_track_ids[j]),
                ),
            forall|i: int, j: int|
                #![trigger lib@.all_track_ids[i], lib@.all_track_ids[j]]
                0 <= i < j < lib@.all_track_ids.len() && title_key(lib@.objects, lib@.all_track_ids[i])
                    == title_key(lib@.objects, lib@.all_track_ids[j]) ==> exists|p: int, q: int|
                    #![trigger self@.sort_keys[p], self@.sort_keys[q]]
                    0 <= p < q < self@.sort_keys.len() && self@.sort_keys[p].1 == lib@.all_track_ids[i]
                        && self@.sort_keys[q].1 == lib@.all_track_ids[j],
            forall|k: Seq<char>| #[trigger] is_track_at(lib@.objects, k) <==> lib@.all_track_ids.contains(k),
            lib@.all_track_ids.no_duplicates(),
            lib@.total_tracks == lib@.all_track_ids.len(),
            counts_consistent(lib@.objects),
            menu_in_place(lib@.objects),
            tracks_placed(lib@.objects),
            children_resolve(lib@.objects),
            grouped(lib@.objects),
    {
        let LibraryBuilder { lib, next_id, artist_ids, artist_album_ids, album_view_ids, genre_ids, all_tracks } = self;
        let ghost m = lib.store@;
        let ghost keys = pairs_view(all_tracks@);
        let mut pairs = all_tracks;
        let ghost before = pairs@;
        sort_by_first(&mut pairs);
        let ghost sorted = pairs@;
        let mut ids: Vec<String> = Vec::new();
        let mut kids: Vec<String> = Vec::new();
        let mut i: usize = 0;
        while i < pairs.len()
            invariant
                i <= pairs@.len(),
                pairs@ == sorted,
                ids@.len() == i,
                kids@.len() == i,
                forall|j: int| 0 <= j < i ==> #[trigger] ids@[j]@ == sorted[j].1@ && kids@[j]@ == sorted[j].1@,
            decreases pairs.len() - i,
        {
            let a = pairs[i].1.clone();
            let b = pairs[i].1.clone();
            proof {
                assert(a@ == sorted[i as int].1@);
            }
            ids.push(a);
            kids.push(b);
            i = i + 1;
        }
        let count = ids.len() as u32;
        let mut lib = lib;
        let ghost kv = kids@;
        let ghost iv = ids@;
        lib.store.set_children("vc_all", kids, count);
        lib.all_track_ids = ids;
        proof {
            reveal_strlit("vc_all");
            let ls = lib.store@;
            assert(strings_view(kv) =~= strings_view(lib.all_track_ids@));
            assert forall|k: Seq<char>| #[trigger] ls.contains_key(k) && ls[k] is Container implies ls[k]->Container_0.child_count
                == ls[k]->Container_0.children@.len() by {
                if k != "vc_all"@ {
                    assert(m.contains_key(k));
                }
            }
            assert forall|c: Seq<char>, j: int|
                #![trigger ls[c]->Container_0.children@[j]]
                is_container_at(ls, c) && 0 <= j < ls[c]->Container_0.children@.len() && ls.contains_key(
                    ls[c]->Container_0.children@[j]@,
                ) implies lib.store.rank()[ls[c]->Container_0.children@[j]@] > lib.store.rank()[c] by {
                if c != "vc_all"@ {
                    assert(m.contains_key(c));
                    assert(ls[c] == m[c]);
                    let ch = m[c]->Container_0.children@[j]@;
                    assert(m.contains_key(ch));
                } else {
                    let ch = kv[j]@;
                    assert(iv[j]@ == sorted[j].1@);
                    assert(ch == sorted[j].1@);
                    assert(sorted.contains(sorted[j]));
                    assert(sorted.to_multiset().count(sorted[j]) > 0);
                    let p = choose|p: int| 0 <= p < before.len() && before[p] == sorted[j];
                    assert(keys[p].1 == ch);
                    assert(is_track_at(m, ch));
                    if fixed_id(ch) {
                        assert(is_container_at(m, ch));
                    }
                    assert(!fixed_id(ch));
                }
            }
            let idv = strings_view(lib.all_track_ids@);
            assert forall|a: int| 0 <= a < idv.len() implies sort_key_ids(keys).contains(
                #[trigger] idv[a],
            ) by {
                assert(sorted.contains(sorted[a]));
                assert(sorted.to_multiset().count(sorted[a]) > 0);
                assert(before.contains(sorted[a]));
                let p = choose|p: int| 0 <= p < before.len() && before[p] == sorted[a];
                assert(keys[p].1 == before[p].1@);
                assert(sort_key_ids(keys)[p] == idv[a]);
            }
            assert forall|p: int| 0 <= p < keys.len() implies idv.contains(#[trigger] keys[p].1) by {
                assert(before.contains(before[p]));
                assert(before.to_multiset().count(before[p]) > 0);
                assert(sorted.contains(before[p]));
                let a = choose|a: int| 0 <= a < sorted.len() && sorted[a] == before[p];
                assert(idv[a] == sorted[a].1@);
            }
            assert forall|a: int, b: int| 0 <= a < b < idv.len() implies lex_le(
                title_key(ls, idv[a]),
                title_key(ls, idv[b]),
            ) by {
                assert(lex_le(sorted[a].0@, sorted[b].0@));
                assert(sorted.contains(sorted[a]));
                assert(sorted.to_multiset().count(sorted[a]) > 0);
                let p = choose|p: int| 0 <= p < before.len() && before[p] == sorted[a];
                assert(sorted.contains(sorted[b]));
                assert(sorted.to_multiset().count(sorted[b]) > 0);
                let q = choose|q: int| 0 <= q < before.len() && before[q] == sorted[b];
                assert(keys[p] == (sorted[a].0@, sorted[a].1@));
                assert(keys[q] == (sorted[b].0@, sorted[b].1@));
                assert(keys[p].0 == title_key(m, keys[p].1));
                assert(keys[q].0 == title_key(m, keys[q].1));
                assert(is_track_at(m, keys[p].1));
                assert(is_track_at(m, keys[q].1));
                assert(keys[p].1 != "vc_all"@);
                assert(keys[q].1 != "vc_all"@);
                assert(ls[keys[p].1] == m[keys[p].1]);
                assert(ls[keys[q].1] == m[keys[q].1]);
            }
            // Equal titles keep the order in which the tracks were added.
            assert forall|a: int, b: int|
                #![trigger idv[a], idv[b]]
                0 <= a < b < idv.len() && title_key(ls, idv[a]) == title_key(ls, idv[b]) implies exists|
                p: int,
                q: int,
            |
                #![trigger keys[p], keys[q]]
                0 <= p < q < keys.len() && keys[p].1 == idv[a] && keys[q].1 == idv[b] by {
                assert(sorted.contains(sorted[a]));
                assert(sorted.to_multiset().count(sorted[a]) > 0);
                let p0 = choose|p: int| 0 <= p < before.len() && before[p] == sorted[a];
                assert(sorted.contains(sorted[b]));
                assert(sorted.to_multiset().count(sorted[b]) > 0);
                let q0 = choose|q: int| 0 <= q < before.len() && before[q] == sorted[b];
                assert(keys[p0] == (sorted[a].0@, sorted[a].1@));
                assert(keys[q0] == (sorted[b].0@, sorted[b].1@));
                assert(keys[p0].0 == title_key(m, keys[p0].1));
                assert(keys[q0].0 == title_key(m, keys[q0].1));
                assert(is_track_at(m, keys[p0].1));
                assert(is_track_at(m, keys[q0].1));
                assert(keys[p0].1 != "vc_all"@);
                assert(keys[q0].1 != "vc_all"@);
                assert(ls[keys[p0].1] == m[keys[p0].1]);
                assert(ls[keys[q0].1] == m[keys[q0].1]);
                assert(idv[a] == sorted[a].1@);
                assert(idv[b] == sorted[b].1@);
                assert(sorted[a].0@ == sorted[b].0@);
                let (p, q) = choose|p: int, q: int|
                    0 <= p < q < before.len() && before[p] == sorted[a] && before[q] == sorted[b];
                assert(keys[p].1 == idv[a]);
                assert(keys[q].1 == idv[b]);
            }
            lemma_shape_apart(m, ls);
            // No track is listed twice.
            let kid = sort_key_ids(keys);
            assert forall|a: int, b: int| 0 <= a < idv.len() && 0 <= b < idv.len() && a != b implies idv[a]
                != idv[b] by {
                if idv[a] == idv[b] {
                    let x = if a < b { a } else { b };
                    let y = if a < b { b } else { a };
                    assert(title_key(ls, idv[x]) == title_key(ls, idv[y]));
                    let (p, q) = choose|p: int, q: int|
                        0 <= p < q < keys.len() && keys[p].1 == idv[x] && keys[q].1 == idv[y];
                    assert(kid[p] == kid[q]);
                }
            }
            // The listed ids are exactly the tracks.
            assert forall|k: Seq<char>| #[trigger] is_track_at(ls, k) <==> idv.contains(k) by {
                if is_track_at(ls, k) {
                    assert(k != "vc_all"@);
                    assert(m.contains_key(k));
                    assert(ls[k] == m[k]);
                    assert(is_track_at(m, k));
                    assert(kid.contains(k));
                    let p = choose|p: int| 0 <= p < kid.len() && kid[p] == k;
                    assert(keys[p].1 == k);
                    assert(idv.contains(keys[p].1));
                }
                if idv.contains(k) {
                    let a = choose|a: int| 0 <= a < idv.len() && idv[a] == k;
                    assert(kid.contains(idv[a]));
                    let p = choose|p: int| 0 <= p < kid.len() && kid[p] == k;
                    assert(keys[p].1 == k);
                    assert(is_track_at(m, k));
                    assert(k != "vc_all"@);
                    assert(ls[k] == m[k]);
                }
            }
            // Every child names an object: "All Tracks" lists tracks.
            assert forall|c: Seq<char>, j: int|
                #![trigger ls[c]->Container_0.children@[j]]
                is_container_at(ls, c) && 0 <= j < ls[c]->Container_0.children@.len() implies ls.contains_key(
                    ls[c]->Container_0.children@[j]@,
                ) by {
                if c == "vc_all"@ {
                    assert(idv[j] == ls[c]->Container_0.children@[j]@);
                    assert(idv.contains(idv[j]));
                    assert(is_track_at(ls, idv[j]));
                } else {
                    assert(m.contains_key(c));
                    assert(ls[c] == m[c]);
                    assert(m.contains_key(m[c]->Container_0.children@[j]@));
                }
            }
            lemma_groups_apart(m, ls, artist_ids@, artist_album_ids@, album_view_ids@, genre_ids@);
        }
        lib
    }

    /// A builder holding the empty catalog.
    pub fn new() -> (r: Self)
        ensures
            r.inv(),
            crate::library::initial_layout(r@.objects),
            r@.total_tracks == 0,
            r@.next_id == 1,
            r@.artists == Map::<Seq<char>, Seq<char>>::empty(),
            r@.albums == Map::<Seq<char>, Seq<char>>::empty(),
            r@.album_views == Map::<Seq<char>, Seq<char>>::empty(),
            r@.genres == Map::<Seq<char>, Seq<char>>::empty(),
            r@.sort_keys.len() == 0,
    {
        let lib = Library::new();
        let r = LibraryBuilder {
            lib,
            next_id: 1,
            artist_ids: StringHashMap::new(),
            artist_album_ids: StringHashMap::new(),
            album_view_ids: StringHashMap::new(),
            genre_ids: StringHashMap::new(),
            all_tracks: Vec::new(),
        };
        proof {
            let m = r@.objects;
            reveal_strlit("0");
            assert forall|k: Seq<char>| #[trigger] m.contains_key(k) implies fixed_id(k) || minted(k, 1) by {}
            assert(ids_view(r.artist_ids@) =~= Map::empty());
            assert(ids_view(r.artist_album_ids@) =~= Map::empty());
            assert(ids_view(r.album_view_ids@) =~= Map::empty());
            assert(ids_view(r.genre_ids@) =~= Map::empty());
            assert(pairs_view(r.all_tracks@) =~= Seq::empty());
            assert(groups_inv(m, r.artist_ids@, r.artist_album_ids@, r.album_view_ids@, r.genre_ids@)) by {
                reveal(groups_inv);
                reveal_strlit("vc_artists");
                reveal_strlit("vc_albums");
                reveal_strlit("vc_genres");
                assert(strings_view(m["vc_artists"@]->Container_0.children@) =~= Seq::empty());
                assert(strings_view(m["vc_albums"@]->Container_0.children@) =~= Seq::empty());
                assert(strings_view(m["vc_genres"@]->Container_0.children@) =~= Seq::empty());
                assert forall|k: Seq<char>| !is_track_at(m, k) by {
                    if m.contains_key(k) {
                        assert(fixed_id(k));
                    }
                }
            }
        }
        r
    }
}

/// Whether `k` is the track of a scanned file: its path and tags.
pub open spec fn from_entry(m: Map<Seq<char>, LibraryObject>, k: Seq<char>, e: (String, TrackMetadata)) -> bool {
    is_track_at(m, k) && m[k]->Track_0.path@ == e.0@ && m[k]->Track_0.meta == e.1
}

/// The catalog of the scanned files, in the order they were found: each
/// file becomes one track, and "All Tracks" lists every track once, sorted
/// by lower-case title.
#[verifier::rlimit(40)]
pub fn scan_entries(entries: Vec<(String, TrackMetadata)>) -> (lib: Library)
    requires
        entries@.len() <= u32::MAX,
    ensures
        lib.wf(),
        lib@.total_tracks == entries@.len(),
        forall|i: int|
            0 <= i < entries@.len() ==> has_track_for(lib@.objects, #[trigger] entries@[i].0@, entries@[i].1),
        forall|k: Seq<char>|
            #[trigger] is_track_at(lib@.objects, k) ==> exists|i: int|
                0 <= i < entries@.len() && lib@.objects[k]->Track_0.path@ == (#[trigger] entries@[i]).0@
                    && lib@.objects[k]->Track_0.meta == entries@[i].1,
        forall|k: Seq<char>| #[trigger] is_track_at(lib@.objects, k) <==> lib@.all_track_ids.contains(k),
        lib@.all_track_ids.no_duplicates(),
        lib@.total_tracks == lib@.all_track_ids.len(),
        forall|i: int, j: int|
            0 <= i < j < lib@.all_track_ids.len() ==> lex_le(
                title_key(lib@.objects, lib@.all_track_ids[i]),
                title_key(lib@.objects, lib@.all_track_ids[j]),
            ),
        forall|i: int, j: int|
            #![trigger lib@.all_track_ids[i], lib@.all_track_ids[j]]
            0 <= i < j < lib@.all_track_ids.len() && title_key(lib@.objects, lib@.all_track_ids[i])
                == title_key(lib@.objects, lib@.all_track_ids[j]) ==> exists|p: int, q: int|
                #![trigger entries@[p], entries@[q]]
                0 <= p < q < entries@.len() && from_entry(lib@.objects, lib@.all_track_ids[i], entries@[p])
                    && from_entry(lib@.objects, lib@.all_track_ids[j], entries@[q]),
        is_container_at(lib@.objects, "vc_all"@),
        strings_view(lib@.objects["vc_all"@]->Container_0.children@) == lib@.all_track_ids,
        counts_consistent(lib@.objects),
        menu_in_place(lib@.objects),
        tracks_placed(lib@.objects),
        children_resolve(lib@.objects),
        grouped(lib@.objects),
{
    let ghost n = entries@.len();
    let ghost es = entries@;
    let mut rest = entries;
    let mut rev: Vec<(String, TrackMetadata)> = Vec::new();
    while rest.len() > 0
        invariant
            rest@.len() + rev@.len() == n,
            n == es.len(),
            rest@ == es.take(rest@.len() as int),
            forall|j: int| 0 <= j < rev@.len() ==> #[trigger] rev@[j] == es[n - 1 - j],
        decreases rest@.len(),
    {
        let ghost r0 = rest@;
        let e = rest.pop().unwrap();
        proof {
            assert(rest@ =~= es.take(rest@.len() as int));
            assert(e == r0[r0.len() - 1]);
        }
        rev.push(e);
    }
    let mut b = LibraryBuilder::new();
    while rev.len() > 0
        invariant
            b.inv(),
            b@.total_tracks + rev@.len() == n,
            n == es.len(),
            n <= u32::MAX,
            forall|j: int| 0 <= j < rev@.len() ==> #[trigger] rev@[j] == es[n - 1 - j],
            forall|i: int|
                0 <= i < n - rev@.len() ==> has_track_for(b@.objects, #[trigger] es[i].0@, es[i].1),
            forall|k: Seq<char>|
                #[trigger] is_track_at(b@.objects, k) ==> exists|i: int|
                    0 <= i < n - rev@.len() && b@.objects[k]->Track_0.path@ == (#[trigger] es[i]).0@
                        && b@.objects[k]->Track_0.meta == es[i].1,
            b@.sort_keys.len() == n - rev@.len(),
            forall|p: int| 0 <= p < n - rev@.len() ==> #[trigger] from_entry(b@.objects, b@.sort_keys[p].1, es[p]),
        decreases rev@.len(),
    {
        let ghost before = b@.objects;
        let ghost keys_before = b@.sort_keys;
        let ghost done = n - rev@.len();
        let ghost v0 = rev@;
        let (path, meta) = rev.pop().unwrap();
        proof {
            assert(v0[v0.len() - 1] == es[done]);
        }
        let tid = b.add_track(path, meta);
        proof {
            assert forall|i: int| 0 <= i < n - rev@.len() implies has_track_for(
                b@.objects,
                #[trigger] es[i].0@,
                es[i].1,
            ) by {
                if i < done {
                    assert(has_track_for(before, es[i].0@, es[i].1));
                    let k = choose|k: Seq<char>|
                        #[trigger] is_track_at(before, k) && before[k]->Track_0.path@ == es[i].0@
                            && before[k]->Track_0.meta == es[i].1;
                    assert(b@.objects[k] == before[k]);
                    assert(is_track_at(b@.objects, k));
                } else {
                    assert(is_track_at(b@.objects, tid@));
                }
            }
            assert forall|k: Seq<char>| #[trigger] is_track_at(b@.objects, k) implies exists|i: int|
                0 <= i < n - rev@.len() && b@.objects[k]->Track_0.path@ == (#[trigger] es[i]).0@
                    && b@.objects[k]->Track_0.meta == es[i].1 by {
                if k == tid@ {
                    assert(es[done].0@ == b@.objects[k]->Track_0.path@);
                } else {
                    assert(is_track_at(before, k));
                    let i = choose|i: int|
                        0 <= i < done && before[k]->Track_0.path@ == (#[trigger] es[i]).0@
                            && before[k]->Track_0.meta == es[i].1;
                    assert(b@.objects[k] == before[k]);
                    assert(0 <= i < n - rev@.len());
                }
            }
            assert forall|p: int| 0 <= p < n - rev@.len() implies #[trigger] from_entry(
                b@.objects,
                b@.sort_keys[p].1,
                es[p],
            ) by {
                if p < done {
                    assert(from_entry(before, keys_before[p].1, es[p]));
                    assert(b@.sort_keys[p] == keys_before[p]);
                    assert(b@.objects[keys_before[p].1] == before[keys_before[p].1]);
                } else {
                    assert(b@.sort_keys[p].1 == tid@);
                }
            }
        }
    }
    let ghost last = b@.objects;
    let ghost keys = b@.sort_keys;
    let lib = b.finish();
    proof {
        assert forall|i: int| 0 <= i < n implies has_track_for(lib@.objects, #[trigger] es[i].0@, es[i].1) by {
            assert(has_track_for(last, es[i].0@, es[i].1));
            let k = choose|k: Seq<char>|
                #[trigger] is_track_at(last, k) && last[k]->Track_0.path@ == es[i].0@ && last[k]->Track_0.meta
                    == es[i].1;
            assert(k != "vc_all"@);
            assert(lib@.objects[k] == last[k]);
            assert(is_track_at(lib@.objects, k));
        }
        assert forall|k: Seq<char>| #[trigger] is_track_at(lib@.objects, k) implies exists|i: int|
            0 <= i < n && lib@.objects[k]->Track_0.path@ == (#[trigger] es[i]).0@ && lib@.objects[k]->Track_0.meta
                == es[i].1 by {
            assert(lib@.objects.contains_key(k));
            assert(last.contains_key(k));
            assert(k != "vc_all"@);
            assert(lib@.objects[k] == last[k]);
            assert(is_track_at(last, k));
        }
        let all = lib@.all_track_ids;
        assert forall|i: int, j: int|
            #![trigger all[i], all[j]]
            0 <= i < j < all.len() && title_key(lib@.objects, all[i]) == title_key(lib@.objects, all[j])
                implies exists|p: int, q: int|
                #![trigger es[p], es[q]]
                0 <= p < q < es.len() && from_entry(lib@.objects, all[i], es[p]) && from_entry(
                    lib@.objects,
                    all[j],
                    es[q],
                ) by {
            let (p, q) = choose|p: int, q: int|
                #![trigger keys[p], keys[q]]
                0 <= p < q < keys.len() && keys[p].1 == all[i] && keys[q].1 == all[j];
            assert(from_entry(last, keys[p].1, es[p]));
            assert(from_entry(last, keys[q].1, es[q]));
            assert(keys[p].1 != "vc_all"@);
            assert(keys[q].1 != "vc_all"@);
            assert(lib@.objects[keys[p].1] == last[keys[p].1]);
            assert(lib@.objects[keys[q].1] == last[keys[q].1]);
        }
    }
    lib
}

} // verus!
