//! The objects of a media library (tracks and the containers that group
//! them) and the store that keeps them by id.

use vstd::prelude::*;

use vstd::hash_map::StringHashMap;

verus! {

broadcast use vstd::seq_lib::group_seq_properties;

/// The tags and properties of one audio file.
///
/// `duration` is in milliseconds.
#[derive(Debug, Clone)]
pub struct TrackMetadata {
    pub title: String,
    pub artist: String,
    pub album: String,
    pub album_artist: String,
    pub track_number: Option<u32>,
    pub disc_number: Option<u32>,
    pub duration: Option<u64>,
    pub genre: Option<String>,
    pub year: Option<u32>,
    pub mime_type: String,
    pub size_bytes: u64,
    pub sample_rate: Option<u32>,
    pub bit_depth: Option<u8>,
    pub channels: Option<u8>,
}

/// A track in the library.
#[derive(Debug)]
pub struct Track {
    pub id: String,
    pub parent_id: String,
    pub path: String,
    pub meta: TrackMetadata,
}

/// A container: the root, a virtual category, an artist, an album or a
/// genre.
#[derive(Debug)]
pub struct Container {
    pub id: String,
    pub parent_id: String,
    pub title: String,
    pub children: Vec<String>,
    pub child_count: u32,
    pub upnp_class: &'static str,
}

/// Either a container or a track.
#[derive(Debug)]
pub enum LibraryObject {
    Container(Container),
    Track(Track),
}

/// The id of an object.
pub open spec fn object_id(o: LibraryObject) -> Seq<char> {
    match o {
        LibraryObject::Container(c) => c.id@,
        LibraryObject::Track(t) => t.id@,
    }
}

/// The parent id of an object.
pub open spec fn object_parent(o: LibraryObject) -> Seq<char> {
    match o {
        LibraryObject::Container(c) => c.parent_id@,
        LibraryObject::Track(t) => t.parent_id@,
    }
}

impl LibraryObject {
    /// The id of the object's parent.
    pub fn parent_id(&self) -> (r: &str)
        ensures
            r@ == object_parent(*self),
    {
        match self {
            LibraryObject::Container(c) => c.parent_id.as_str(),
            LibraryObject::Track(t) => t.parent_id.as_str(),
        }
    }

    /// The object's own id.
    pub fn id(&self) -> (r: &str)
        ensures
            r@ == object_id(*self),
    {
        match self {
            LibraryObject::Container(c) => c.id.as_str(),
            LibraryObject::Track(t) => t.id.as_str(),
        }
    }
}

/// Whether `m` holds a container under `id`.
pub open spec fn is_container_at(m: Map<Seq<char>, LibraryObject>, id: Seq<char>) -> bool {
    m.contains_key(id) && m[id] is Container
}

/// Whether `m` holds a track under `id`.
pub open spec fn is_track_at(m: Map<Seq<char>, LibraryObject>, id: Seq<char>) -> bool {
    m.contains_key(id) && m[id] is Track
}

/// Whether `m` holds a track for the file at `path` with these tags.
pub open spec fn has_track_for(m: Map<Seq<char>, LibraryObject>, path: Seq<char>, meta: TrackMetadata) -> bool {
    exists|k: Seq<char>|
        #[trigger] is_track_at(m, k) && m[k]->Track_0.path@ == path && m[k]->Track_0.meta == meta
}

/// The objects that the children of the container `id` name, in order,
/// skipping ids that name nothing; empty when `id` is no container.
pub open spec fn children_spec(m: Map<Seq<char>, LibraryObject>, id: Seq<char>) -> Seq<LibraryObject> {
    if is_container_at(m, id) {
        let kids = m[id]->Container_0.children@;
        kids.filter(|s: String| m.contains_key(s@)).map_values(|s: String| m[s@])
    } else {
        Seq::empty()
    }
}

/// Whether container `b` is container `a` with `child` appended.
pub open spec fn appended(a: LibraryObject, b: LibraryObject, child: Seq<char>) -> bool {
    match (a, b) {
        (LibraryObject::Container(x), LibraryObject::Container(y)) => {
            &&& y.id@ == x.id@
            &&& y.parent_id@ == x.parent_id@
            &&& y.title@ == x.title@
            &&& y.upnp_class@ == x.upnp_class@
            &&& y.children@.len() == x.children@.len() + 1
            &&& y.children@.take(x.children@.len() as int) == x.children@
            &&& y.children@.last()@ == child
            &&& y.child_count == x.child_count + 1
        },
        _ => false,
    }
}

/// Objects kept by id.
pub struct ObjectStore {
    objects: Vec<LibraryObject>,
    index: StringHashMap<usize>,
}

impl View for ObjectStore {
    type V = Map<Seq<char>, LibraryObject>;

    closed spec fn view(&self) -> Map<Seq<char>, LibraryObject> {
        Map::new(
            |k: Seq<char>| self.index@.contains_key(k),
            |k: Seq<char>| self.objects@[self.index@[k] as int],
        )
    }
}

impl ObjectStore {
    /// The store's index and its objects agree: each id leads to the object
    /// with that id, and each object is reached from its own id.
    pub closed spec fn wf(&self) -> bool {
        &&& forall|k: Seq<char>|
            #[trigger] self.index@.contains_key(k) ==> (self.index@[k] as int) < self.objects@.len()
                && object_id(self.objects@[self.index@[k] as int]) == k
        &&& forall|i: int|
            0 <= i < self.objects@.len() ==> self.index@.contains_key(
                object_id(#[trigger] self.objects@[i]),
            ) && self.index@[object_id(self.objects@[i])] == i
    }

    /// The order in which objects were stored: the first one has rank 0.
    pub closed spec fn rank(&self) -> Map<Seq<char>, nat> {
        Map::new(|k: Seq<char>| self.index@.contains_key(k), |k: Seq<char>| self.index@[k] as nat)
    }

    /// Ranks are given to exactly the stored ids, and each is below the
    /// number of objects.
    pub proof fn lemma_rank(&self)
        requires
            self.wf(),
        ensures
            self.rank().dom() == self@.dom(),
            self@.dom().finite(),
            forall|k: Seq<char>| #[trigger] self@.contains_key(k) ==> self.rank()[k] < self@.len(),
            forall|a: Seq<char>, b: Seq<char>|
                #[trigger] self@.contains_key(a) && #[trigger] self@.contains_key(b) && a != b
                    ==> self.rank()[a] != self.rank()[b],
    {
        self.lemma_len();
        assert(self.rank().dom() =~= self@.dom());
    }

    /// Every object is stored under its own id.
    pub proof fn lemma_ids(&self)
        requires
            self.wf(),
        ensures
            forall|k: Seq<char>| #[trigger] self@.contains_key(k) ==> object_id(self@[k]) == k,
    {
    }

    /// An empty store.
    pub fn new() -> (s: Self)
        ensures
            s.wf(),
            s@ == Map::<Seq<char>, LibraryObject>::empty(),
            s.rank() == Map::<Seq<char>, nat>::empty(),
    {
        let s = ObjectStore { objects: Vec::new(), index: StringHashMap::new() };
        assert(s@ =~= Map::<Seq<char>, LibraryObject>::empty());
        assert(s.rank() =~= Map::<Seq<char>, nat>::empty());
        s
    }

    /// Whether an object is stored under `id`.
    pub fn contains(&self, id: &str) -> (r: bool)
        requires
            self.wf(),
        ensures
            r == self@.contains_key(id@),
    {
        self.index.contains_key(id)
    }

    /// The object stored under `id`.
    pub fn get(&self, id: &str) -> (r: Option<&LibraryObject>)
        requires
            self.wf(),
        ensures
            match r {
                Some(o) => self@.contains_key(id@) && *o == self@[id@],
                None => !self@.contains_key(id@),
            },
    {
        match self.index.get(id) {
            Some(i) => Some(&self.objects[*i]),
            None => None,
        }
    }

    /// Store an object under its id, which must be new.
    pub fn insert_new(&mut self, obj: LibraryObject)
        requires
            old(self).wf(),
            !old(self)@.contains_key(object_id(obj)),
        ensures
            final(self).wf(),
            final(self)@ == old(self)@.insert(object_id(obj), obj),
            final(self).rank() == old(self).rank().insert(object_id(obj), old(self)@.len()),
    {
        let ghost k = object_id(obj);
        proof {
            self.lemma_len();
        }
        let id: String = match &obj {
            LibraryObject::Container(c) => c.id.clone(),
            LibraryObject::Track(t) => t.id.clone(),
        };
        let n = self.objects.len();
        self.objects.push(obj);
        self.index.insert(id, n);
        proof {
            assert forall|j: int| 0 <= j < self.objects@.len() implies self.index@.contains_key(
                object_id(#[trigger] self.objects@[j]),
            ) && self.index@[object_id(self.objects@[j])] == j by {
                if j < n {
                    assert(object_id(self.objects@[j]) != k);
                }
            }
        }
        assert(self@ =~= old(self)@.insert(k, obj));
        assert(self.rank() =~= old(self).rank().insert(k, old(self)@.len()));
    }

    /// The store has as many objects as ids.
    proof fn lemma_len(&self)
        requires
            self.wf(),
        ensures
            self@.len() == self.objects@.len(),
            self@.dom() == self.index@.dom(),
            self@.dom().finite(),
    {
        assert(self@.dom() =~= self.index@.dom());
        let ids = self.objects@.map_values(|o: LibraryObject| object_id(o));
        assert forall|i: int, j: int| 0 <= i < j < ids.len() implies ids[i] != ids[j] by {
            assert(self.index@[object_id(self.objects@[i])] == i);
            assert(self.index@[object_id(self.objects@[j])] == j);
        }
        assert(ids.no_duplicates());
        assert(ids.to_set() =~= self.index@.dom()) by {
            assert forall|k: Seq<char>| ids.to_set().contains(k) <==> self.index@.dom().contains(k) by {
                if self.index@.dom().contains(k) {
                    assert(ids[self.index@[k] as int] == k);
                }
            }
        }
        ids.unique_seq_to_set();
        vstd::seq_lib::seq_to_set_is_finite(ids);
    }

    /// Append `child` to the children of the container `parent`, counting
    /// it; nothing happens when `parent` is no container.
    pub fn add_child(&mut self, parent: &str, child: &str)
        requires
            old(self).wf(),
            is_container_at(old(self)@, parent@) ==> old(self)@[parent@]->Container_0.child_count
                < u32::MAX,
        ensures
            final(self).wf(),
            final(self)@.dom() == old(self)@.dom(),
            final(self).rank() == old(self).rank(),
            is_container_at(old(self)@, parent@) ==> appended(
                old(self)@[parent@],
                final(self)@[parent@],
                child@,
            ),
            !is_container_at(old(self)@, parent@) ==> final(self)@ == old(self)@,
            forall|k: Seq<char>|
                k != parent@ && #[trigger] old(self)@.contains_key(k) ==> final(self)@[k]
                    == old(self)@[k],
    {
        match self.index.get(parent) {
            Some(i) => {
                let i = *i;
                let ghost before = self.objects@;
                let o = &mut self.objects[i];
                match o {
                    LibraryObject::Container(c) => {
                        c.children.push(child.to_owned());
                        c.child_count = c.child_count + 1;
                    },
                    LibraryObject::Track(_) => {},
                }
                proof {
                    assert(object_id(self.objects@[i as int]) == object_id(before[i as int]));
                    assert forall|j: int| 0 <= j < self.objects@.len() implies self.index@.contains_key(
                        object_id(#[trigger] self.objects@[j]),
                    ) && self.index@[object_id(self.objects@[j])] == j by {
                        if j != i {
                            assert(self.objects@[j] == before[j]);
                        }
                    }
                    assert(self@.dom() =~= old(self)@.dom());
                    assert forall|k: Seq<char>|
                        k != parent@ && #[trigger] old(self)@.contains_key(k) implies self@[k]
                        == old(self)@[k] by {
                        assert(self.index@[k] != i);
                    }
                    assert(self.rank() =~= old(self).rank());
                    if !is_container_at(old(self)@, parent@) {
                        assert(self@ =~= old(self)@);
                    } else {
                        let y = self.objects@[i as int]->Container_0;
                        assert(y.children@.take(y.children@.len() - 1) =~= before[i as int]->Container_0.children@);
                    }
                }
            },
            None => {},
        }
    }

    /// Replace the children of the container `id` (and their count); nothing
    /// happens when `id` is no container.
    pub fn set_children(&mut self, id: &str, children: Vec<String>, count: u32)
        requires
            old(self).wf(),
        ensures
            final(self).wf(),
            final(self)@.dom() == old(self)@.dom(),
            final(self).rank() == old(self).rank(),
            is_container_at(old(self)@, id@) ==> {
                let x = old(self)@[id@]->Container_0;
                let y = final(self)@[id@]->Container_0;
                &&& final(self)@[id@] is Container
                &&& y.id@ == x.id@
                &&& y.parent_id@ == x.parent_id@
                &&& y.title@ == x.title@
                &&& y.upnp_class@ == x.upnp_class@
                &&& y.children@ == children@
                &&& y.child_count == count
            },
            !is_container_at(old(self)@, id@) ==> final(self)@ == old(self)@,
            forall|k: Seq<char>|
                k != id@ && #[trigger] old(self)@.contains_key(k) ==> final(self)@[k] == old(self)@[k],
    {
        match self.index.get(id) {
            Some(i) => {
                let i = *i;
                let ghost before = self.objects@;
                let o = &mut self.objects[i];
                match o {
                    LibraryObject::Container(c) => {
                        c.children = children;
                        c.child_count = count;
                    },
                    LibraryObject::Track(_) => {},
                }
                proof {
                    assert(object_id(self.objects@[i as int]) == object_id(before[i as int]));
                    assert forall|j: int| 0 <= j < self.objects@.len() implies self.index@.contains_key(
                        object_id(#[trigger] self.objects@[j]),
                    ) && self.index@[object_id(self.objects@[j])] == j by {
                        if j != i {
                            assert(self.objects@[j] == before[j]);
                        }
                    }
                    assert(self@.dom() =~= old(self)@.dom());
                    assert forall|k: Seq<char>|
                        k != id@ && #[trigger] old(self)@.contains_key(k) implies self@[k]
                        == old(self)@[k] by {
                        assert(self.index@[k] != i);
                    }
                    assert(self.rank() =~= old(self).rank());
                    if !is_container_at(old(self)@, id@) {
                        assert(self@ =~= old(self)@);
                    }
                }
            },
            None => {},
        }
    }

    /// The objects the children of the container `id` name, in order; ids
    /// that name nothing are skipped.
    pub fn children_of(&self, id: &str) -> (r: Vec<&LibraryObject>)
        requires
            self.wf(),
        ensures
            r@.map_values(|o: &LibraryObject| *o) == children_spec(self@, id@),
    {
        let mut r: Vec<&LibraryObject> = Vec::new();
        match self.get(id) {
            Some(LibraryObject::Container(c)) => {
                let ghost m = self@;
                let ghost kids = c.children@;
                let mut i: usize = 0;
                while i < c.children.len()
                    invariant
                        self.wf(),
                        m == self@,
                        kids == c.children@,
                        i <= kids.len(),
                        r@.map_values(|o: &LibraryObject| *o) == kids.take(i as int).filter(
                            |s: String| m.contains_key(s@),
                        ).map_values(|s: String| m[s@]),
                    decreases c.children.len() - i,
                {
                    let ghost prev = r@.map_values(|o: &LibraryObject| *o);
                    proof {
                        reveal(Seq::filter);
                        assert(kids.take(i + 1).drop_last() =~= kids.take(i as int));
                    }
                    match self.get(c.children[i].as_str()) {
                        Some(o) => {
                            let ghost ov = *o;
                            r.push(o);
                            proof {
                                let f = kids.take(i + 1).filter(|s: String| m.contains_key(s@));
                                let g = kids.take(i as int).filter(|s: String| m.contains_key(s@));
                                assert(f == g.push(kids[i as int]));
                                assert(ov == m[kids[i as int]@]);
                                assert(r@.map_values(|o: &LibraryObject| *o) =~= prev.push(ov));
                                assert(f.map_values(|s: String| m[s@]) =~= g.map_values(
                                    |s: String| m[s@],
                                ).push(m[kids[i as int]@]));
                                assert(r@.map_values(|o: &LibraryObject| *o) =~= f.map_values(
                                    |s: String| m[s@],
                                ));
                            }
                        },
                        None => {
                            proof {
                                let f = kids.take(i + 1).filter(|s: String| m.contains_key(s@));
                                let g = kids.take(i as int).filter(|s: String| m.contains_key(s@));
                                assert(f == g);
                            }
                        },
                    }
                    i = i + 1;
                }
                assert(kids.take(kids.len() as int) =~= kids);
            },
            _ => {
                assert(r@.map_values(|o: &LibraryObject| *o) =~= Seq::<LibraryObject>::empty());
            },
        }
        r
    }

    /// How many objects the store holds.
    pub fn len(&self) -> (r: usize)
        requires
            self.wf(),
        ensures
            r == self@.len(),
    {
        proof {
            self.lemma_len();
        }
        self.objects.len()
    }
}

} // verus!
