//! Playlists: the store that keeps them, where added tracks go, and how a
//! playlist's tracks are listed.

use vstd::prelude::*;

verus! {

/// The store of playlists, a database at `path`.
#[derive(Debug)]
pub struct PlaylistStore {
    path: String,
}

impl PlaylistStore {
    /// The store kept at `path`; the application creates its tables before
    /// it is used.
    pub fn new(path: &str) -> (r: Self)
        ensures
            r.path()@ == path@,
    {
        PlaylistStore { path: path.to_owned() }
    }

    /// Where the store's database lives.
    pub closed spec fn path(&self) -> String {
        self.path
    }

    /// Where the store's database lives.
    pub fn path_str(&self) -> (r: &str)
        ensures
            r@ == self.path()@,
    {
        self.path.as_str()
    }
}

/// The positions added tracks take: one after another, after the last
/// position in use (`max_pos`, -1 for an empty playlist).
pub fn insert_positions(max_pos: i64, count: usize) -> (r: Vec<i64>)
    requires
        count <= i64::MAX,
        max_pos + count < i64::MAX,
    ensures
        r@.len() == count,
        forall|i: int| 0 <= i < count ==> #[trigger] r@[i] == max_pos + 1 + i,
{
    let mut r: Vec<i64> = Vec::new();
    let mut i: usize = 0;
    while i < count
        invariant
            i <= count,
            count <= i64::MAX,
            max_pos + count < i64::MAX,
            r@.len() == i,
            forall|j: int| 0 <= j < i ==> #[trigger] r@[j] == max_pos + 1 + j,
        decreases count - i,
    {
        let k = i as i64;
        r.push(max_pos + 1 + k);
        i = i + 1;
    }
    r
}

/// A track of a playlist and its place in it.
#[derive(Debug, Clone)]
pub struct PlaylistTrackEntry {
    pub track_id: String,
    pub position: usize,
}

/// A playlist's tracks, in order, each with its place.
pub fn playlist_tracks(track_ids: &Vec<String>) -> (r: Vec<PlaylistTrackEntry>)
    ensures
        r@.len() == track_ids@.len(),
        forall|i: int| 0 <= i < r@.len() ==> #[trigger] r@[i].track_id@ == track_ids@[i]@ && r@[i].position == i,
{
    let mut r: Vec<PlaylistTrackEntry> = Vec::new();
    let mut i: usize = 0;
    while i < track_ids.len()
        invariant
            i <= track_ids@.len(),
            r@.len() == i,
            forall|j: int| 0 <= j < i ==> #[trigger] r@[j].track_id@ == track_ids@[j]@ && r@[j].position == j,
        decreases track_ids.len() - i,
    {
        r.push(PlaylistTrackEntry { track_id: track_ids[i].clone(), position: i });
        i = i + 1;
    }
    r
}

} // verus!
