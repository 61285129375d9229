//! Server-side play queue for one playback target: track list, play position,
//! shuffle and repeat modes.

use rand::seq::SliceRandom;
use vstd::prelude::*;

use crate::models::QueueTrackResponse;
use crate::text::str_eq;

verus! {

broadcast use vstd::seq_lib::group_seq_properties;

/// The abstract state of a queue.
pub struct QueueState {
    pub tracks: Seq<QueueTrackResponse>,
    pub position: nat,
    pub shuffle_mode: Seq<char>,
    pub repeat_mode: Seq<char>,
    pub shuffle_order: Seq<usize>,
}

/// Server-side queue for a single playback target.
#[derive(Debug)]
pub struct PlayQueue {
    tracks: Vec<QueueTrackResponse>,
    position: usize,
    shuffle_mode: String,
    repeat_mode: String,
    shuffle_order: Vec<usize>,
}

impl View for PlayQueue {
    type V = QueueState;

    closed spec fn view(&self) -> QueueState {
        QueueState {
            tracks: self.tracks@,
            position: self.position as nat,
            shuffle_mode: self.shuffle_mode@,
            repeat_mode: self.repeat_mode@,
            shuffle_order: self.shuffle_order@,
        }
    }
}

/// The shuffle order as a rebuild leaves it: empty when shuffling is off or
/// the queue is empty, else an ordering of every track index that starts at
/// the playing track when that one exists.
pub open spec fn order_fresh(s: QueueState) -> bool {
    if s.shuffle_mode == "off"@ || s.tracks.len() == 0 {
        s.shuffle_order.len() == 0
    } else {
        &&& s.shuffle_order.len() == s.tracks.len()
        &&& forall|i: usize| i < s.tracks.len() ==> #[trigger] s.shuffle_order.contains(i)
        &&& s.position < s.tracks.len() ==> s.shuffle_order[0] == s.position
    }
}

/// The track at a position, if the position is inside the queue.
pub open spec fn track_at(tracks: Seq<QueueTrackResponse>, pos: nat) -> Option<QueueTrackResponse> {
    if pos < tracks.len() {
        Some(tracks[pos as int])
    } else {
        None
    }
}

/// Where `add_tracks` puts new tracks: right after the playing one for
/// `"next"`, at the end otherwise.
pub open spec fn added_tracks(
    old_tracks: Seq<QueueTrackResponse>,
    pos: nat,
    new_tracks: Seq<QueueTrackResponse>,
    where_: Seq<char>,
) -> Seq<QueueTrackResponse> {
    if where_ == "next"@ {
        let at: int = if pos + 1 < old_tracks.len() { (pos + 1) as int } else { old_tracks.len() as int };
        old_tracks.take(at) + new_tracks + old_tracks.skip(at)
    } else {
        old_tracks + new_tracks
    }
}

/// The position after removing the track at `index` from a queue that then
/// holds `new_len` tracks.
pub open spec fn removed_position(pos: nat, index: nat, new_len: nat) -> nat {
    let p = if pos > 0 && index < pos { (pos - 1) as nat } else { pos };
    if p >= new_len && new_len > 0 {
        (new_len - 1) as nat
    } else {
        p
    }
}

/// A sequence with the element at `from` taken out and put back at `to`.
pub open spec fn moved<T>(s: Seq<T>, from: int, to: int) -> Seq<T> {
    s.remove(from).insert(to, s[from])
}

/// The position after moving the track at `from` to `to`: it follows the
/// playing track.
pub open spec fn moved_position(pos: nat, from: nat, to: nat) -> nat {
    if pos == from {
        to
    } else if from < pos && to >= pos {
        (pos - 1) as nat
    } else if from > pos && to <= pos {
        pos + 1
    } else {
        pos
    }
}

/// The position after `advance`, and whether `advance` hands back a track.
pub open spec fn advance_step(pos: nat, len: nat, repeat: Seq<char>) -> (nat, bool) {
    if len == 0 {
        (pos, false)
    } else if repeat == "track"@ {
        (pos, pos < len)
    } else if repeat == "all"@ {
        (((pos + 1) % len) as nat, true)
    } else if pos + 1 < len {
        (pos + 1, true)
    } else {
        (pos, false)
    }
}

/// The position after `go_back`.
pub open spec fn back_position(pos: nat, len: nat, repeat: Seq<char>) -> nat {
    if len == 0 {
        pos
    } else if pos > 0 {
        (pos - 1) as nat
    } else if repeat == "all"@ {
        (len - 1) as nat
    } else {
        pos
    }
}

/// Shuffles indices in place (rand's `SliceRandom::shuffle` with the thread
/// generator). The outcome is random; what holds of every outcome is that it
/// is a permutation of the input, which is what Fisher-Yates swapping keeps.
#[verifier::external_body]
fn shuffle_indices(v: &mut Vec<usize>)
    ensures
        final(v)@.to_multiset() =~= old(v)@.to_multiset(),
        final(v)@.len() == old(v)@.len(),
{
    let mut rng = rand::rng();
    v.as_mut_slice().shuffle(&mut rng);
}

impl PlayQueue {
    /// An empty queue with shuffle and repeat off.
    pub fn new() -> (q: Self)
        ensures
            q@.tracks.len() == 0,
            q@.position == 0,
            q@.shuffle_mode == "off"@,
            q@.repeat_mode == "off"@,
            q@.shuffle_order.len() == 0,
    {
        PlayQueue {
            tracks: Vec::new(),
            position: 0,
            shuffle_mode: String::from_str("off"),
            repeat_mode: String::from_str("off"),
            shuffle_order: Vec::new(),
        }
    }

    /// Replace the whole queue and start at `start_index`.
    pub fn set_tracks(&mut self, tracks: Vec<QueueTrackResponse>, start_index: usize)
        ensures
            final(self)@.tracks == tracks@,
            final(self)@.position == start_index,
            final(self)@.shuffle_mode == old(self)@.shuffle_mode,
            final(self)@.repeat_mode == old(self)@.repeat_mode,
            order_fresh(final(self)@),
    {
        self.tracks = tracks;
        self.position = start_index;
        self.rebuild_shuffle_order();
    }

    /// Add tracks right after the playing one (`"next"`) or at the end.
    pub fn add_tracks(&mut self, tracks: Vec<QueueTrackResponse>, position: &str)
        ensures
            final(self)@.tracks == added_tracks(
                old(self)@.tracks,
                old(self)@.position,
                tracks@,
                position@,
            ),
            final(self)@.position == old(self)@.position,
            final(self)@.shuffle_mode == old(self)@.shuffle_mode,
            final(self)@.repeat_mode == old(self)@.repeat_mode,
            order_fresh(final(self)@),
    {
        let ghost old_tracks = self.tracks@;
        if str_eq(position, "next") {
            let len = self.tracks.len();
            let insert_at = if self.position < len && self.position + 1 < len {
                self.position + 1
            } else {
                len
            };
            assert(insert_at == (if self.position + 1 < len { self.position + 1 } else { len as int }));
            let mut tracks = tracks;
            let ghost new_tracks = tracks@;
            let mut rest = self.tracks.split_off(insert_at);
            self.tracks.append(&mut tracks);
            self.tracks.append(&mut rest);
            assert(self.tracks@ =~= old_tracks.take(insert_at as int) + new_tracks + old_tracks.skip(
                insert_at as int,
            ));
        } else {
            let mut tracks = tracks;
            self.tracks.append(&mut tracks);
        }
        self.rebuild_shuffle_order();
    }

    /// Remove the track at `index`; false (and no change) when there is none.
    pub fn remove_track(&mut self, index: usize) -> (removed: bool)
        ensures
            removed == (index < old(self)@.tracks.len()),
            removed ==> final(self)@.tracks == old(self)@.tracks.remove(index as int),
            removed ==> final(self)@.position == removed_position(
                old(self)@.position,
                index as nat,
                final(self)@.tracks.len(),
            ),
            removed ==> order_fresh(final(self)@),
            !removed ==> final(self)@ == old(self)@,
            final(self)@.shuffle_mode == old(self)@.shuffle_mode,
            final(self)@.repeat_mode == old(self)@.repeat_mode,
    {
        if index >= self.tracks.len() {
            return false;
        }
        self.tracks.remove(index);
        if self.position > 0 && index < self.position {
            self.position = self.position - 1;
        }
        if self.position >= self.tracks.len() && self.tracks.len() > 0 {
            self.position = self.tracks.len() - 1;
        }
        self.rebuild_shuffle_order();
        true
    }

    /// The track at the play position, if there is one.
    pub fn current(&self) -> (r: Option<&QueueTrackResponse>)
        ensures
            r == (if self@.position < self@.tracks.len() {
                Some(&self@.tracks[self@.position as int])
            } else {
                None
            }),
    {
        if self.position < self.tracks.len() {
            Some(&self.tracks[self.position])
        } else {
            None
        }
    }

    /// Step to the next track as the repeat mode says: the same track for
    /// `"track"`, wrapping around for `"all"`, stopping at the end otherwise.
    pub fn advance(&mut self) -> (r: Option<&QueueTrackResponse>)
        requires
            old(self)@.tracks.len() == 0 || old(self)@.repeat_mode == "track"@
                || old(self)@.position < usize::MAX,
        ensures
            final(self)@.tracks == old(self)@.tracks,
            final(self)@.shuffle_mode == old(self)@.shuffle_mode,
            final(self)@.repeat_mode == old(self)@.repeat_mode,
            final(self)@.shuffle_order == old(self)@.shuffle_order,
            final(self)@.position == advance_step(
                old(self)@.position,
                old(self)@.tracks.len(),
                old(self)@.repeat_mode,
            ).0,
            r == (if advance_step(
                old(self)@.position,
                old(self)@.tracks.len(),
                old(self)@.repeat_mode,
            ).1 {
                Some(&old(self)@.tracks[final(self)@.position as int])
            } else {
                None
            }),
    {
        let len = self.tracks.len();
        if len == 0 {
            return None;
        }
        if str_eq(self.repeat_mode.as_str(), "track") {
            if self.position < len {
                return Some(&self.tracks[self.position]);
            } else {
                return None;
            }
        } else if str_eq(self.repeat_mode.as_str(), "all") {
            self.position = (self.position + 1) % len;
        } else {
            if self.position + 1 < len {
                self.position = self.position + 1;
            } else {
                return None;
            }
        }
        Some(&self.tracks[self.position])
    }

    /// Step back one track; from the first track wrap to the last when
    /// repeat is `"all"`, else stay.
    pub fn go_back(&mut self) -> (r: Option<&QueueTrackResponse>)
        ensures
            final(self)@.tracks == old(self)@.tracks,
            final(self)@.shuffle_mode == old(self)@.shuffle_mode,
            final(self)@.repeat_mode == old(self)@.repeat_mode,
            final(self)@.shuffle_order == old(self)@.shuffle_order,
            final(self)@.position == back_position(
                old(self)@.position,
                old(self)@.tracks.len(),
                old(self)@.repeat_mode,
            ),
            r == (if old(self)@.tracks.len() > 0 && final(self)@.position < old(self)@.tracks.len() {
                Some(&old(self)@.tracks[final(self)@.position as int])
            } else {
                None
            }),
    {
        let len = self.tracks.len();
        if len == 0 {
            return None;
        }
        if self.position > 0 {
            self.position = self.position - 1;
        } else if str_eq(self.repeat_mode.as_str(), "all") {
            self.position = len - 1;
        }
        if self.position < len {
            Some(&self.tracks[self.position])
        } else {
            None
        }
    }

    /// Empty the queue and go back to the start; the modes stay.
    pub fn clear(&mut self)
        ensures
            final(self)@.tracks.len() == 0,
            final(self)@.position == 0,
            final(self)@.shuffle_order.len() == 0,
            final(self)@.shuffle_mode == old(self)@.shuffle_mode,
            final(self)@.repeat_mode == old(self)@.repeat_mode,
    {
        self.tracks.clear();
        self.position = 0;
        self.shuffle_order.clear();
    }

    /// The tracks in queue order.
    pub fn tracks(&self) -> (r: &[QueueTrackResponse])
        ensures
            r@ == self@.tracks,
    {
        self.tracks.as_slice()
    }

    /// Direct access to the track list; everything else stays as it is.
    pub fn tracks_mut(&mut self) -> (r: &mut Vec<QueueTrackResponse>)
        ensures
            r@ == old(self)@.tracks,
            final(self)@ == (QueueState { tracks: final(r)@, ..old(self)@ }),
    {
        &mut self.tracks
    }

    /// Move a track from one index to another; the position follows the
    /// playing track. False (and no change) when either index is outside the
    /// queue or they are equal.
    pub fn move_track(&mut self, from: usize, to: usize) -> (moved_ok: bool)
        ensures
            moved_ok == (from < old(self)@.tracks.len() && to < old(self)@.tracks.len() && from
                != to),
            moved_ok ==> final(self)@.tracks == moved(old(self)@.tracks, from as int, to as int),
            moved_ok ==> final(self)@.position == moved_position(
                old(self)@.position,
                from as nat,
                to as nat,
            ),
            moved_ok ==> order_fresh(final(self)@),
            !moved_ok ==> final(self)@ == old(self)@,
            final(self)@.shuffle_mode == old(self)@.shuffle_mode,
            final(self)@.repeat_mode == old(self)@.repeat_mode,
    {
        if from >= self.tracks.len() || to >= self.tracks.len() || from == to {
            return false;
        }
        let ghost old_tracks = self.tracks@;
        let track = self.tracks.remove(from);
        self.tracks.insert(to, track);
        assert(self.tracks@ =~= moved(old_tracks, from as int, to as int));
        if self.position == from {
            self.position = to;
        } else if from < self.position && to >= self.position {
            self.position = self.position - 1;
        } else if from > self.position && to <= self.position {
            self.position = self.position + 1;
        }
        self.rebuild_shuffle_order();
        true
    }

    /// The play position.
    pub fn position(&self) -> (r: usize)
        ensures
            r == self@.position,
    {
        self.position
    }

    /// The shuffle mode.
    pub fn shuffle_mode(&self) -> (r: &str)
        ensures
            r@ == self@.shuffle_mode,
    {
        self.shuffle_mode.as_str()
    }

    /// The repeat mode.
    pub fn repeat_mode(&self) -> (r: &str)
        ensures
            r@ == self@.repeat_mode,
    {
        self.repeat_mode.as_str()
    }

    /// Set the shuffle mode and rebuild the shuffle order.
    pub fn set_shuffle_mode(&mut self, mode: String)
        ensures
            final(self)@.shuffle_mode == mode@,
            final(self)@.tracks == old(self)@.tracks,
            final(self)@.position == old(self)@.position,
            final(self)@.repeat_mode == old(self)@.repeat_mode,
            order_fresh(final(self)@),
    {
        self.shuffle_mode = mode;
        self.rebuild_shuffle_order();
    }

    /// Set the repeat mode.
    pub fn set_repeat_mode(&mut self, mode: String)
        ensures
            final(self)@ == (QueueState { repeat_mode: mode@, ..old(self)@ }),
    {
        self.repeat_mode = mode;
    }

    fn rebuild_shuffle_order(&mut self)
        ensures
            final(self)@.tracks == old(self)@.tracks,
            final(self)@.position == old(self)@.position,
            final(self)@.shuffle_mode == old(self)@.shuffle_mode,
            final(self)@.repeat_mode == old(self)@.repeat_mode,
            order_fresh(final(self)@),
    {
        let n = self.tracks.len();
        if str_eq(self.shuffle_mode.as_str(), "off") || n == 0 {
            self.shuffle_order.clear();
            return;
        }
        let mut order: Vec<usize> = Vec::new();
        let mut i: usize = 0;
        while i < n
            invariant
                i <= n,
                order@ == Seq::new(i as nat, |j: int| j as usize),
            decreases n - i,
        {
            order.push(i);
            i = i + 1;
        }
        let ghost before = order@;
        proof {
            assert forall|k: usize| k < n implies #[trigger] before.contains(k) by {
                assert(before[k as int] == k);
            }
        }
        shuffle_indices(&mut order);
        proof {
            assert forall|k: usize| k < n implies #[trigger] order@.contains(k) by {
                vstd::seq_lib::to_multiset_contains(before, k);
                vstd::seq_lib::to_multiset_contains(order@, k);
            }
        }
        let mut k: usize = 0;
        let mut done = false;
        while k < order.len() && !done
            invariant
                order@.len() == n,
                forall|j: usize| j < n ==> #[trigger] order@.contains(j),
                done ==> order@[0] == self.position,
                !done ==> forall|j: int| 0 <= j < k ==> order@[j] != self.position,
                k <= n,
            decreases n - k, if done { 0int } else { 1int },
        {
            if order[k] == self.position {
                let first = order[0];
                let ghost pre = order@;
                order.set(0, self.position);
                order.set(k, first);
                proof {
                    assert forall|j: usize| j < n implies #[trigger] order@.contains(j) by {
                        assert(pre.contains(j));
                        let w = choose|w: int| 0 <= w < pre.len() && pre[w] == j;
                        if w == 0 {
                            assert(order@[k as int] == j);
                        } else if w == k {
                            assert(order@[0] == j);
                        } else {
                            assert(order@[w] == j);
                        }
                    }
                }
                done = true;
            } else {
                k = k + 1;
            }
        }
        proof {
            if self.position < n && !done {
                assert(order@.contains(self.position));
                let w = choose|w: int| 0 <= w < order@.len() && order@[w] == self.position;
                assert(order@[w] == self.position);
            }
        }
        self.shuffle_order = order;
    }
}

} // verus!

verus! {

/// Moving a track keeps the playing track playing: the track at the new
/// position is the one that was at the old position.
pub proof fn lemma_move_keeps_current(tracks: Seq<QueueTrackResponse>, pos: nat, from: nat, to: nat)
    requires
        pos < tracks.len(),
        from < tracks.len(),
        to < tracks.len(),
        from != to,
    ensures
        moved_position(pos, from, to) < tracks.len(),
        moved(tracks, from as int, to as int)[moved_position(pos, from, to) as int] == tracks[pos as int],
{
}

/// Moving a track back to where it came from restores the queue.
pub proof fn lemma_move_back_restores<T>(s: Seq<T>, from: int, to: int)
    requires
        0 <= from < s.len(),
        0 <= to < s.len(),
    ensures
        moved(moved(s, from, to), to, from) == s,
{
    assert(moved(moved(s, from, to), to, from) =~= s);
}

/// Moving a track back also restores the play position.
pub proof fn lemma_move_back_restores_position(pos: nat, from: nat, to: nat)
    requires
        from != to,
    ensures
        moved_position(moved_position(pos, from, to), to, from) == pos,
{
}

/// After a removal that leaves tracks behind, the play position points at one
/// of them.
pub proof fn lemma_remove_keeps_position_valid(pos: nat, index: nat, new_len: nat)
    requires
        new_len > 0,
    ensures
        removed_position(pos, index, new_len) < new_len,
{
}

/// Removing a track other than the playing one keeps the playing track.
pub proof fn lemma_remove_other_keeps_current(tracks: Seq<QueueTrackResponse>, pos: nat, index: nat)
    requires
        pos < tracks.len(),
        index < tracks.len(),
        index != pos,
    ensures
        removed_position(pos, index, (tracks.len() - 1) as nat) < tracks.len() - 1,
        tracks.remove(index as int)[removed_position(pos, index, (tracks.len() - 1) as nat) as int]
            == tracks[pos as int],
{
}

/// Adding tracks keeps the playing track and grows the queue by exactly the
/// tracks added.
pub proof fn lemma_add_keeps_current(
    tracks: Seq<QueueTrackResponse>,
    pos: nat,
    new_tracks: Seq<QueueTrackResponse>,
    where_: Seq<char>,
)
    requires
        pos < tracks.len(),
    ensures
        added_tracks(tracks, pos, new_tracks, where_).len() == tracks.len() + new_tracks.len(),
        added_tracks(tracks, pos, new_tracks, where_)[pos as int] == tracks[pos as int],
{
}

/// Going back right after advancing returns to the same position, whenever
/// the advance moved (repeat is not `"track"` and it did not stop at the end).
pub proof fn lemma_back_undoes_advance(pos: nat, len: nat, repeat: Seq<char>)
    requires
        pos < len,
        repeat != "track"@,
        repeat == "all"@ || pos + 1 < len,
    ensures
        back_position(advance_step(pos, len, repeat).0, len, repeat) == pos,
{
    if repeat == "all"@ {
        if pos + 1 < len {
            assert((pos + 1) % len == pos + 1) by (nonlinear_arith)
                requires pos + 1 < len;
        } else {
            assert((pos + 1) % len == 0) by (nonlinear_arith)
                requires pos + 1 == len, len > 0;
        }
    }
}

/// With repeat `"all"` a non-empty queue always hands back a track, and the
/// position stays inside the queue.
pub proof fn lemma_repeat_all_never_ends(pos: nat, len: nat)
    requires
        len > 0,
    ensures
        advance_step(pos, len, "all"@).1,
        advance_step(pos, len, "all"@).0 < len,
{
    reveal_strlit("track");
    reveal_strlit("all");
    assert("track"@ != "all"@) by {
        assert("track"@.len() != "all"@.len());
    }
    assert((pos + 1) % len < len) by (nonlinear_arith)
        requires len > 0;
}

} // verus!
