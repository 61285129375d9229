//! Bulk metadata edits: which tracks a rename touches, what each file's tag
//! change is, and how the outcome is counted.

use vstd::prelude::*;

use crate::library::{Library, LibraryView};
use crate::media::LibraryObject;
use crate::models::TagUpdate;
use crate::text::{lowercase, str_eq, to_lower};

verus! {

/// Set the album artist of every track below a container.
#[derive(Debug)]
pub struct BulkAlbumArtistRequest {
    pub container_id: String,
    pub album_artist: String,
}

/// Rename an artist across the library.
#[derive(Debug)]
pub struct RenameArtistRequest {
    pub from: String,
    pub to: String,
    /// `"artist"`, `"album_artist"`, or `"both"`.
    pub field: String,
}

/// The field a rename touches unless told otherwise: `"both"`.
pub fn default_field() -> (r: String)
    ensures
        r@ == "both"@,
{
    String::from_str("both")
}

/// How a bulk edit went.
#[derive(Debug, Clone, Copy, PartialEq, Eq)]
pub struct BulkResult {
    pub total: usize,
    pub success: usize,
    pub failed: usize,
}

/// The number of `true`s.
pub open spec fn count_true(s: Seq<bool>) -> nat
    decreases s.len(),
{
    if s.len() == 0 {
        0
    } else {
        count_true(s.drop_last()) + if s.last() {
            1nat
        } else {
            0nat
        }
    }
}

/// Count the outcome of a bulk edit from whether each file was written.
pub fn bulk_result(outcomes: &Vec<bool>) -> (r: BulkResult)
    ensures
        r.total == outcomes@.len(),
        r.success == count_true(outcomes@),
        r.failed == outcomes@.len() - count_true(outcomes@),
{
    let mut success: usize = 0;
    let mut failed: usize = 0;
    let mut i: usize = 0;
    while i < outcomes.len()
        invariant
            i <= outcomes@.len(),
            success == count_true(outcomes@.take(i as int)),
            success + failed == i,
        decreases outcomes.len() - i,
    {
        assert(outcomes@.take(i + 1).drop_last() =~= outcomes@.take(i as int));
        if outcomes[i] {
            success = success + 1;
        } else {
            failed = failed + 1;
        }
        i = i + 1;
    }
    assert(outcomes@.take(outcomes@.len() as int) =~= outcomes@);
    BulkResult { total: outcomes.len(), success, failed }
}

/// Which fields a rename touches: (artist, album artist).
pub open spec fn rename_flags(field: Seq<char>) -> (bool, bool) {
    (field == "artist"@ || field == "both"@, field == "album_artist"@ || field == "both"@)
}

/// Read which fields a rename touches.
pub fn rename_fields(field: &str) -> (r: (bool, bool))
    ensures
        r == rename_flags(field@),
{
    let both = str_eq(field, "both");
    (str_eq(field, "artist") || both, str_eq(field, "album_artist") || both)
}

/// A track a rename touches, and which of its fields match.
#[derive(Debug)]
pub struct RenameTarget {
    pub id: String,
    pub path: String,
    pub artist_match: bool,
    pub album_artist_match: bool,
}

/// A rename target as plain values.
pub open spec fn target_view(t: RenameTarget) -> (Seq<char>, Seq<char>, bool, bool) {
    (t.id@, t.path@, t.artist_match, t.album_artist_match)
}

/// Which fields of the object `id` match the lower-cased name.
pub open spec fn rename_hit(
    m: Map<Seq<char>, LibraryObject>,
    id: Seq<char>,
    from_lower: Seq<char>,
    flags: (bool, bool),
) -> Option<(Seq<char>, Seq<char>, bool, bool)> {
    if m.contains_key(id) && m[id] is Track {
        let t = m[id]->Track_0;
        let a = flags.0 && lowercase(t.meta.artist@) == from_lower;
        let b = flags.1 && lowercase(t.meta.album_artist@) == from_lower;
        if a || b {
            Some((id, t.path@, a, b))
        } else {
            None
        }
    } else {
        None
    }
}

/// The rename targets among these track ids, in their order.
pub open spec fn rename_targets(
    ids: Seq<Seq<char>>,
    m: Map<Seq<char>, LibraryObject>,
    from_lower: Seq<char>,
    flags: (bool, bool),
) -> Seq<(Seq<char>, Seq<char>, bool, bool)>
    decreases ids.len(),
{
    if ids.len() == 0 {
        Seq::empty()
    } else {
        let rest = rename_targets(ids.drop_last(), m, from_lower, flags);
        match rename_hit(m, ids.last(), from_lower, flags) {
            Some(t) => rest.push(t),
            None => rest,
        }
    }
}

/// What a rename finds among the listed ids: each target is a track of the
/// list whose artist match is true exactly when the field selects the
/// artist (`artist` or `both`) and its lower-cased artist is the lower-cased
/// name, and whose album-artist match is true exactly when the field
/// selects the album artist (`album_artist` or `both`) and its lower-cased
/// album artist is the lower-cased name; every listed track with such a
/// match is a target.
pub proof fn law_rename_targets(
    ids: Seq<Seq<char>>,
    m: Map<Seq<char>, LibraryObject>,
    from: Seq<char>,
    field: Seq<char>,
)
    ensures
        ({
            let r = rename_targets(ids, m, lowercase(from), rename_flags(field));
            &&& forall|j: int|
                0 <= j < r.len() ==> {
                    let t = m[r[j].0]->Track_0;
                    &&& ids.contains(#[trigger] r[j].0)
                    &&& m.contains_key(r[j].0) && m[r[j].0] is Track
                    &&& r[j].1 == t.path@
                    &&& r[j].2 == ((field == "artist"@ || field == "both"@) && lowercase(t.meta.artist@)
                        == lowercase(from))
                    &&& r[j].3 == ((field == "album_artist"@ || field == "both"@) && lowercase(
                        t.meta.album_artist@,
                    ) == lowercase(from))
                    &&& r[j].2 || r[j].3
                }
            &&& forall|k: Seq<char>|
                #[trigger] ids.contains(k) && m.contains_key(k) && m[k] is Track && (((field == "artist"@
                    || field == "both"@) && lowercase(m[k]->Track_0.meta.artist@) == lowercase(from)) || ((field
                    == "album_artist"@ || field == "both"@) && lowercase(m[k]->Track_0.meta.album_artist@)
                    == lowercase(from))) ==> exists|j: int| 0 <= j < r.len() && #[trigger] r[j].0 == k
        }),
    decreases ids.len(),
{
    let fl = lowercase(from);
    let flags = rename_flags(field);
    let r = rename_targets(ids, m, fl, flags);
    if ids.len() > 0 {
        let rest_ids = ids.drop_last();
        law_rename_targets(rest_ids, m, from, field);
        let rest = rename_targets(rest_ids, m, fl, flags);
        assert forall|k: Seq<char>| #[trigger] rest_ids.contains(k) implies ids.contains(k) by {
            let i = choose|i: int| 0 <= i < rest_ids.len() && rest_ids[i] == k;
            assert(ids[i] == k);
        }
        assert forall|j: int| 0 <= j < r.len() implies ids.contains(#[trigger] r[j].0) by {
            if j < rest.len() {
                assert(r[j] == rest[j]);
                assert(rest_ids.contains(rest[j].0));
            } else {
                assert(ids[ids.len() - 1] == ids.last());
            }
        }
        assert forall|k: Seq<char>|
            #[trigger] ids.contains(k) && m.contains_key(k) && m[k] is Track && (((field == "artist"@
                || field == "both"@) && lowercase(m[k]->Track_0.meta.artist@) == lowercase(from)) || ((field
                == "album_artist"@ || field == "both"@) && lowercase(m[k]->Track_0.meta.album_artist@)
                == lowercase(from))) implies exists|j: int| 0 <= j < r.len() && #[trigger] r[j].0 == k by {
            if k == ids.last() {
                assert(r[r.len() - 1].0 == k);
            } else {
                let i = choose|i: int| 0 <= i < ids.len() && ids[i] == k;
                assert(i < ids.len() - 1);
                assert(rest_ids[i] == k);
                assert(rest_ids.contains(k));
                let j = choose|j: int| 0 <= j < rest.len() && #[trigger] rest[j].0 == k;
                assert(r[j] == rest[j]);
            }
        }
    }
}

/// The tracks a rename touches: every track, in the library's order, whose
/// artist or album artist (as the field says) equals `from`, ignoring case.
pub fn rename_matches(library: &Library, from: &str, field: &str) -> (r: Vec<RenameTarget>)
    requires
        library.wf(),
    ensures
        r@.map_values(|t: RenameTarget| target_view(t)) == rename_targets(
            library@.all_track_ids,
            library@.objects,
            lowercase(from@),
            rename_flags(field@),
        ),
{
    let from_lower = to_lower(from);
    let flags = rename_fields(field);
    let ids = library.all_track_ids();
    let ghost lv: LibraryView = library@;
    let mut r: Vec<RenameTarget> = Vec::new();
    let mut i: usize = 0;
    while i < ids.len()
        invariant
            library.wf(),
            lv == library@,
            i <= ids@.len(),
            crate::library::strings_view(ids@) == lv.all_track_ids,
            r@.map_values(|t: RenameTarget| target_view(t)) == rename_targets(
                lv.all_track_ids.take(i as int),
                lv.objects,
                from_lower@,
                flags,
            ),
        decreases ids.len() - i,
    {
        let ghost prev = r@.map_values(|t: RenameTarget| target_view(t));
        proof {
            assert(lv.all_track_ids.take(i + 1).drop_last() =~= lv.all_track_ids.take(i as int));
            assert(lv.all_track_ids.take(i + 1).last() == ids@[i as int]@);
        }
        if let Some(LibraryObject::Track(t)) = library.get(ids[i].as_str()) {
            let a = flags.0 && str_eq(to_lower(t.meta.artist.as_str()).as_str(), from_lower.as_str());
            let b = flags.1 && str_eq(
                to_lower(t.meta.album_artist.as_str()).as_str(),
                from_lower.as_str(),
            );
            if a || b {
                let target = RenameTarget {
                    id: ids[i].clone(),
                    path: t.path.clone(),
                    artist_match: a,
                    album_artist_match: b,
                };
                let ghost tv = target_view(target);
                r.push(target);
                assert(r@.map_values(|t: RenameTarget| target_view(t)) =~= prev.push(tv));
            }
        }
        i = i + 1;
    }
    assert(lv.all_track_ids.take(ids@.len() as int) =~= lv.all_track_ids);
    r
}

/// The tag change a rename makes to one track: the new name in each field
/// that matched, nothing else.
pub fn rename_update(target: &RenameTarget, to: &str) -> (r: TagUpdate)
    ensures
        target.artist_match ==> (r.artist matches Some(a) && a@ == to@),
        !target.artist_match ==> r.artist is None,
        target.album_artist_match ==> (r.album_artist matches Some(a) && a@ == to@),
        !target.album_artist_match ==> r.album_artist is None,
        r.title is None && r.album is None && r.genre is None && r.track_number is None
            && r.disc_number is None,
{
    TagUpdate {
        title: None,
        artist: if target.artist_match {
            Some(to.to_owned())
        } else {
            None
        },
        album: None,
        album_artist: if target.album_artist_match {
            Some(to.to_owned())
        } else {
            None
        },
        genre: None,
        track_number: None,
        disc_number: None,
    }
}

/// The tag change that sets the album artist and nothing else.
pub fn album_artist_update(album_artist: &str) -> (r: TagUpdate)
    ensures
        r.album_artist matches Some(a) && a@ == album_artist@,
        r.title is None && r.artist is None && r.album is None && r.genre is None
            && r.track_number is None && r.disc_number is None,
{
    TagUpdate {
        title: None,
        artist: None,
        album: None,
        album_artist: Some(album_artist.to_owned()),
        genre: None,
        track_number: None,
        disc_number: None,
    }
}

} // verus!
