//! Album art: which picture of a file is the cover, and what a cache
//! lookup means.

use vstd::prelude::*;

use crate::models::CachedArt;

verus! {

/// What the art reader needs to know of a picture embedded in a file.
#[derive(Debug, Clone)]
pub struct PictureInfo {
    /// Whether the picture is marked as the front cover.
    pub front_cover: bool,
    /// Its MIME type, when the file gives one.
    pub mime_type: Option<String>,
}

/// The position of the first front cover.
pub open spec fn first_front_cover(pics: Seq<PictureInfo>) -> Option<int> {
    if exists|i: int| 0 <= i < pics.len() && pics[i].front_cover {
        Some(choose|i: int| 0 <= i < pics.len() && pics[i].front_cover && forall|j: int| 0 <= j < i ==> !pics[j].front_cover)
    } else {
        None
    }
}

/// The picture a file's art is: its first front cover, else its first
/// picture, else none.
pub open spec fn cover_spec(pics: Seq<PictureInfo>) -> Option<int> {
    match first_front_cover(pics) {
        Some(i) => Some(i),
        None => if pics.len() > 0 {
            Some(0)
        } else {
            None
        },
    }
}

/// Pick the picture that is a file's art.
pub fn pick_cover(pics: &Vec<PictureInfo>) -> (r: Option<usize>)
    ensures
        match r {
            Some(i) => cover_spec(pics@) == Some(i as int) && i < pics@.len(),
            None => cover_spec(pics@) is None,
        },
{
    let mut i: usize = 0;
    while i < pics.len()
        invariant
            i <= pics@.len(),
            forall|j: int| 0 <= j < i ==> !pics@[j].front_cover,
        decreases pics.len() - i,
    {
        if pics[i].front_cover {
            proof {
                let k = choose|k: int| 0 <= k < pics@.len() && pics@[k].front_cover && forall|j: int| 0 <= j < k ==> !pics@[j].front_cover;
                if k < i {
                    assert(!pics@[k].front_cover);
                }
                if i < k {
                    assert(!pics@[i as int].front_cover);
                }
            }
            return Some(i);
        }
        i = i + 1;
    }
    if pics.len() > 0 {
        Some(0)
    } else {
        None
    }
}

/// The MIME type art is served with: the picture's own, else JPEG.
pub fn art_mime(mime_type: Option<String>) -> (r: String)
    ensures
        r@ == (match mime_type {
            Some(m) => m@,
            None => "image/jpeg"@,
        }),
{
    match mime_type {
        Some(m) => m,
        None => String::from_str("image/jpeg"),
    }
}

/// What an art request does after looking in the cache.
#[derive(Debug, PartialEq, Eq)]
pub enum ArtLookup {
    /// Serve the cached picture.
    Serve,
    /// The album is known to have no art.
    Missing,
    /// Read the art from the file.
    Extract,
}

/// Decide from the cache: a cached picture is served, a cached empty one
/// means the album has none, and an album not in the cache is read from
/// its file unless it is known to have none.
pub fn art_lookup(cached: Option<&CachedArt>, known_missing: bool) -> (r: ArtLookup)
    ensures
        r == (match cached {
            Some(c) => if c.data@.len() == 0 {
                ArtLookup::Missing
            } else {
                ArtLookup::Serve
            },
            None => if known_missing {
                ArtLookup::Missing
            } else {
                ArtLookup::Extract
            },
        }),
{
    match cached {
        Some(c) => if c.data.len() == 0 {
            ArtLookup::Missing
        } else {
            ArtLookup::Serve
        },
        None => if known_missing {
            ArtLookup::Missing
        } else {
            ArtLookup::Extract
        },
    }
}

} // verus!
