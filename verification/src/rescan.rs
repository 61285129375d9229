//! Which directories a library rescan walks: the parent directories of the
//! tracks, shallowest first, without those inside another one kept.

use vstd::prelude::*;

use crate::library::{strings_view, Library};
use crate::media::LibraryObject;
use crate::text::str_eq;
use crate::xml_tree::opt_view;

verus! {

broadcast use vstd::seq_lib::group_seq_properties;

/// The parent of a path, as std's `Path::parent` gives it.
pub uninterp spec fn parent_dir(path: Seq<char>) -> Option<Seq<char>>;

/// The number of components of a path, as std's `Path::components` counts
/// them.
pub uninterp spec fn component_count(path: Seq<char>) -> nat;

/// Whether `base` is a leading run of `path`'s components, as std's
/// `Path::starts_with` decides.
pub uninterp spec fn path_prefix(path: Seq<char>, base: Seq<char>) -> bool;

/// std's `Path::parent`, as text. The contract names the result: it
/// depends on the path alone.
#[verifier::external_body]
fn path_parent(path: &str) -> (r: Option<String>)
    ensures
        opt_view(r) == parent_dir(path@),
{
    std::path::Path::new(path).parent().map(|p| p.to_string_lossy().into_owned())
}

/// The number of components std's `Path::components` yields. The contract
/// names the result: it depends on the path alone.
#[verifier::external_body]
fn path_depth(path: &str) -> (r: usize)
    ensures
        r as nat == component_count(path@),
{
    std::path::Path::new(path).components().count()
}

/// std's `Path::starts_with`. The contract names the result: it depends on
/// the two paths alone.
#[verifier::external_body]
fn path_starts_with(path: &str, base: &str) -> (r: bool)
    ensures
        r == path_prefix(path@, base@),
{
    std::path::Path::new(path).starts_with(base)
}

/// The parent directories of the paths, each once, in the order they first
/// appear.
pub open spec fn distinct_parents(paths: Seq<Seq<char>>) -> Seq<Seq<char>>
    decreases paths.len(),
{
    if paths.len() == 0 {
        Seq::empty()
    } else {
        let acc = distinct_parents(paths.drop_last());
        match parent_dir(paths.last()) {
            Some(d) => if acc.contains(d) {
                acc
            } else {
                acc.push(d)
            },
            None => acc,
        }
    }
}

/// The position of the first of the shallowest directories.
pub open spec fn min_at(ds: Seq<Seq<char>>) -> int
    decreases ds.len(),
{
    if ds.len() <= 1 {
        0
    } else {
        let k = min_at(ds.drop_last());
        if component_count(ds.last()) < component_count(ds[k]) {
            ds.len() - 1
        } else {
            k
        }
    }
}

/// The directories ordered by depth, those of equal depth in their order.
pub open spec fn by_depth(ds: Seq<Seq<char>>) -> Seq<Seq<char>>
    decreases ds.len(),
{
    if ds.len() == 0 {
        Seq::empty()
    } else {
        let m = min_at(ds);
        if 0 <= m < ds.len() {
            seq![ds[m]] + by_depth(ds.remove(m))
        } else {
            Seq::empty()
        }
    }
}

/// The directories kept, in order: each one not inside one kept before it.
pub open spec fn keep_roots(sorted: Seq<Seq<char>>) -> Seq<Seq<char>>
    decreases sorted.len(),
{
    if sorted.len() == 0 {
        Seq::empty()
    } else {
        let r = keep_roots(sorted.drop_last());
        let d = sorted.last();
        if exists|i: int| 0 <= i < r.len() && path_prefix(d, #[trigger] r[i]) {
            r
        } else {
            r.push(d)
        }
    }
}

/// The directories a rescan walks for tracks at these paths.
pub open spec fn rescan_roots_spec(paths: Seq<Seq<char>>) -> Seq<Seq<char>> {
    keep_roots(by_depth(distinct_parents(paths)))
}

/// No directory a rescan walks lies inside one walked before it: each kept
/// directory is not inside any directory kept earlier.
pub proof fn lemma_roots_not_nested(sorted: Seq<Seq<char>>)
    ensures
        forall|i: int, j: int|
            0 <= i < j < keep_roots(sorted).len() ==> !path_prefix(
                #[trigger] keep_roots(sorted)[j],
                #[trigger] keep_roots(sorted)[i],
            ),
    decreases sorted.len(),
{
    if sorted.len() > 0 {
        lemma_roots_not_nested(sorted.drop_last());
        let r = keep_roots(sorted.drop_last());
        let d = sorted.last();
        if !(exists|i: int| 0 <= i < r.len() && path_prefix(d, #[trigger] r[i])) {
            assert forall|i: int, j: int|
                0 <= i < j < keep_roots(sorted).len() implies !path_prefix(
                    #[trigger] keep_roots(sorted)[j],
                    #[trigger] keep_roots(sorted)[i],
                ) by {
                if j == r.len() {
                    assert(keep_roots(sorted)[i] == r[i]);
                } else {
                    assert(keep_roots(sorted)[i] == r[i] && keep_roots(sorted)[j] == r[j]);
                }
            }
        }
    }
}

proof fn lemma_min_at_range(ds: Seq<Seq<char>>)
    requires
        ds.len() > 0,
    ensures
        0 <= min_at(ds) < ds.len(),
    decreases ds.len(),
{
    if ds.len() > 1 {
        lemma_min_at_range(ds.drop_last());
    }
}

fn is_listed(v: &Vec<String>, s: &str) -> (r: bool)
    ensures
        r == strings_view(v@).contains(s@),
{
    let mut i: usize = 0;
    while i < v.len()
        invariant
            i <= v@.len(),
            forall|j: int| 0 <= j < i ==> strings_view(v@)[j] != s@,
        decreases v.len() - i,
    {
        if str_eq(v[i].as_str(), s) {
            assert(strings_view(v@)[i as int] == s@);
            return true;
        }
        i = i + 1;
    }
    false
}

fn parents_of(paths: &Vec<String>) -> (r: Vec<String>)
    ensures
        strings_view(r@) == distinct_parents(strings_view(paths@)),
{
    let ghost pv = strings_view(paths@);
    let mut r: Vec<String> = Vec::new();
    let mut i: usize = 0;
    while i < paths.len()
        invariant
            i <= paths@.len(),
            pv == strings_view(paths@),
            strings_view(r@) == distinct_parents(pv.take(i as int)),
        decreases paths.len() - i,
    {
        proof {
            assert(pv.take(i + 1).drop_last() =~= pv.take(i as int));
            assert(pv.take(i + 1).last() == paths@[i as int]@);
        }
        match path_parent(paths[i].as_str()) {
            Some(d) => {
                if !is_listed(&r, d.as_str()) {
                    let ghost prev = strings_view(r@);
                    let ghost dv = d@;
                    r.push(d);
                    assert(strings_view(r@) =~= prev.push(dv));
                }
            },
            None => {},
        }
        i = i + 1;
    }
    assert(pv.take(pv.len() as int) =~= pv);
    r
}

fn shallowest(ds: &Vec<String>) -> (r: usize)
    requires
        ds@.len() > 0,
    ensures
        r as int == min_at(strings_view(ds@)),
        r < ds@.len(),
{
    let ghost dv = strings_view(ds@);
    let mut k: usize = 0;
    let mut kd: usize = path_depth(ds[0].as_str());
    let mut j: usize = 1;
    assert(dv.take(1).len() == 1);
    while j < ds.len()
        invariant
            1 <= j <= ds@.len(),
            dv == strings_view(ds@),
            k < j,
            k as int == min_at(dv.take(j as int)),
            kd as nat == component_count(dv[k as int]),
        decreases ds.len() - j,
    {
        proof {
            assert(dv.take(j + 1).drop_last() =~= dv.take(j as int));
            assert(dv.take(j + 1)[k as int] == dv[k as int]);
        }
        let d = path_depth(ds[j].as_str());
        if d < kd {
            k = j;
            kd = d;
        }
        j = j + 1;
    }
    assert(dv.take(dv.len() as int) =~= dv);
    k
}

fn order_by_depth(ds: Vec<String>) -> (r: Vec<String>)
    ensures
        strings_view(r@) == by_depth(strings_view(ds@)),
{
    let ghost all = strings_view(ds@);
    let mut rem = ds;
    let mut out: Vec<String> = Vec::new();
    while rem.len() > 0
        invariant
            strings_view(out@) + by_depth(strings_view(rem@)) == by_depth(all),
        decreases rem.len(),
    {
        let ghost rv = strings_view(rem@);
        let ghost prev = strings_view(out@);
        let m = shallowest(&rem);
        proof {
            lemma_min_at_range(rv);
        }
        let d = rem.remove(m);
        proof {
            assert(strings_view(rem@) =~= rv.remove(m as int));
            assert(by_depth(rv) == seq![rv[m as int]] + by_depth(rv.remove(m as int)));
        }
        let ghost dv = d@;
        out.push(d);
        proof {
            assert(strings_view(out@) =~= prev.push(dv));
            assert(prev.push(dv) + by_depth(strings_view(rem@)) =~= prev + (seq![dv] + by_depth(
                strings_view(rem@),
            )));
        }
    }
    assert(by_depth(strings_view(rem@)) =~= Seq::<Seq<char>>::empty());
    assert(strings_view(out@) + Seq::<Seq<char>>::empty() =~= strings_view(out@));
    out
}

fn inside_any(d: &str, roots: &Vec<String>) -> (r: bool)
    ensures
        r == exists|i: int| 0 <= i < roots@.len() && path_prefix(d@, #[trigger] strings_view(roots@)[i]),
{
    let mut i: usize = 0;
    while i < roots.len()
        invariant
            i <= roots@.len(),
            forall|j: int| 0 <= j < i ==> !path_prefix(d@, #[trigger] strings_view(roots@)[j]),
        decreases roots.len() - i,
    {
        if path_starts_with(d, roots[i].as_str()) {
            assert(path_prefix(d@, strings_view(roots@)[i as int]));
            return true;
        }
        i = i + 1;
    }
    false
}

/// The directories to rescan for tracks at these paths: their parent
/// directories, shallowest first, leaving out each one inside a directory
/// already kept.
pub fn rescan_roots(paths: &Vec<String>) -> (r: Vec<String>)
    ensures
        strings_view(r@) == rescan_roots_spec(strings_view(paths@)),
{
    let parents = parents_of(paths);
    let sorted = order_by_depth(parents);
    let ghost sv = strings_view(sorted@);
    let mut roots: Vec<String> = Vec::new();
    let mut i: usize = 0;
    while i < sorted.len()
        invariant
            i <= sorted@.len(),
            sv == strings_view(sorted@),
            strings_view(roots@) == keep_roots(sv.take(i as int)),
        decreases sorted.len() - i,
    {
        proof {
            assert(sv.take(i + 1).drop_last() =~= sv.take(i as int));
            assert(sv.take(i + 1).last() == sorted@[i as int]@);
        }
        if !inside_any(sorted[i].as_str(), &roots) {
            let ghost prev = strings_view(roots@);
            let d = sorted[i].clone();
            let ghost dv = d@;
            roots.push(d);
            assert(strings_view(roots@) =~= prev.push(dv));
        }
        i = i + 1;
    }
    assert(sv.take(sv.len() as int) =~= sv);
    roots
}

/// The paths of the tracks with these ids, in order, skipping ids that
/// name no track.
pub open spec fn paths_of(ids: Seq<Seq<char>>, m: Map<Seq<char>, LibraryObject>) -> Seq<Seq<char>>
    decreases ids.len(),
{
    if ids.len() == 0 {
        Seq::empty()
    } else {
        let rest = paths_of(ids.drop_last(), m);
        let id = ids.last();
        if m.contains_key(id) && m[id] is Track {
            rest.push(m[id]->Track_0.path@)
        } else {
            rest
        }
    }
}

/// The paths of every track in the library, in the library's order.
pub fn track_paths(library: &Library) -> (r: Vec<String>)
    requires
        library.wf(),
    ensures
        strings_view(r@) == paths_of(library@.all_track_ids, library@.objects),
{
    let ids = library.all_track_ids();
    let ghost lv = library@;
    let mut r: Vec<String> = Vec::new();
    let mut i: usize = 0;
    while i < ids.len()
        invariant
            library.wf(),
            lv == library@,
            i <= ids@.len(),
            strings_view(ids@) == lv.all_track_ids,
            strings_view(r@) == paths_of(lv.all_track_ids.take(i as int), lv.objects),
        decreases ids.len() - i,
    {
        proof {
            assert(lv.all_track_ids.take(i + 1).drop_last() =~= lv.all_track_ids.take(i as int));
            assert(lv.all_track_ids.take(i + 1).last() == ids@[i as int]@);
        }
        if let Some(LibraryObject::Track(t)) = library.get(ids[i].as_str()) {
            let ghost prev = strings_view(r@);
            let p = t.path.clone();
            let ghost pv = p@;
            r.push(p);
            assert(strings_view(r@) =~= prev.push(pv));
        }
        i = i + 1;
    }
    assert(lv.all_track_ids.take(ids@.len() as int) =~= lv.all_track_ids);
    r
}

} // verus!
