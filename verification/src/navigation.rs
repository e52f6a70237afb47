//! Stepping from one image of a listing to the nearest one after or before
//! it.

use crate::kinds::{has_image_extension, is_image_path};
use crate::listing::{entry_views, unique_paths, Listing, ListingView};
use crate::path::{PathView, VirtualPath};
use vstd::prelude::*;

verus! {

/// `p` is the first place of the listing whose path is `cur`.
pub open spec fn is_position(list: Seq<ListingView>, cur: PathView, p: int) -> bool {
    &&& 0 <= p < list.len()
    &&& list[p].file_path == cur
    &&& forall|k: int| 0 <= k < p ==> list[k].file_path != cur
}

/// `j` is the place of the nearest image after place `p`.
pub open spec fn is_next_image(list: Seq<ListingView>, p: int, j: int) -> bool {
    &&& p < j < list.len()
    &&& is_image_path(list[j].file_path)
    &&& forall|k: int| p < k < j ==> !is_image_path(list[k].file_path)
}

/// `j` is the place of the nearest image before place `p`.
pub open spec fn is_prev_image(list: Seq<ListingView>, p: int, j: int) -> bool {
    &&& 0 <= j < p
    &&& is_image_path(list[j].file_path)
    &&& forall|k: int| j < k < p ==> !is_image_path(list[k].file_path)
}

/// The nearest image after `cur` in the listing, with its place: none when
/// `cur` is not in the listing or no image follows it.
pub open spec fn next_image(list: Seq<ListingView>, cur: PathView) -> Option<(PathView, int)> {
    if exists|p: int, j: int| is_position(list, cur, p) && is_next_image(list, p, j) {
        let (p, j) = choose|p: int, j: int| is_position(list, cur, p) && is_next_image(list, p, j);
        Some((list[j].file_path, j))
    } else {
        None
    }
}

/// The nearest image before `cur` in the listing, with its place: none when
/// `cur` is not in the listing or no image precedes it.
pub open spec fn prev_image(list: Seq<ListingView>, cur: PathView) -> Option<(PathView, int)> {
    if exists|p: int, j: int| is_position(list, cur, p) && is_prev_image(list, p, j) {
        let (p, j) = choose|p: int, j: int| is_position(list, cur, p) && is_prev_image(list, p, j);
        Some((list[j].file_path, j))
    } else {
        None
    }
}

proof fn lemma_next_found(list: Seq<ListingView>, cur: PathView, p: int, j: int)
    requires
        is_position(list, cur, p),
        is_next_image(list, p, j),
    ensures
        next_image(list, cur) == Some((list[j].file_path, j)),
{
    let (q, r) = choose|q: int, r: int|
        is_position(list, cur, q) && is_next_image(list, q, r);
    assert(is_position(list, cur, q) && is_next_image(list, q, r));
    assert(q == p);
    assert(r == j);
}

proof fn lemma_prev_found(list: Seq<ListingView>, cur: PathView, p: int, j: int)
    requires
        is_position(list, cur, p),
        is_prev_image(list, p, j),
    ensures
        prev_image(list, cur) == Some((list[j].file_path, j)),
{
    let (q, r) = choose|q: int, r: int|
        is_position(list, cur, q) && is_prev_image(list, q, r);
    assert(is_position(list, cur, q) && is_prev_image(list, q, r));
    assert(q == p);
    assert(r == j);
}

/// Stepping forward from an image and then back arrives where it started:
/// in a listing without repeated paths, if the image after `a` is `b`, then
/// the image before `b` is `a`, at the place of `a`.
pub proof fn lemma_next_then_prev(list: Seq<ListingView>, a: PathView, b: PathView, i: int)
    requires
        unique_paths(list),
        is_image_path(a),
        next_image(list, a) == Some((b, i)),
    ensures
        exists|k: int| is_position(list, a, k) && prev_image(list, b) == Some((a, k)),
{
    let (p, j) = choose|p: int, j: int| is_position(list, a, p) && is_next_image(list, p, j);
    assert(is_position(list, a, p) && is_next_image(list, p, j));
    assert(j == i && list[j].file_path == b);
    assert(is_position(list, b, j)) by {
        assert forall|k: int| 0 <= k < j implies list[k].file_path != b by {
            assert(list[k].file_path != list[j].file_path);
        }
    }
    assert(is_prev_image(list, j, p));
    lemma_prev_found(list, b, j, p);
}

/// Stepping back from an image and then forward arrives where it started:
/// in a listing without repeated paths, if the image before `a` is `b`, then
/// the image after `b` is `a`, at the place of `a`.
pub proof fn lemma_prev_then_next(list: Seq<ListingView>, a: PathView, b: PathView, i: int)
    requires
        unique_paths(list),
        is_image_path(a),
        prev_image(list, a) == Some((b, i)),
    ensures
        exists|k: int| is_position(list, a, k) && next_image(list, b) == Some((a, k)),
{
    let (p, j) = choose|p: int, j: int| is_position(list, a, p) && is_prev_image(list, p, j);
    assert(is_position(list, a, p) && is_prev_image(list, p, j));
    assert(j == i && list[j].file_path == b);
    assert(is_position(list, b, j)) by {
        assert forall|k: int| 0 <= k < j implies list[k].file_path != b by {
            assert(list[k].file_path != list[j].file_path);
        }
    }
    assert(is_next_image(list, j, p));
    lemma_next_found(list, b, j, p);
}

/// The first place of the listing whose path is `cur`.
pub fn position_of(list: &Vec<Listing>, cur: &VirtualPath) -> (found: Option<usize>)
    ensures
        match found {
            Some(p) => is_position(entry_views(list@), cur@, p as int),
            None => forall|p: int| !is_position(entry_views(list@), cur@, p),
        },
{
    let mut p: usize = 0;
    while p < list.len()
        invariant
            p <= list.len(),
            forall|k: int| 0 <= k < p ==> entry_views(list@)[k].file_path != cur@,
        decreases list.len() - p,
    {
        if list[p].file_path.same_as(cur) {
            return Some(p);
        }
        p += 1;
    }
    None
}

/// The nearest image after `cur` in the listing, with its place.
pub fn find_next_image(list: &Vec<Listing>, cur: &VirtualPath) -> (found: Option<
    (VirtualPath, usize),
>)
    ensures
        match found {
            Some((path, at)) => next_image(entry_views(list@), cur@) == Some((path@, at as int)),
            None => next_image(entry_views(list@), cur@).is_none(),
        },
{
    let ghost views = entry_views(list@);
    let p = match position_of(list, cur) {
        Some(p) => p,
        None => {
            return None;
        },
    };
    proof {
        assert(views.len() == list.len());
    }
    let mut j: usize = p + 1;
    while j < list.len()
        invariant
            p < j <= list.len(),
            views == entry_views(list@),
            is_position(views, cur@, p as int),
            forall|k: int| p < k < j ==> !is_image_path(views[k].file_path),
        decreases list.len() - j,
    {
        if has_image_extension(&list[j].file_path) {
            proof {
                lemma_next_found(views, cur@, p as int, j as int);
            }
            return Some((list[j].file_path.duplicate(), j));
        }
        j += 1;
    }
    proof {
        assert forall|q: int, r: int|
            !(is_position(views, cur@, q) && is_next_image(views, q, r)) by {
            if is_position(views, cur@, q) && is_next_image(views, q, r) {
                assert(q == p);
            }
        }
    }
    None
}

/// The nearest image before `cur` in the listing, with its place.
pub fn find_prev_image(list: &Vec<Listing>, cur: &VirtualPath) -> (found: Option<
    (VirtualPath, usize),
>)
    ensures
        match found {
            Some((path, at)) => prev_image(entry_views(list@), cur@) == Some((path@, at as int)),
            None => prev_image(entry_views(list@), cur@).is_none(),
        },
{
    let ghost views = entry_views(list@);
    let p = match position_of(list, cur) {
        Some(p) => p,
        None => {
            return None;
        },
    };
    proof {
        assert(views.len() == list.len());
    }
    let mut j: usize = p;
    while j > 0
        invariant
            j <= p < list.len(),
            views == entry_views(list@),
            is_position(views, cur@, p as int),
            forall|k: int| j <= k < p ==> !is_image_path(views[k].file_path),
        decreases j,
    {
        j -= 1;
        if has_image_extension(&list[j].file_path) {
            proof {
                lemma_prev_found(views, cur@, p as int, j as int);
            }
            return Some((list[j].file_path.duplicate(), j));
        }
    }
    proof {
        assert forall|q: int, r: int|
            !(is_position(views, cur@, q) && is_prev_image(views, q, r)) by {
            if is_position(views, cur@, q) && is_prev_image(views, q, r) {
                assert(q == p);
            }
        }
    }
    None
}

} // verus!
