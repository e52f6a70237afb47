//! Entries of a directory or archive listing, and the order in which a
//! listing shows them.

use crate::kinds::{has_archive_extension, has_image_extension, is_archive_path, is_image_path};
use crate::path::{text_copy, PathView, VirtualPath};
use crate::text::{
    chars_of, compare_text, is_order, lemma_lex_equal, lemma_lex_flip, lemma_lex_trans,
    lemma_text_order, names_compared, text_order, texts_compared, Order,
};
use vstd::multiset::Multiset;
use vstd::prelude::*;
use vstd::relations::{sorted_by, total_ordering};

verus! {

/// What kind of thing a listing entry is. The declaration order is the sort
/// order: directories first, archives last.
#[derive(Clone, Copy, Debug, PartialEq, Eq, Structural)]
pub enum EntryType {
    Dir,
    Link,
    File,
    Image,
    Archive,
}

impl EntryType {
    /// Place of the kind in the sort order.
    pub open spec fn rank(self) -> int {
        match self {
            EntryType::Dir => 0,
            EntryType::Link => 1,
            EntryType::File => 2,
            EntryType::Image => 3,
            EntryType::Archive => 4,
        }
    }

    /// Place of the kind in the sort order.
    pub fn rank_of(self) -> (r: u8)
        ensures
            r == self.rank(),
    {
        match self {
            EntryType::Dir => 0,
            EntryType::Link => 1,
            EntryType::File => 2,
            EntryType::Image => 3,
            EntryType::Archive => 4,
        }
    }
}

/// One entry of a listing.
#[derive(Clone, Debug, PartialEq, Eq)]
pub struct Listing {
    pub entry_type: EntryType,
    pub display_name: Vec<char>,
    pub file_path: VirtualPath,
    pub size: u64,
}

/// The mathematical value of a [`Listing`].
pub ghost struct ListingView {
    pub entry_type: EntryType,
    pub display_name: Seq<char>,
    pub file_path: PathView,
    pub size: u64,
}

impl View for Listing {
    type V = ListingView;

    open spec fn view(&self) -> ListingView {
        ListingView {
            entry_type: self.entry_type,
            display_name: self.display_name@,
            file_path: self.file_path@,
            size: self.size,
        }
    }
}

/// The entries that a vector of entries holds.
pub open spec fn entry_views(entries: Seq<Listing>) -> Seq<ListingView> {
    Seq::new(entries.len(), |i: int| entries[i]@)
}

/// Comparison of two integers.
pub open spec fn ints_compared(x: int, y: int) -> Order {
    if x < y {
        Order::Less
    } else if x > y {
        Order::Greater
    } else {
        Order::Equal
    }
}

/// Comparison of two paths: a rooted path comes before a relative one, then
/// the names decide, lexicographically.
pub open spec fn paths_compared(a: PathView, b: PathView) -> Order {
    if a.rooted && !b.rooted {
        Order::Less
    } else if !a.rooted && b.rooted {
        Order::Greater
    } else {
        names_compared(a.parts, b.parts)
    }
}

/// Comparison of two entries: by kind, then by name, then by path, then by
/// size.
pub open spec fn entries_compared(a: ListingView, b: ListingView) -> Order {
    ints_compared(a.entry_type.rank(), b.entry_type.rank()).refine(
        texts_compared(a.display_name, b.display_name).refine(
            paths_compared(a.file_path, b.file_path).refine(
                ints_compared(a.size as int, b.size as int),
            ),
        ),
    )
}

/// [`entries_compared`] as a function value.
pub open spec fn entry_order() -> spec_fn(ListingView, ListingView) -> Order {
    |a: ListingView, b: ListingView| entries_compared(a, b)
}

/// `a` may stand before `b` in a listing.
pub open spec fn entry_le(a: ListingView, b: ListingView) -> bool {
    entries_compared(a, b) != Order::Greater
}

/// [`entry_le`] as a function value.
pub open spec fn listing_order() -> spec_fn(ListingView, ListingView) -> bool {
    |a: ListingView, b: ListingView| entry_le(a, b)
}

/// The comparison of entries comes from a total order.
pub proof fn lemma_entry_order()
    ensures
        is_order(entry_order()),
{
    lemma_text_order();
    let f = entry_order();
    let t = text_order();
    assert forall|x: ListingView, y: ListingView| #[trigger] f(x, y) == f(y, x).flip() by {
        assert(t(x.display_name, y.display_name) == t(y.display_name, x.display_name).flip());
        lemma_lex_flip(x.file_path.parts, y.file_path.parts, t);
    }
    assert forall|x: ListingView, y: ListingView|
        (#[trigger] f(x, y) == Order::Equal) <==> x == y by {
        assert((t(x.display_name, y.display_name) == Order::Equal) <==> x.display_name
            == y.display_name);
        lemma_lex_equal(x.file_path.parts, y.file_path.parts, t);
    }
    assert forall|x: ListingView, y: ListingView, z: ListingView|
        #[trigger] f(x, y) != Order::Greater && #[trigger] f(y, z) != Order::Greater implies f(x, z)
        != Order::Greater by {
        let nxy = t(x.display_name, y.display_name);
        let nyz = t(y.display_name, z.display_name);
        let nxz = t(x.display_name, z.display_name);
        assert(nxy != Order::Greater && nyz != Order::Greater ==> nxz != Order::Greater);
        assert((nxy == Order::Equal) <==> x.display_name == y.display_name);
        assert((nyz == Order::Equal) <==> y.display_name == z.display_name);
        assert((nxz == Order::Equal) <==> x.display_name == z.display_name);
        assert(nyz == t(z.display_name, y.display_name).flip());
        let (px, py, pz) = (x.file_path.parts, y.file_path.parts, z.file_path.parts);
        lemma_lex_equal(px, py, t);
        lemma_lex_equal(py, pz, t);
        lemma_lex_equal(px, pz, t);
        lemma_lex_flip(pz, py, t);
        if names_compared(px, py) != Order::Greater && names_compared(py, pz) != Order::Greater {
            lemma_lex_trans(px, py, pz, t);
        }
    }
}

/// The order of a listing is total: any two entries can be put in order, and
/// only one way unless they are the same entry.
pub proof fn lemma_listing_order_total()
    ensures
        total_ordering(listing_order()),
{
    lemma_entry_order();
    let f = entry_order();
    let le = listing_order();
    assert forall|x: ListingView| #[trigger] le(x, x) by {
        assert((f(x, x) == Order::Equal) <==> x == x);
    }
    assert forall|x: ListingView, y: ListingView| #[trigger] le(x, y) && #[trigger] le(y, x) implies x
        == y by {
        assert(f(x, y) == f(y, x).flip());
        assert((f(x, y) == Order::Equal) <==> x == y);
    }
    assert forall|x: ListingView, y: ListingView, z: ListingView|
        #[trigger] le(x, y) && #[trigger] le(y, z) implies le(x, z) by {
        assert(f(x, y) != Order::Greater && f(y, z) != Order::Greater ==> f(x, z) != Order::Greater);
    }
    assert forall|x: ListingView, y: ListingView| #[trigger] le(x, y) || #[trigger] le(y, x) by {
        assert(f(x, y) == f(y, x).flip());
    }
}

impl Listing {
    /// An entry with the given kind, name, path and size.
    pub fn new(entry_type: EntryType, display_name: &str, file_path: VirtualPath, size: u64) -> (e:
        Listing)
        ensures
            e@ == (ListingView {
                entry_type,
                display_name: display_name@,
                file_path: file_path@,
                size,
            }),
    {
        Listing { entry_type, display_name: chars_of(display_name), file_path, size }
    }

    /// A fresh copy of the entry.
    pub fn duplicate(&self) -> (e: Listing)
        ensures
            e@ == self@,
    {
        Listing {
            entry_type: self.entry_type,
            display_name: text_copy(&self.display_name),
            file_path: self.file_path.duplicate(),
            size: self.size,
        }
    }
}

/// A fresh copy of a listing.
pub fn copy_listing(entries: &Vec<Listing>) -> (copy: Vec<Listing>)
    ensures
        entry_views(copy@) == entry_views(entries@),
{
    let mut copy: Vec<Listing> = Vec::new();
    let mut i: usize = 0;
    while i < entries.len()
        invariant
            i <= entries.len(),
            copy.len() == i,
            forall|k: int| 0 <= k < i ==> copy@[k]@ == entries@[k]@,
        decreases entries.len() - i,
    {
        copy.push(entries[i].duplicate());
        i += 1;
    }
    proof {
        assert(entry_views(copy@) =~= entry_views(entries@));
    }
    copy
}

fn compare_numbers(x: u64, y: u64) -> (o: Order)
    ensures
        o == ints_compared(x as int, y as int),
{
    if x < y {
        Order::Less
    } else if x > y {
        Order::Greater
    } else {
        Order::Equal
    }
}

/// Compares two paths.
pub fn compare_paths(a: &VirtualPath, b: &VirtualPath) -> (o: Order)
    ensures
        o == paths_compared(a@, b@),
{
    if a.rooted && !b.rooted {
        return Order::Less;
    }
    if !a.rooted && b.rooted {
        return Order::Greater;
    }
    let mut i: usize = 0;
    proof {
        assert(a@.parts.skip(0) =~= a@.parts);
        assert(b@.parts.skip(0) =~= b@.parts);
    }
    while i < a.parts.len() && i < b.parts.len()
        invariant
            i <= a.parts.len(),
            i <= b.parts.len(),
            a.rooted == b.rooted,
            names_compared(a@.parts, b@.parts) == names_compared(
                a@.parts.skip(i as int),
                b@.parts.skip(i as int),
            ),
        decreases a.parts.len() - i,
    {
        proof {
            assert(a@.parts.skip(i as int).drop_first() =~= a@.parts.skip(i + 1));
            assert(b@.parts.skip(i as int).drop_first() =~= b@.parts.skip(i + 1));
            let (sa, sb) = (a@.parts.skip(i as int), b@.parts.skip(i as int));
            assert(sa.len() > 0 && sb.len() > 0);
            assert(sa[0] == a.parts@[i as int]@);
            assert(sb[0] == b.parts@[i as int]@);
        }
        match compare_text(&a.parts[i], &b.parts[i]) {
            Order::Less => {
                return Order::Less;
            },
            Order::Greater => {
                return Order::Greater;
            },
            Order::Equal => {},
        }
        i += 1;
    }
    proof {
        assert(a@.parts.skip(i as int).len() == a.parts.len() - i);
        assert(b@.parts.skip(i as int).len() == b.parts.len() - i);
    }
    if i < b.parts.len() {
        Order::Less
    } else if i < a.parts.len() {
        Order::Greater
    } else {
        Order::Equal
    }
}

/// Compares two entries by kind, name, path and size.
pub fn compare_entries(a: &Listing, b: &Listing) -> (o: Order)
    ensures
        o == entries_compared(a@, b@),
{
    match compare_numbers(a.entry_type.rank_of() as u64, b.entry_type.rank_of() as u64) {
        Order::Less => {
            return Order::Less;
        },
        Order::Greater => {
            return Order::Greater;
        },
        Order::Equal => {},
    }
    match compare_text(&a.display_name, &b.display_name) {
        Order::Less => {
            return Order::Less;
        },
        Order::Greater => {
            return Order::Greater;
        },
        Order::Equal => {},
    }
    match compare_paths(&a.file_path, &b.file_path) {
        Order::Less => {
            return Order::Less;
        },
        Order::Greater => {
            return Order::Greater;
        },
        Order::Equal => {},
    }
    compare_numbers(a.size, b.size)
}

/// The entry with its kind set to `Archive` where its path has the
/// extension of an archive format.
pub open spec fn as_archive(e: ListingView) -> ListingView {
    if is_archive_path(e.file_path) {
        ListingView { entry_type: EntryType::Archive, ..e }
    } else {
        e
    }
}

/// The entry with its kind set to `Image` where its path has the extension
/// of an image format.
pub open spec fn as_image(e: ListingView) -> ListingView {
    if is_image_path(e.file_path) {
        ListingView { entry_type: EntryType::Image, ..e }
    } else {
        e
    }
}

/// The entry as a directory listing shows it: the extension of its path
/// decides where it is that of an archive or image format, else the kind it
/// came with stands.
pub open spec fn classified(e: ListingView) -> ListingView {
    as_image(as_archive(e))
}

/// Marks the entries whose path has the extension of an archive format.
pub fn set_archive_types(list: Vec<Listing>) -> (out: Vec<Listing>)
    ensures
        entry_views(out@) == entry_views(list@).map_values(|e: ListingView| as_archive(e)),
{
    let mut list = list;
    let ghost before = entry_views(list@);
    let mut i: usize = 0;
    while i < list.len()
        invariant
            i <= list.len(),
            list.len() == before.len(),
            forall|k: int| 0 <= k < i ==> list@[k]@ == as_archive(before[k]),
            forall|k: int| i <= k < list.len() ==> list@[k]@ == before[k],
        decreases list.len() - i,
    {
        if has_archive_extension(&list[i].file_path) {
            list[i].entry_type = EntryType::Archive;
        }
        i += 1;
    }
    proof {
        assert(entry_views(list@) =~= before.map_values(|e: ListingView| as_archive(e)));
    }
    list
}

/// Marks the entries whose path has the extension of an image format.
pub fn set_image_types(list: Vec<Listing>) -> (out: Vec<Listing>)
    ensures
        entry_views(out@) == entry_views(list@).map_values(|e: ListingView| as_image(e)),
{
    let mut list = list;
    let ghost before = entry_views(list@);
    let mut i: usize = 0;
    while i < list.len()
        invariant
            i <= list.len(),
            list.len() == before.len(),
            forall|k: int| 0 <= k < i ==> list@[k]@ == as_image(before[k]),
            forall|k: int| i <= k < list.len() ==> list@[k]@ == before[k],
        decreases list.len() - i,
    {
        if has_image_extension(&list[i].file_path) {
            list[i].entry_type = EntryType::Image;
        }
        i += 1;
    }
    proof {
        assert(entry_views(list@) =~= before.map_values(|e: ListingView| as_image(e)));
    }
    list
}

proof fn lemma_empty_multiset(s: Seq<ListingView>)
    requires
        s.len() == 0,
    ensures
        forall|m: Multiset<ListingView>| #[trigger] m.add(s.to_multiset()) == m,
        forall|m: Multiset<ListingView>| #[trigger] s.to_multiset().add(m) == m,
{
    vstd::seq_lib::to_multiset_len(s);
    vstd::multiset::lemma_multiset_empty_len(s.to_multiset());
    assert forall|m: Multiset<ListingView>| #[trigger] m.add(s.to_multiset()) == m by {
        assert(m.add(s.to_multiset()) =~= m);
    }
    assert forall|m: Multiset<ListingView>| #[trigger] s.to_multiset().add(m) == m by {
        assert(s.to_multiset().add(m) =~= m);
    }
}

/// The entries stand in falling order.
spec fn falling(list: Seq<ListingView>) -> bool {
    forall|i: int, j: int| 0 <= i < j < list.len() ==> entry_le(list[j], list[i])
}

/// No entry of `low` must stand after an entry of `high`.
spec fn below(low: Seq<ListingView>, high: Seq<ListingView>) -> bool {
    forall|i: int, k: int| 0 <= i < low.len() && 0 <= k < high.len() ==> entry_le(low[i], high[k])
}

proof fn lemma_order_facts(x: ListingView, y: ListingView, z: ListingView)
    ensures
        entry_le(x, x),
        entry_le(x, y) || entry_le(y, x),
        entries_compared(x, y) == Order::Greater ==> entry_le(y, x),
        entry_le(x, y) && entry_le(y, z) ==> entry_le(x, z),
{
    lemma_entry_order();
    let f = entry_order();
    assert((f(x, x) == Order::Equal) <==> x == x);
    assert(f(x, y) == f(y, x).flip());
    assert(f(x, y) != Order::Greater && f(y, z) != Order::Greater ==> f(x, z) != Order::Greater);
}

/// Merges two listings that are in order into one.
fn merge(a: Vec<Listing>, b: Vec<Listing>) -> (out: Vec<Listing>)
    requires
        sorted_by(entry_views(a@), listing_order()),
        sorted_by(entry_views(b@), listing_order()),
    ensures
        sorted_by(entry_views(out@), listing_order()),
        entry_views(out@).to_multiset() == entry_views(a@).to_multiset().add(
            entry_views(b@).to_multiset(),
        ),
{
    let ghost all = entry_views(a@).to_multiset().add(entry_views(b@).to_multiset());
    let le = Ghost(listing_order());
    let mut a = a;
    let mut b = b;
    // The entries taken so far, the greatest first.
    let mut taken: Vec<Listing> = Vec::new();
    proof {
        lemma_empty_multiset(entry_views(taken@));
    }
    while a.len() > 0 || b.len() > 0
        invariant
            le@ == listing_order(),
            sorted_by(entry_views(a@), le@),
            sorted_by(entry_views(b@), le@),
            falling(entry_views(taken@)),
            below(entry_views(a@), entry_views(taken@)),
            below(entry_views(b@), entry_views(taken@)),
            entry_views(taken@).to_multiset().add(entry_views(a@).to_multiset()).add(
                entry_views(b@).to_multiset(),
            ) == all,
        decreases a.len() + b.len(),
    {
        let ghost va = entry_views(a@);
        let ghost vb = entry_views(b@);
        let ghost vt = entry_views(taken@);
        let from_a = if a.len() == 0 {
            false
        } else if b.len() == 0 {
            true
        } else {
            compare_entries(&a[a.len() - 1], &b[b.len() - 1]) == Order::Greater
        };
        let x = if from_a {
            a.pop().unwrap()
        } else {
            b.pop().unwrap()
        };
        taken.push(x);
        proof {
            let na = entry_views(a@);
            let nb = entry_views(b@);
            let nt = entry_views(taken@);
            assert(nt =~= vt.push(x@));
            vstd::seq_lib::to_multiset_build(vt, x@);
            if from_a {
                assert(va =~= na.push(x@));
                assert(nb == vb);
                vstd::seq_lib::to_multiset_build(na, x@);
            } else {
                assert(vb =~= nb.push(x@));
                assert(na == va);
                vstd::seq_lib::to_multiset_build(nb, x@);
            }
            assert(nt.to_multiset().add(na.to_multiset()).add(nb.to_multiset()) =~= vt.to_multiset().add(
                va.to_multiset(),
            ).add(vb.to_multiset()));
            assert forall|i: int, j: int| 0 <= i < j < na.len() implies #[trigger] le@(
                na[i],
                na[j],
            ) by {
                assert(le@(va[i], va[j]));
            }
            assert forall|i: int, j: int| 0 <= i < j < nb.len() implies #[trigger] le@(
                nb[i],
                nb[j],
            ) by {
                assert(le@(vb[i], vb[j]));
            }
            assert forall|i: int, j: int| 0 <= i < j < nt.len() implies entry_le(nt[j], nt[i]) by {
                if j == vt.len() {
                    if from_a {
                        assert(entry_le(va[va.len() - 1], vt[i]));
                    } else {
                        assert(entry_le(vb[vb.len() - 1], vt[i]));
                    }
                } else {
                    assert(entry_le(vt[j], vt[i]));
                }
            }
            assert forall|i: int, k: int| 0 <= i < na.len() && 0 <= k < nt.len() implies entry_le(
                na[i],
                nt[k],
            ) by {
                if k < vt.len() {
                    assert(entry_le(va[i], vt[k]));
                } else if from_a {
                    assert(le@(va[i], va[va.len() - 1]));
                } else {
                    let last_a = va[va.len() - 1];
                    lemma_order_facts(last_a, x@, x@);
                    lemma_order_facts(va[i], last_a, x@);
                    if i < va.len() - 1 {
                        assert(le@(va[i], last_a));
                    }
                }
            }
            assert forall|i: int, k: int| 0 <= i < nb.len() && 0 <= k < nt.len() implies entry_le(
                nb[i],
                nt[k],
            ) by {
                if k < vt.len() {
                    assert(entry_le(vb[i], vt[k]));
                } else if !from_a {
                    assert(le@(vb[i], vb[vb.len() - 1]));
                } else {
                    let last_b = vb[vb.len() - 1];
                    lemma_order_facts(x@, last_b, last_b);
                    lemma_order_facts(vb[i], last_b, x@);
                    if i < vb.len() - 1 {
                        assert(le@(vb[i], last_b));
                    }
                }
            }
        }
    }
    let mut out: Vec<Listing> = Vec::new();
    proof {
        lemma_empty_multiset(entry_views(a@));
        lemma_empty_multiset(entry_views(b@));
        lemma_empty_multiset(entry_views(out@));
    }
    while taken.len() > 0
        invariant
            le@ == listing_order(),
            falling(entry_views(taken@)),
            sorted_by(entry_views(out@), le@),
            below(entry_views(out@), entry_views(taken@)),
            entry_views(out@).to_multiset().add(entry_views(taken@).to_multiset()) == all,
        decreases taken.len(),
    {
        let ghost vt = entry_views(taken@);
        let ghost vo = entry_views(out@);
        let x = taken.pop().unwrap();
        out.push(x);
        proof {
            let nt = entry_views(taken@);
            let no = entry_views(out@);
            assert(vt =~= nt.push(x@));
            assert(no =~= vo.push(x@));
            vstd::seq_lib::to_multiset_build(nt, x@);
            vstd::seq_lib::to_multiset_build(vo, x@);
            assert(no.to_multiset().add(nt.to_multiset()) =~= vo.to_multiset().add(vt.to_multiset()));
            assert forall|i: int, j: int| 0 <= i < j < nt.len() implies entry_le(nt[j], nt[i]) by {
                assert(entry_le(vt[j], vt[i]));
            }
            assert forall|i: int, j: int| 0 <= i < j < no.len() implies #[trigger] le@(
                no[i],
                no[j],
            ) by {
                if j == vo.len() {
                    assert(entry_le(vo[i], vt[vt.len() - 1]));
                } else {
                    assert(le@(vo[i], vo[j]));
                }
            }
            assert forall|i: int, k: int| 0 <= i < no.len() && 0 <= k < nt.len() implies entry_le(
                no[i],
                nt[k],
            ) by {
                if i < vo.len() {
                    assert(entry_le(vo[i], vt[k]));
                } else {
                    assert(entry_le(vt[vt.len() - 1], vt[k]));
                }
            }
        }
    }
    proof {
        lemma_empty_multiset(entry_views(taken@));
    }
    out
}

/// Puts the entries in the order of a listing.
pub fn sort_listing(list: Vec<Listing>) -> (out: Vec<Listing>)
    ensures
        sorted_by(entry_views(out@), listing_order()),
        entry_views(out@).to_multiset() == entry_views(list@).to_multiset(),
    decreases list.len(),
{
    if list.len() <= 1 {
        return list;
    }
    let ghost whole = entry_views(list@);
    let mut left = list;
    let mid = left.len() / 2;
    let right = left.split_off(mid);
    proof {
        assert(whole =~= entry_views(left@) + entry_views(right@));
        vstd::seq_lib::lemma_multiset_commutative(entry_views(left@), entry_views(right@));
    }
    let low = sort_listing(left);
    let high = sort_listing(right);
    merge(low, high)
}

/// Whether the listing has an entry for `path`.
pub open spec fn lists_path(list: Seq<ListingView>, path: PathView) -> bool {
    exists|i: int| 0 <= i < list.len() && #[trigger] list[i].file_path == path
}

/// The listing with `e` at its end, unless it has an entry for the path of
/// `e` already.
pub open spec fn with_entry(list: Seq<ListingView>, e: ListingView) -> Seq<ListingView> {
    if lists_path(list, e.file_path) {
        list
    } else {
        list.push(e)
    }
}

/// The place at which `e` enters a listing: before the first entry that it
/// stands before.
pub open spec fn place_of(list: Seq<ListingView>, e: ListingView) -> int
    decreases list.len(),
{
    if list.len() == 0 || entries_compared(e, list[0]) == Order::Less {
        0
    } else {
        1 + place_of(list.drop_first(), e)
    }
}

/// The listing with `e` at its place in the order, unless it has an entry
/// for the path of `e` already.
pub open spec fn with_entry_in_order(list: Seq<ListingView>, e: ListingView) -> Seq<ListingView> {
    if lists_path(list, e.file_path) {
        list
    } else {
        list.insert(place_of(list, e), e)
    }
}

/// The place of an entry is inside the listing, after every entry that it
/// does not stand before, and at one that it stands before.
pub proof fn lemma_place_of(list: Seq<ListingView>, e: ListingView)
    ensures
        0 <= place_of(list, e) <= list.len(),
        forall|k: int|
            0 <= k < place_of(list, e) ==> entries_compared(e, #[trigger] list[k]) != Order::Less,
        place_of(list, e) < list.len() ==> entries_compared(e, list[place_of(list, e)])
            == Order::Less,
    decreases list.len(),
{
    if !(list.len() == 0 || entries_compared(e, list[0]) == Order::Less) {
        let rest = list.drop_first();
        lemma_place_of(rest, e);
        assert forall|k: int| 0 <= k < place_of(list, e) implies entries_compared(
            e,
            #[trigger] list[k],
        ) != Order::Less by {
            if k > 0 {
                assert(rest[k - 1] == list[k]);
            }
        }
    }
}

/// An entry that enters a listing in order leaves it in order, with the
/// entries it had and the new one, and with no path twice if it had none.
pub proof fn lemma_entry_in_order(list: Seq<ListingView>, e: ListingView)
    ensures
        sorted_by(list, listing_order()) ==> sorted_by(
            with_entry_in_order(list, e),
            listing_order(),
        ),
        unique_paths(list) ==> unique_paths(with_entry_in_order(list, e)),
        with_entry_in_order(list, e).to_multiset() == with_entry(list, e).to_multiset(),
        lists_path(with_entry_in_order(list, e), e.file_path),
        forall|x: ListingView| list.contains(x) ==> with_entry_in_order(list, e).contains(x),
        forall|x: ListingView|
            with_entry_in_order(list, e).contains(x) ==> list.contains(x) || x == e,
{
    let le = listing_order();
    let out = with_entry_in_order(list, e);
    if !lists_path(list, e.file_path) {
        let p = place_of(list, e);
        lemma_place_of(list, e);
        vstd::seq_lib::to_multiset_insert(list, p, e);
        vstd::seq_lib::to_multiset_build(list, e);
        assert(out[p].file_path == e.file_path);
        assert forall|x: ListingView| list.contains(x) implies out.contains(x) by {
            let i = choose|i: int| 0 <= i < list.len() && list[i] == x;
            let i2 = if i < p { i } else { i + 1 };
            assert(out[i2] == x);
        }
        assert forall|x: ListingView| out.contains(x) implies list.contains(x) || x == e by {
            let i = choose|i: int| 0 <= i < out.len() && out[i] == x;
            if i < p {
                assert(list[i] == x);
            } else if i > p {
                assert(list[i - 1] == x);
            }
        }
        if unique_paths(list) {
            assert forall|i: int, j: int| 0 <= i < j < out.len() implies out[i].file_path
                != out[j].file_path by {
                let i0 = if i < p { i } else { i - 1 };
                let j0 = if j < p { j } else { j - 1 };
                if i == p {
                    assert(list[j0].file_path != e.file_path);
                } else if j == p {
                    assert(list[i0].file_path != e.file_path);
                } else {
                    assert(list[i0].file_path != list[j0].file_path);
                }
            }
        }
        if sorted_by(list, le) {
            assert forall|i: int, j: int| 0 <= i < j < out.len() implies #[trigger] le(
                out[i],
                out[j],
            ) by {
                let i0 = if i < p { i } else { i - 1 };
                let j0 = if j < p { j } else { j - 1 };
                if i == p {
                    lemma_order_facts(e, list[p], list[j0]);
                    if j0 > p {
                        assert(le(list[p], list[j0]));
                    }
                } else if j == p {
                    assert(entries_compared(e, list[i0]) != Order::Less);
                    lemma_order_facts(list[i0], e, e);
                    lemma_entry_order();
                    assert(entry_order()(e, list[i0]) == entry_order()(list[i0], e).flip());
                } else {
                    assert(le(list[i0], list[j0]));
                }
            }
        }
    } else {
        let i = choose|i: int| 0 <= i < list.len() && list[i].file_path == e.file_path;
        assert(out[i].file_path == e.file_path);
    }
}

/// Enters `e` into the listing at its place in the order, unless the
/// listing has an entry for its path already.
pub fn insert_in_order(list: &mut Vec<Listing>, e: Listing)
    ensures
        entry_views(final(list)@) == with_entry_in_order(entry_views(old(list)@), e@),
{
    if has_path(list, &e.file_path) {
        return;
    }
    let ghost views = entry_views(list@);
    let mut p: usize = 0;
    proof {
        assert(views.skip(0) =~= views);
    }
    while p < list.len() && compare_entries(&e, &list[p]) != Order::Less
        invariant
            p <= list.len(),
            views == entry_views(list@),
            place_of(views, e@) == p + place_of(views.skip(p as int), e@),
        decreases list.len() - p,
    {
        proof {
            assert(views.skip(p as int)[0] == list@[p as int]@);
            assert(views.skip(p as int).drop_first() =~= views.skip(p + 1));
        }
        p += 1;
    }
    proof {
        if p < list.len() {
            assert(views.skip(p as int)[0] == list@[p as int]@);
        }
        assert(place_of(views, e@) == p);
    }
    list.insert(p, e);
    proof {
        assert(entry_views(list@) =~= views.insert(p as int, e@));
    }
}

/// The listing with only the first entry of each path.
pub open spec fn without_repeats(list: Seq<ListingView>) -> Seq<ListingView>
    decreases list.len(),
{
    if list.len() == 0 {
        Seq::empty()
    } else {
        with_entry(without_repeats(list.drop_last()), list.last())
    }
}

/// No path occurs twice in the listing.
pub open spec fn unique_paths(list: Seq<ListingView>) -> bool {
    forall|i: int, j: int| 0 <= i < j < list.len() ==> list[i].file_path != list[j].file_path
}

/// Adding an entry for a new path keeps the paths of a listing apart.
pub proof fn lemma_with_entry_unique(list: Seq<ListingView>, e: ListingView)
    requires
        unique_paths(list),
    ensures
        unique_paths(with_entry(list, e)),
{
    if !lists_path(list, e.file_path) {
        let out = list.push(e);
        assert forall|i: int, j: int| 0 <= i < j < out.len() implies out[i].file_path
            != out[j].file_path by {
            if j == list.len() {
                assert(list[i].file_path != e.file_path);
            }
        }
    }
}

/// A listing without repeats has no path twice.
pub proof fn lemma_without_repeats_unique(list: Seq<ListingView>)
    ensures
        unique_paths(without_repeats(list)),
    decreases list.len(),
{
    if list.len() > 0 {
        lemma_without_repeats_unique(list.drop_last());
        lemma_with_entry_unique(without_repeats(list.drop_last()), list.last());
    }
}

/// Whether the listing has an entry for `path`.
pub fn has_path(list: &Vec<Listing>, path: &VirtualPath) -> (found: bool)
    ensures
        found == lists_path(entry_views(list@), path@),
{
    let mut i: usize = list.len();
    while i > 0
        invariant
            i <= list.len(),
            forall|k: int| i <= k < list.len() ==> entry_views(list@)[k].file_path != path@,
        decreases i,
    {
        i -= 1;
        if list[i].file_path.same_as(path) {
            proof {
                assert(entry_views(list@)[i as int].file_path == path@);
            }
            return true;
        }
    }
    false
}

/// The entries with only the first one of each path kept.
pub fn drop_repeats(list: &Vec<Listing>) -> (out: Vec<Listing>)
    ensures
        entry_views(out@) == without_repeats(entry_views(list@)),
{
    let ghost views = entry_views(list@);
    let mut out: Vec<Listing> = Vec::new();
    let mut i: usize = 0;
    proof {
        assert(entry_views(out@) =~= without_repeats(views.take(0)));
    }
    while i < list.len()
        invariant
            i <= list.len(),
            views == entry_views(list@),
            entry_views(out@) == without_repeats(views.take(i as int)),
        decreases list.len() - i,
    {
        let ghost before = entry_views(out@);
        proof {
            assert(views.take(i + 1).drop_last() =~= views.take(i as int));
            assert(views.take(i + 1).last() == list@[i as int]@);
        }
        if !has_path(&out, &list[i].file_path) {
            out.push(list[i].duplicate());
            proof {
                assert(entry_views(out@) =~= before.push(list@[i as int]@));
            }
        }
        i += 1;
    }
    proof {
        assert(views.take(list.len() as int) =~= views);
    }
    out
}

/// The listing of a directory with the given entries: each entry classified
/// by the extension of its path, only the first entry of each path kept, and
/// the entries put in order.
pub open spec fn dir_listing(entries: Seq<ListingView>) -> Seq<ListingView> {
    without_repeats(entries.map_values(|e: ListingView| classified(e))).sort_by(listing_order())
}

/// The listing of a directory has no path twice.
pub proof fn lemma_dir_listing_unique(entries: Seq<ListingView>)
    ensures
        unique_paths(dir_listing(entries)),
        sorted_by(dir_listing(entries), listing_order()),
{
    let kept = without_repeats(entries.map_values(|e: ListingView| classified(e)));
    lemma_without_repeats_unique(entries.map_values(|e: ListingView| classified(e)));
    lemma_listing_order_total();
    kept.lemma_sort_by_ensures(listing_order());
    lemma_same_entries_unique(kept, kept.sort_by(listing_order()));
}

/// The listing of a directory from its entries as they were read: each
/// entry is classified by the extension of its path, only the first entry of
/// each path is kept, and the entries are put in order.
pub fn list_dir(entries: Vec<Listing>) -> (out: Vec<Listing>)
    ensures
        entry_views(out@) == dir_listing(entry_views(entries@)),
        sorted_by(entry_views(out@), listing_order()),
        unique_paths(entry_views(out@)),
        entry_views(out@).to_multiset() == without_repeats(
            entry_views(entries@).map_values(|e: ListingView| classified(e)),
        ).to_multiset(),
{
    let ghost before = entry_views(entries@);
    let marked = set_image_types(set_archive_types(entries));
    proof {
        assert(entry_views(marked@) =~= before.map_values(|e: ListingView| classified(e)));
    }
    let kept = drop_repeats(&marked);
    let out = sort_listing(kept);
    proof {
        lemma_without_repeats_unique(entry_views(marked@));
        lemma_same_entries_unique(entry_views(kept@), entry_views(out@));
        lemma_listing_order_total();
        entry_views(kept@).lemma_sort_by_ensures(listing_order());
        vstd::seq_lib::lemma_sorted_unique(
            entry_views(out@),
            entry_views(kept@).sort_by(listing_order()),
            listing_order(),
        );
    }
    out
}

/// Two listings with the same entries, each as often in one as in the other,
/// both keep their paths apart or neither does.
pub proof fn lemma_same_entries_unique(a: Seq<ListingView>, b: Seq<ListingView>)
    requires
        a.to_multiset() == b.to_multiset(),
        unique_paths(a),
    ensures
        unique_paths(b),
{
    broadcast use vstd::seq_lib::group_to_multiset_ensures;

    assert forall|i: int, j: int| 0 <= i < j < b.len() implies b[i].file_path
        != b[j].file_path by {
        if b[i].file_path == b[j].file_path {
            assert(b.contains(b[i]));
            assert(b.contains(b[j]));
            assert(b.to_multiset().count(b[i]) > 0);
            assert(b.to_multiset().count(b[j]) > 0);
            assert(a.to_multiset().count(b[i]) > 0);
            assert(a.to_multiset().count(b[j]) > 0);
            assert(a.contains(b[i]));
            assert(a.contains(b[j]));
            let x = choose|x: int| 0 <= x < a.len() && a[x] == b[i];
            let y = choose|y: int| 0 <= y < a.len() && a[y] == b[j];
            if x != y {
                if x < y {
                    assert(a[x].file_path != a[y].file_path);
                } else {
                    assert(a[y].file_path != a[x].file_path);
                }
            } else {
                // One entry of `a` stands at two places of `b`.
                assert(b[i] == b[j]);
                let m = b.remove(j).to_multiset();
                assert(b.remove(j)[i] == b[i]);
                assert(b.remove(j).contains(b[i]));
                assert(m.count(b[i]) > 0);
                assert(b.to_multiset().count(b[i]) >= 2);
                lemma_unique_counts(a, x);
            }
        }
    }
}

proof fn lemma_unique_counts(a: Seq<ListingView>, x: int)
    requires
        unique_paths(a),
        0 <= x < a.len(),
    ensures
        a.to_multiset().count(a[x]) == 1,
{
    broadcast use vstd::seq_lib::group_to_multiset_ensures;

    let rest = a.remove(x);
    assert(!rest.contains(a[x])) by {
        if rest.contains(a[x]) {
            let k = choose|k: int| 0 <= k < rest.len() && rest[k] == a[x];
            let k0 = if k < x { k } else { k + 1 };
            assert(a[k0] == a[x]);
            if k0 < x {
                assert(a[k0].file_path != a[x].file_path);
            } else {
                assert(a[x].file_path != a[k0].file_path);
            }
        }
    }
    assert(rest.to_multiset().count(a[x]) == 0);
    assert(rest.to_multiset() == a.to_multiset().remove(a[x]));
}

} // verus!
