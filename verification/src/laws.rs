//! What holds of the coordinator's state whatever happens: statements about
//! the resolver, the tiers and the transitions between them.

use crate::archive::{backend_of, lemma_members_keep_order, zip_member, zip_names, Backend};
use crate::listing::{lemma_dir_listing_unique, unique_paths, ListingView};
use crate::navigation::{is_position, next_image, prev_image};
use crate::path::{text_of, PathView};
use crate::raster::RasterView;
use crate::state::{
    found_on_disk, is_first_stop, resolve, LoadPlan, ModelView, ResourceState, Texture,
};
use vstd::prelude::*;

verus! {

/// A path that is on the real filesystem resolves to itself, with no
/// remainder, whatever is held.
pub proof fn lemma_resolve_on_disk(path: PathView, on_disk: Seq<bool>, held: Set<PathView>)
    requires
        found_on_disk(on_disk, path.parts.len() as int),
    ensures
        resolve(path, on_disk, held) == Some((path, None::<PathView>)),
{
}

/// A path that is not on the real filesystem resolves to the ancestor at
/// which the walk from the leaf first stops.
pub proof fn lemma_resolve_first_stop(
    path: PathView,
    on_disk: Seq<bool>,
    held: Set<PathView>,
    k: int,
)
    requires
        !found_on_disk(on_disk, path.parts.len() as int),
        is_first_stop(path, on_disk, held, k),
    ensures
        resolve(path, on_disk, held) == Some((path.ancestor(k), Some(path.remainder(k)))),
{
    let c = choose|c: int| is_first_stop(path, on_disk, held, c);
    assert(is_first_stop(path, on_disk, held, c));
    assert(c == k);
}

/// A path is in at most one of the tiers, work under way counted as one.
pub proof fn lemma_one_tier(m: ModelView, p: PathView)
    requires
        m.wf(),
    ensures
        (if m.data.dom().contains(p) { 1int } else { 0 })
            + (if m.rasters.dom().contains(p) { 1int } else { 0 })
            + (if m.textures.dom().contains(p) { 1int } else { 0 })
            + (if m.pending.dom().contains(p) { 1int } else { 0 }) <= 1,
        m.state_of(p) == ResourceState::DataCached <==> m.data.dom().contains(p),
        m.state_of(p) == ResourceState::RasterCached <==> m.rasters.dom().contains(p),
        m.state_of(p) == ResourceState::TextureResident <==> m.textures.dom().contains(p),
        m.state_of(p) == ResourceState::Absent <==> !(m.data.dom().contains(p)
            || m.rasters.dom().contains(p) || m.textures.dom().contains(p)
            || m.pending.dom().contains(p)),
{
}

/// No transition puts a path into two tiers, or twice into a listing: from
/// a state that is in order, every transition leads to one that is.
pub proof fn lemma_transitions_keep_order(
    m: ModelView,
    p: PathView,
    entry: PathView,
    on_disk: Seq<bool>,
    bytes: Seq<u8>,
    raster: RasterView,
    texture: Texture,
    entries: Seq<ListingView>,
    names: Seq<Seq<char>>,
)
    requires
        m.wf(),
    ensures
        m.entered(p).wf(),
        m.dir_listed(p, entries).wf(),
        m.archive_listed(p, names).wf(),
        m.zip_listed(p, bytes).wf(),
        ModelView::initial(p).wf(),
        m.data_landed(p, bytes).wf(),
        m.load_failed(p).wf(),
        m.load_requested(p, on_disk).wf(),
        m.extracted(p, entry, bytes).wf(),
        m.decode_dispatched(p).wf(),
        m.image_decoded(p, raster).wf(),
        m.decode_failed(p).wf(),
        m.texture_uploaded(p, texture).wf(),
        m.upload_failed(p).wf(),
        m.display_requested(p).wf(),
        m.display_stopped().wf(),
{
    lemma_dir_listing_unique(entries);
    lemma_members_keep_order(m.listings, p, names);
    match zip_names(bytes) {
        Ok(listed) => {
            lemma_members_keep_order(m.listings, p, listed);
        },
        Err(_) => {},
    }
}

/// Stepping through the listing that is browsed can be undone: in a state
/// that is in order, if the image after `a` is `b`, then the image before
/// `b` is `a`, at the place of `a`; and the other way round.
pub proof fn lemma_steps_are_inverses(m: ModelView, a: PathView, b: PathView, i: int)
    requires
        m.wf(),
        crate::kinds::is_image_path(a),
    ensures
        next_image(m.current_listing(), a) == Some((b, i)) ==> exists|k: int|
            is_position(m.current_listing(), a, k) && prev_image(m.current_listing(), b) == Some(
                (a, k),
            ),
        prev_image(m.current_listing(), a) == Some((b, i)) ==> exists|k: int|
            is_position(m.current_listing(), a, k) && next_image(m.current_listing(), b) == Some(
                (a, k),
            ),
{
    let list = m.current_listing();
    assert(unique_paths(list));
    if next_image(list, a) == Some((b, i)) {
        crate::navigation::lemma_next_then_prev(list, a, b, i);
    }
    if prev_image(list, a) == Some((b, i)) {
        crate::navigation::lemma_prev_then_next(list, a, b, i);
    }
}

/// Reading a member out of a zip archive of the real filesystem: the composed
/// path resolves to the archive and the member, extraction puts exactly the
/// member's bytes into the tier of raw bytes and adds their length to its
/// running total, and from then on the bytes are
/// served from that tier: a further extraction changes nothing, whatever
/// the archive holds by then, and a request to load plans no reading.
pub proof fn lemma_resolve_then_extract(
    m: ModelView,
    archive: PathView,
    entry: PathView,
    on_disk: Seq<bool>,
    archive_bytes: Seq<u8>,
    bytes: Seq<u8>,
    later_bytes: Seq<u8>,
)
    requires
        m.wf(),
        backend_of(archive) == Some(Backend::Zip),
        !entry.rooted,
        entry.parts.len() > 0,
        found_on_disk(on_disk, archive.parts.len() as int),
        forall|k: int|
            archive.parts.len() < k <= archive.parts.len() + entry.parts.len() ==> !found_on_disk(
                on_disk,
                k,
            ),
        forall|k: int|
            archive.parts.len() < k < archive.parts.len() + entry.parts.len()
                ==> !m.data.dom().contains(#[trigger] archive.join(entry.parts).ancestor(k)),
        zip_member(archive_bytes, text_of(entry)) == Ok::<Seq<u8>, crate::archive::ExtractError>(
            bytes,
        ),
        m.state_of(archive.join(entry.parts)) == ResourceState::Absent || m.state_of(
            archive.join(entry.parts),
        ) == ResourceState::InFlight,
    ensures
        resolve(archive.join(entry.parts), on_disk, m.data.dom()) == Some(
            (archive, Some(entry)),
        ),
        m.extracted(archive, entry, archive_bytes).state_of(archive.join(entry.parts))
            == ResourceState::DataCached,
        m.extracted(archive, entry, archive_bytes).data[archive.join(entry.parts)] == bytes,
        m.extracted(archive, entry, archive_bytes).data_bytes == m.data_bytes + bytes.len(),
        m.extracted(archive, entry, archive_bytes).extracted(archive, entry, later_bytes)
            == m.extracted(archive, entry, archive_bytes),
        m.extracted(archive, entry, archive_bytes).load_plan(archive.join(entry.parts), on_disk)
            == LoadPlan::Ready,
{
    let p = archive.join(entry.parts);
    let k = archive.parts.len() as int;
    assert(p.ancestor(k) == archive) by {
        assert(p.parts.take(k) =~= archive.parts);
    }
    assert(p.remainder(k) == entry) by {
        assert(p.parts.skip(k) =~= entry.parts);
    }
    assert(is_first_stop(p, on_disk, m.data.dom(), k));
    lemma_resolve_first_stop(p, on_disk, m.data.dom(), k);
}

/// A request is not repeated: while bytes for `p` are in flight, at the
/// decoder or at the graphics processor, a further request to display or
/// load it plans nothing and changes nothing; and once the bytes of `p` have
/// gone to a decoder, asking again sends none.
pub proof fn lemma_requests_are_not_repeated(m: ModelView, p: PathView, on_disk: Seq<bool>)
    requires
        m.wf(),
    ensures
        m.pending.dom().contains(p) ==> m.load_plan(p, on_disk) == LoadPlan::Busy,
        m.pending.dom().contains(p) ==> m.load_requested(p, on_disk) == m,
        m.pending.dom().contains(p) && m.target == Some(p) ==> m.display_requested(p) == m,
        m.load_requested(p, on_disk).pending.dom().contains(p) ==> m.load_requested(
            p,
            on_disk,
        ).load_requested(p, on_disk) == m.load_requested(p, on_disk),
        m.decode_dispatched(p).decode_job(p).is_none(),
        m.decode_dispatched(p).decode_dispatched(p) == m.decode_dispatched(p),
{
}

} // verus!
