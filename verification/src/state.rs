//! The state of the coordinator as a mathematical value: the cached
//! listings, the tiers that resources move through, and the transitions
//! between them.

use crate::archive::{
    all_in_order, backend_of, listing_at, with_members, zip_member, zip_names, Backend,
    ExtractError,
};
use crate::listing::{dir_listing, EntryType, ListingView};
use crate::path::{text_of, PathView};
use crate::raster::RasterView;
use vstd::prelude::*;

verus! {

/// Where a resource stands on its way from a path to the screen.
#[derive(Clone, Copy, Debug, PartialEq, Eq, Structural)]
pub enum ResourceState {
    /// Nothing is known or held of the path.
    Absent,
    /// Its bytes were asked for and have not arrived.
    InFlight,
    /// Its bytes are held.
    DataCached,
    /// Its bytes went to a decoder that has not answered.
    Decoding,
    /// Its decoded raster is held.
    RasterCached,
    /// Its raster went to the graphics processor, which has not answered.
    Uploading,
    /// It is held by the graphics processor.
    TextureResident,
}

/// The work that is under way for a path that holds no tier yet.
#[derive(Clone, Copy, Debug, PartialEq, Eq, Structural)]
pub enum Stage {
    Loading,
    Decoding,
    Uploading,
}

/// An image held by the graphics processor: the handle that the presentation
/// layer gave it, and its size in bytes.
#[derive(Clone, Copy, Debug, PartialEq, Eq, Structural)]
pub struct Texture {
    pub handle: u64,
    pub bytes: u64,
}

/// Whether the ancestor with `k` names was found on the real filesystem.
/// Places that `on_disk` does not reach count as not found.
pub open spec fn found_on_disk(on_disk: Seq<bool>, k: int) -> bool {
    0 <= k < on_disk.len() && on_disk[k]
}

/// Whether the walk from the leaf towards the root stops at the ancestor
/// with `k` names: it is on the real filesystem, or its bytes are held.
pub open spec fn stops_at(path: PathView, on_disk: Seq<bool>, held: Set<PathView>, k: int) -> bool {
    found_on_disk(on_disk, k) || held.contains(path.ancestor(k))
}

/// `k` is the first proper ancestor, from the leaf, at which the walk stops.
pub open spec fn is_first_stop(
    path: PathView,
    on_disk: Seq<bool>,
    held: Set<PathView>,
    k: int,
) -> bool {
    &&& 0 <= k < path.parts.len()
    &&& stops_at(path, on_disk, held, k)
    &&& forall|j: int| k < j < path.parts.len() ==> !stops_at(path, on_disk, held, j)
}

/// Where a virtual path is to be had from: the path itself and no remainder
/// when it is on the real filesystem; else the nearest ancestor that is on
/// the real filesystem or whose bytes are held, with the names below it;
/// nothing when there is no such ancestor.
pub open spec fn resolve(path: PathView, on_disk: Seq<bool>, held: Set<PathView>) -> Option<
    (PathView, Option<PathView>),
> {
    let n = path.parts.len() as int;
    if found_on_disk(on_disk, n) {
        Some((path, None))
    } else if exists|k: int| is_first_stop(path, on_disk, held, k) {
        let k = choose|k: int| is_first_stop(path, on_disk, held, k);
        Some((path.ancestor(k), Some(path.remainder(k))))
    } else {
        None
    }
}

/// What is to be done about a request to load a path.
pub ghost enum LoadPlan {
    /// The resource is decoded already: nothing to load.
    Cached,
    /// The bytes are held: they can go to a decoder.
    Ready,
    /// Work for the path is under way: nothing to add.
    Busy,
    /// The path is a file of the real filesystem, to be read.
    ReadFile,
    /// The path is a member of an archive of the real filesystem, to be
    /// extracted with the given reader.
    ReadArchive { container: PathView, entry: PathView, backend: Backend },
    /// The member could not be had from its container.
    Failed(ExtractError),
    /// No ancestor of the path is on the real filesystem or held.
    Unresolvable,
}

/// The state of the coordinator.
pub ghost struct ModelView {
    /// The directory or archive that is being browsed.
    pub cwd: PathView,
    /// The listings made so far.
    pub listings: Map<PathView, Seq<ListingView>>,
    /// The tier of raw bytes.
    pub data: Map<PathView, Seq<u8>>,
    /// The tier of decoded rasters.
    pub rasters: Map<PathView, RasterView>,
    /// The tier of images held by the graphics processor.
    pub textures: Map<PathView, Texture>,
    /// The paths for which work is under way.
    pub pending: Map<PathView, Stage>,
    /// The path that is to be displayed.
    pub target: Option<PathView>,
    /// Running total of the bytes in the tier of raw bytes.
    pub data_bytes: int,
    /// Running total of the bytes in the tier of rasters.
    pub raster_bytes: int,
    /// Running total of the bytes held by the graphics processor.
    pub gpu_bytes: int,
}

impl ModelView {
    /// The state with nothing cached, browsing `start`.
    pub open spec fn initial(start: PathView) -> ModelView {
        ModelView {
            cwd: start,
            listings: Map::empty(),
            data: Map::empty(),
            rasters: Map::empty(),
            textures: Map::empty(),
            pending: Map::empty(),
            target: None,
            data_bytes: 0,
            raster_bytes: 0,
            gpu_bytes: 0,
        }
    }

    /// No path is in two of the tiers, nor in a tier while work for it is
    /// under way; and every listing is in order, with no path twice.
    pub open spec fn wf(self) -> bool {
        &&& all_in_order(self.listings)
        &&& self.data.dom().disjoint(self.rasters.dom())
        &&& self.data.dom().disjoint(self.textures.dom())
        &&& self.data.dom().disjoint(self.pending.dom())
        &&& self.rasters.dom().disjoint(self.textures.dom())
        &&& self.rasters.dom().disjoint(self.pending.dom())
        &&& self.textures.dom().disjoint(self.pending.dom())
    }

    /// Where the resource of `p` stands.
    pub open spec fn state_of(self, p: PathView) -> ResourceState {
        if self.textures.dom().contains(p) {
            ResourceState::TextureResident
        } else if self.rasters.dom().contains(p) {
            ResourceState::RasterCached
        } else if self.data.dom().contains(p) {
            ResourceState::DataCached
        } else if self.pending.dom().contains(p) {
            match self.pending[p] {
                Stage::Loading => ResourceState::InFlight,
                Stage::Decoding => ResourceState::Decoding,
                Stage::Uploading => ResourceState::Uploading,
            }
        } else {
            ResourceState::Absent
        }
    }

    /// The state with work of kind `stage` under way for `p`.
    pub open spec fn mark(self, p: PathView, stage: Stage) -> ModelView {
        ModelView { pending: self.pending.insert(p, stage), ..self }
    }

    /// The state with no work under way for `p`.
    pub open spec fn unmark(self, p: PathView) -> ModelView {
        ModelView { pending: self.pending.remove(p), ..self }
    }

    /// The state with `bytes` held for `p`.
    pub open spec fn put_data(self, p: PathView, bytes: Seq<u8>) -> ModelView {
        ModelView {
            data: self.data.insert(p, bytes),
            data_bytes: self.data_bytes + bytes.len(),
            ..self
        }
    }

    /// The state with the bytes of `p` given up.
    pub open spec fn take_data(self, p: PathView) -> ModelView {
        ModelView {
            data: self.data.remove(p),
            data_bytes: self.data_bytes - self.data[p].len(),
            ..self
        }
    }

    /// The state with `raster` held for `p`.
    pub open spec fn put_raster(self, p: PathView, raster: RasterView) -> ModelView {
        ModelView {
            rasters: self.rasters.insert(p, raster),
            raster_bytes: self.raster_bytes + raster.pixels.len(),
            ..self
        }
    }

    /// The state with the raster of `p` given up.
    pub open spec fn take_raster(self, p: PathView) -> ModelView {
        ModelView {
            rasters: self.rasters.remove(p),
            raster_bytes: self.raster_bytes - self.rasters[p].pixels.len(),
            ..self
        }
    }

    /// The state with `texture` held for `p`.
    pub open spec fn put_texture(self, p: PathView, texture: Texture) -> ModelView {
        ModelView {
            textures: self.textures.insert(p, texture),
            gpu_bytes: self.gpu_bytes + texture.bytes,
            ..self
        }
    }

    /// Bytes for `p` have arrived: they enter the tier of raw bytes, unless
    /// the resource is there or further along already.
    pub open spec fn data_landed(self, p: PathView, bytes: Seq<u8>) -> ModelView {
        match self.state_of(p) {
            ResourceState::Absent | ResourceState::InFlight => self.unmark(p).put_data(p, bytes),
            _ => self,
        }
    }

    /// The bytes of `p` could not be had: the request is over.
    pub open spec fn load_failed(self, p: PathView) -> ModelView {
        match self.state_of(p) {
            ResourceState::InFlight => self.unmark(p),
            _ => self,
        }
    }

    /// The bytes that go to a decoder when decoding of `p` is asked for:
    /// those held for it, if any are.
    pub open spec fn decode_job(self, p: PathView) -> Option<Seq<u8>> {
        match self.state_of(p) {
            ResourceState::DataCached => Some(self.data[p]),
            _ => None,
        }
    }

    /// Decoding of `p` was asked for: its bytes leave their tier for the
    /// decoder.
    pub open spec fn decode_dispatched(self, p: PathView) -> ModelView {
        match self.state_of(p) {
            ResourceState::DataCached => self.take_data(p).mark(p, Stage::Decoding),
            _ => self,
        }
    }

    /// Whether a raster that arrives for `p` goes on to the graphics
    /// processor: it was awaited, and `p` is what is to be displayed.
    pub open spec fn uploads_on_arrival(self, p: PathView) -> bool {
        self.state_of(p) == ResourceState::Decoding && self.target == Some(p)
    }

    /// The decoder has answered with a raster for `p`: it goes on to the
    /// graphics processor when `p` is what is to be displayed, and is parked
    /// in the tier of rasters when not. A raster that was not awaited is
    /// dropped.
    pub open spec fn image_decoded(self, p: PathView, raster: RasterView) -> ModelView {
        match self.state_of(p) {
            ResourceState::Decoding => if self.target == Some(p) {
                self.mark(p, Stage::Uploading)
            } else {
                self.unmark(p).put_raster(p, raster)
            },
            _ => self,
        }
    }

    /// The decoder has failed on the bytes of `p`.
    pub open spec fn decode_failed(self, p: PathView) -> ModelView {
        match self.state_of(p) {
            ResourceState::Decoding => self.unmark(p),
            _ => self,
        }
    }

    /// The graphics processor holds `p` as `texture`.
    pub open spec fn texture_uploaded(self, p: PathView, texture: Texture) -> ModelView {
        match self.state_of(p) {
            ResourceState::Uploading => self.unmark(p).put_texture(p, texture),
            _ => self,
        }
    }

    /// The graphics processor has refused the raster of `p`.
    pub open spec fn upload_failed(self, p: PathView) -> ModelView {
        match self.state_of(p) {
            ResourceState::Uploading => self.unmark(p),
            _ => self,
        }
    }

    /// What is to be done about a request to load `p`, where `on_disk` tells
    /// which of its ancestors are on the real filesystem.
    pub open spec fn load_plan(self, p: PathView, on_disk: Seq<bool>) -> LoadPlan {
        match self.state_of(p) {
            ResourceState::TextureResident | ResourceState::RasterCached => LoadPlan::Cached,
            ResourceState::DataCached => LoadPlan::Ready,
            ResourceState::InFlight | ResourceState::Decoding | ResourceState::Uploading => {
                LoadPlan::Busy
            },
            ResourceState::Absent => match resolve(p, on_disk, self.data.dom()) {
                None => LoadPlan::Unresolvable,
                Some((_, None)) => LoadPlan::ReadFile,
                Some((container, Some(entry))) => if found_on_disk(
                    on_disk,
                    container.parts.len() as int,
                ) {
                    match backend_of(container) {
                        Some(backend) => LoadPlan::ReadArchive { container, entry, backend },
                        None => LoadPlan::Failed(ExtractError::UnsupportedFormat),
                    }
                } else if backend_of(container) != Some(Backend::Zip) {
                    LoadPlan::Failed(ExtractError::UnsupportedFormat)
                } else {
                    match zip_member(self.data[container], text_of(entry)) {
                        Ok(_) => LoadPlan::Ready,
                        Err(e) => LoadPlan::Failed(e),
                    }
                },
            },
        }
    }

    /// The state after a request to load `p`: the request is marked as in
    /// flight where something is to be read, and a member of a held
    /// container is read out of it at once.
    pub open spec fn load_requested(self, p: PathView, on_disk: Seq<bool>) -> ModelView {
        match self.state_of(p) {
            ResourceState::Absent => match resolve(p, on_disk, self.data.dom()) {
                None => self,
                Some((_, None)) => self.mark(p, Stage::Loading),
                Some((container, Some(entry))) => if found_on_disk(
                    on_disk,
                    container.parts.len() as int,
                ) {
                    if backend_of(container).is_some() {
                        self.mark(p, Stage::Loading)
                    } else {
                        self
                    }
                } else {
                    self.extracted(container, entry, self.data[container])
                },
            },
            _ => self,
        }
    }

    /// The state after a member was asked of a container with the bytes
    /// `archive`: a container that does not call for the zip reader is not
    /// read, which ends the request; else the member's bytes land under the
    /// composed path, or the request for that path is over.
    pub open spec fn extracted(
        self,
        container: PathView,
        entry: PathView,
        archive: Seq<u8>,
    ) -> ModelView {
        let p = container.join(entry.parts);
        if backend_of(container) != Some(Backend::Zip) {
            self.load_failed(p)
        } else {
            match self.state_of(p) {
                ResourceState::Absent | ResourceState::InFlight => match zip_member(
                    archive,
                    text_of(entry),
                ) {
                    Ok(bytes) => self.data_landed(p, bytes),
                    Err(_) => self.load_failed(p),
                },
                _ => self,
            }
        }
    }

    /// The state with `p` as what is to be displayed: a parked raster of `p`
    /// leaves its tier for the graphics processor.
    pub open spec fn display_requested(self, p: PathView) -> ModelView {
        let aimed = ModelView { target: Some(p), ..self };
        match self.state_of(p) {
            ResourceState::RasterCached => aimed.take_raster(p).mark(p, Stage::Uploading),
            _ => aimed,
        }
    }

    /// The state with nothing to be displayed.
    pub open spec fn display_stopped(self) -> ModelView {
        ModelView { target: None, ..self }
    }

    /// The state after the bytes of the file `p` were read: they land,
    /// unless there are none, which ends the request.
    pub open spec fn file_read(self, p: PathView, bytes: Seq<u8>) -> ModelView {
        if bytes.len() > 0 {
            self.data_landed(p, bytes)
        } else {
            self.load_failed(p)
        }
    }

    /// The state after a member was asked of a container whose bytes are
    /// held: without the container there is no member.
    pub open spec fn extracted_from_held(self, container: PathView, entry: PathView) -> ModelView {
        if self.data.dom().contains(container) {
            self.extracted(container, entry, self.data[container])
        } else {
            self.load_failed(container.join(entry.parts))
        }
    }

    /// What a member asked of a container with the bytes `archive` comes
    /// to: a container that does not call for the zip reader is of no
    /// supported format, and nothing is read where the resource is held
    /// already.
    pub open spec fn extraction(self, container: PathView, entry: PathView, archive: Seq<u8>)
        -> Result<(), ExtractError> {
        if backend_of(container) != Some(Backend::Zip) {
            Err(ExtractError::UnsupportedFormat)
        } else {
            match self.state_of(container.join(entry.parts)) {
                ResourceState::Absent | ResourceState::InFlight => match zip_member(
                    archive,
                    text_of(entry),
                ) {
                    Ok(_) => Ok(()),
                    Err(e) => Err(e),
                },
                _ => Ok(()),
            }
        }
    }

    /// The state with browsing moved to `p`, where `p` has a listing.
    pub open spec fn entered(self, p: PathView) -> ModelView {
        if self.listings.dom().contains(p) {
            ModelView { cwd: p, ..self }
        } else {
            self
        }
    }

    /// The state after the directory `p` was read: its listing is kept, and
    /// browsing moves to it.
    pub open spec fn dir_listed(self, p: PathView, entries: Seq<ListingView>) -> ModelView {
        ModelView { cwd: p, listings: self.listings.insert(p, dir_listing(entries)), ..self }
    }

    /// The state after the member names of the archive `p` were read: every
    /// level inside it has its listing, and browsing moves to the archive.
    pub open spec fn archive_listed(self, p: PathView, names: Seq<Seq<char>>) -> ModelView {
        ModelView { cwd: p, listings: with_members(self.listings, p, names), ..self }
    }

    /// The state after the bytes of the zip archive `p` were read for its
    /// member names.
    pub open spec fn zip_listed(self, p: PathView, archive: Seq<u8>) -> ModelView {
        match zip_names(archive) {
            Ok(names) => self.archive_listed(p, names),
            Err(_) => self,
        }
    }

    /// The listing that is being browsed.
    pub open spec fn current_listing(self) -> Seq<ListingView> {
        listing_at(self.listings, self.cwd)
    }

    /// The directory above the one that is being browsed, if there is one.
    pub open spec fn parent(self) -> Option<PathView> {
        if self.cwd.parts.len() == 0 {
            None
        } else {
            Some(self.cwd.ancestor(self.cwd.parts.len() - 1))
        }
    }

    /// What opening item `nr` of the current listing, counted from 1, comes
    /// to: a directory or archive is to be listed, an image to be displayed,
    /// and nothing happens for anything else or for a number out of range.
    pub open spec fn open_plan(self, nr: int) -> OpenPlan {
        let list = self.current_listing();
        if 1 <= nr <= list.len() {
            let e = list[nr - 1];
            match e.entry_type {
                EntryType::Dir | EntryType::Archive => OpenPlan::List(e.file_path),
                EntryType::Image => OpenPlan::Display(e.file_path),
                EntryType::Link | EntryType::File => OpenPlan::Nothing,
            }
        } else {
            OpenPlan::Nothing
        }
    }

    /// How the listing of `p` is to be had, given what the real filesystem
    /// says of `p`.
    pub open spec fn list_plan(self, p: PathView, probe: DiskProbe) -> ListPlan {
        if self.listings.dom().contains(p) {
            ListPlan::Cached
        } else {
            match probe {
                DiskProbe::Directory => ListPlan::ReadDirectory,
                DiskProbe::File => match backend_of(p) {
                    Some(backend) => ListPlan::ReadArchive(backend),
                    None => ListPlan::Fail(ListError::NotListable),
                },
                DiskProbe::BehindFile => if backend_of(p) == Some(Backend::Zip) {
                    ListPlan::LoadNested
                } else {
                    ListPlan::Fail(ListError::NotListable)
                },
                DiskProbe::Missing => ListPlan::Fail(ListError::NotFound),
                DiskProbe::Unreadable => ListPlan::Fail(ListError::NotListable),
            }
        }
    }
}

/// What opening an item of a listing comes to.
pub ghost enum OpenPlan {
    Nothing,
    List(PathView),
    Display(PathView),
}

/// What the real filesystem says of a path.
#[derive(Clone, Copy, Debug, PartialEq, Eq, Structural)]
pub enum DiskProbe {
    /// Nothing is there.
    Missing,
    /// A file is there.
    File,
    /// A directory is there.
    Directory,
    /// The path runs on past a file.
    BehindFile,
    /// The filesystem could not tell.
    Unreadable,
}

/// Why a path has no listing.
#[derive(Clone, Copy, Debug, PartialEq, Eq, Structural)]
pub enum ListError {
    /// Nothing is at the path.
    NotFound,
    /// What is at the path is neither a directory nor an archive that can
    /// be read.
    NotListable,
    /// The archive at the path could not be read.
    Archive(ExtractError),
}

/// How the listing of a path is to be had.
#[derive(Clone, Copy, Debug, PartialEq, Eq, Structural)]
pub enum ListPlan {
    /// A listing is kept already.
    Cached,
    /// The directory is to be read.
    ReadDirectory,
    /// The member names of the archive are to be read with the given
    /// reader.
    ReadArchive(Backend),
    /// The path is a zip archive inside another archive: its bytes are to
    /// be loaded as a resource's are, and its names read from them.
    LoadNested,
    /// There is no listing to be had.
    Fail(ListError),
}

} // verus!
