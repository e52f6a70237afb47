//! The coordinator's state as it is held in memory, and the operations that
//! move resources through the tiers.

use crate::archive::{
    add_filelist_to_directory, cache_view, get_zip_filelist, select_backend, zip_read_member,
    zip_names, Backend, ExtractError,
};
use crate::path::names_view;
use crate::listing::{copy_listing, entry_views, list_dir, EntryType, Listing, ListingView};
use crate::navigation::{find_next_image, find_prev_image, next_image, prev_image};
use crate::path::{text_of, PathView, VirtualPath};
use crate::pathmap::PathMap;
use crate::raster::{Raster, RasterView};
use crate::laws::lemma_resolve_first_stop;
use crate::state::{
    found_on_disk, is_first_stop, resolve, stops_at, DiskProbe, ListError, ListPlan, LoadPlan,
    ModelView, OpenPlan, ResourceState, Stage, Texture,
};
use crate::text::chars_of;
use vstd::prelude::*;

verus! {

/// The sum of the weights of the values.
pub open spec fn total<V>(vals: Seq<V>, weight: spec_fn(V) -> nat) -> nat
    decreases vals.len(),
{
    if vals.len() == 0 {
        0
    } else {
        total(vals.drop_last(), weight) + weight(vals.last())
    }
}

proof fn lemma_total_push<V>(vals: Seq<V>, v: V, weight: spec_fn(V) -> nat)
    ensures
        total(vals.push(v), weight) == total(vals, weight) + weight(v),
{
    assert(vals.push(v).drop_last() =~= vals);
}

proof fn lemma_total_remove<V>(vals: Seq<V>, i: int, weight: spec_fn(V) -> nat)
    requires
        0 <= i < vals.len(),
    ensures
        total(vals.remove(i), weight) == total(vals, weight) - weight(vals[i]),
    decreases vals.len(),
{
    if i == vals.len() - 1 {
        assert(vals.remove(i) =~= vals.drop_last());
    } else {
        lemma_total_remove(vals.drop_last(), i, weight);
        assert(vals.remove(i).drop_last() =~= vals.drop_last().remove(i));
        assert(vals.remove(i).last() == vals.last());
    }
}

proof fn lemma_total_bound<V>(vals: Seq<V>, weight: spec_fn(V) -> nat, most: nat)
    requires
        forall|v: V| #[trigger] weight(v) <= most,
    ensures
        total(vals, weight) <= vals.len() * most,
    decreases vals.len(),
{
    if vals.len() > 0 {
        lemma_total_bound(vals.drop_last(), weight, most);
        assert(weight(vals.last()) <= most);
        assert((vals.len() - 1) * most + most == vals.len() * most) by (nonlinear_arith);
    }
}

/// The size of a run of raw bytes.
pub open spec fn byte_weight() -> spec_fn(Vec<u8>) -> nat {
    |v: Vec<u8>| v@.len()
}

/// The size of a raster.
pub open spec fn raster_weight() -> spec_fn(Raster) -> nat {
    |r: Raster| r@.pixels.len()
}

/// The size of an image held by the graphics processor.
pub open spec fn texture_weight() -> spec_fn(Texture) -> nat {
    |t: Texture| t.bytes as nat
}

/// The tier of raw bytes as a mathematical value.
pub open spec fn bytes_view(m: Map<PathView, Vec<u8>>) -> Map<PathView, Seq<u8>> {
    Map::new(|k: PathView| m.dom().contains(k), |k: PathView| m[k]@)
}

/// The tier of rasters as a mathematical value.
pub open spec fn rasters_view(m: Map<PathView, Raster>) -> Map<PathView, RasterView> {
    Map::new(|k: PathView| m.dom().contains(k), |k: PathView| m[k]@)
}

/// The path that an optional path holds.
pub open spec fn target_view(target: Option<VirtualPath>) -> Option<PathView> {
    match target {
        Some(p) => Some(p@),
        None => None,
    }
}

/// The coordinator's state: the listings made so far, the three tiers, the
/// requests under way and the running totals. Only the coordinator changes
/// it.
pub struct MyModel {
    cwd: VirtualPath,
    listings: PathMap<Vec<Listing>>,
    data_cache: PathMap<Vec<u8>>,
    image_cache: PathMap<Raster>,
    texture_cache: PathMap<Texture>,
    trying_to_load: PathMap<Stage>,
    want_to_display: Option<VirtualPath>,
    data_in_cache_size: u128,
    image_cache_size: u128,
    gpu_data_size: u128,
}

impl View for MyModel {
    type V = ModelView;

    closed spec fn view(&self) -> ModelView {
        ModelView {
            cwd: self.cwd@,
            listings: cache_view(self.listings@),
            data: bytes_view(self.data_cache@),
            rasters: rasters_view(self.image_cache@),
            textures: self.texture_cache@,
            pending: self.trying_to_load@,
            target: target_view(self.want_to_display),
            data_bytes: self.data_in_cache_size as int,
            raster_bytes: self.image_cache_size as int,
            gpu_bytes: self.gpu_data_size as int,
        }
    }
}

impl MyModel {
    /// The maps are in order and each running total is the sum of the sizes
    /// of what its tier holds.
    pub closed spec fn sound(&self) -> bool {
        &&& self.listings.wf()
        &&& self.data_cache.wf()
        &&& self.image_cache.wf()
        &&& self.texture_cache.wf()
        &&& self.trying_to_load.wf()
        &&& self.data_in_cache_size == total(self.data_cache.values(), byte_weight())
        &&& self.image_cache_size == total(self.image_cache.values(), raster_weight())
        &&& self.gpu_data_size == total(self.texture_cache.values(), texture_weight())
    }

    /// The state is in order: its parts are sound and no path is in two
    /// tiers.
    pub open spec fn wf(&self) -> bool {
        self.sound() && self@.wf()
    }

    /// The state with nothing cached, browsing `start_path`.
    pub fn build(start_path: &VirtualPath) -> (model: MyModel)
        ensures
            model.wf(),
            model@ == ModelView::initial(start_path@),
    {
        let model = MyModel {
            cwd: start_path.duplicate(),
            listings: PathMap::new(),
            data_cache: PathMap::new(),
            image_cache: PathMap::new(),
            texture_cache: PathMap::new(),
            trying_to_load: PathMap::new(),
            want_to_display: None,
            data_in_cache_size: 0,
            image_cache_size: 0,
            gpu_data_size: 0,
        };
        proof {
            assert(model@.listings =~= Map::empty());
            assert(model@.data =~= Map::empty());
            assert(model@.rasters =~= Map::empty());
        }
        model
    }

    /// Where the resource of `path` stands.
    pub fn state_of(&self, path: &VirtualPath) -> (state: ResourceState)
        requires
            self.wf(),
        ensures
            state == self@.state_of(path@),
    {
        if self.texture_cache.contains_key(path) {
            ResourceState::TextureResident
        } else if self.image_cache.contains_key(path) {
            ResourceState::RasterCached
        } else if self.data_cache.contains_key(path) {
            ResourceState::DataCached
        } else {
            match self.trying_to_load.get(path) {
                Some(Stage::Loading) => ResourceState::InFlight,
                Some(Stage::Decoding) => ResourceState::Decoding,
                Some(Stage::Uploading) => ResourceState::Uploading,
                None => ResourceState::Absent,
            }
        }
    }

    fn mark(&mut self, path: &VirtualPath, stage: Stage)
        requires
            old(self).sound(),
        ensures
            final(self).sound(),
            final(self)@ == old(self)@.mark(path@, stage),
    {
        let _ = self.trying_to_load.insert(path.duplicate(), stage);
    }

    fn unmark(&mut self, path: &VirtualPath)
        requires
            old(self).sound(),
        ensures
            final(self).sound(),
            final(self)@ == old(self)@.unmark(path@),
    {
        let _ = self.trying_to_load.remove(path);
    }

    fn put_data(&mut self, path: &VirtualPath, bytes: Vec<u8>)
        requires
            old(self).sound(),
            !old(self)@.data.dom().contains(path@),
        ensures
            final(self).sound(),
            final(self)@ == old(self)@.put_data(path@, bytes@),
    {
        proof {
            let vals = self.data_cache.values();
            self.data_cache.lemma_count_fits();
            assert forall|v: Vec<u8>| #[trigger] byte_weight()(v) <= usize::MAX as nat by {
                assert(v@.len() == v.len());
            }
            lemma_total_bound(vals, byte_weight(), usize::MAX as nat);
            lemma_total_push(vals, bytes, byte_weight());
            assert(vals.len() * (usize::MAX as nat) <= 0xffff_ffff_ffff_ffff * 0xffff_ffff_ffff_ffff)
                by (nonlinear_arith)
                requires
                    vals.len() <= 0xffff_ffff_ffff_ffff,
                    usize::MAX <= 0xffff_ffff_ffff_ffff,
            ;
        }
        self.data_in_cache_size = self.data_in_cache_size + bytes.len() as u128;
        let _ = self.data_cache.insert(path.duplicate(), bytes);
        proof {
            assert(self@.data =~= old(self)@.data.insert(path@, bytes@));
        }
    }

    fn take_data(&mut self, path: &VirtualPath) -> (bytes: Vec<u8>)
        requires
            old(self).sound(),
            old(self)@.data.dom().contains(path@),
        ensures
            final(self).sound(),
            final(self)@ == old(self)@.take_data(path@),
            bytes@ == old(self)@.data[path@],
    {
        let bytes = self.data_cache.remove(path).unwrap();
        proof {
            let vals = old(self).data_cache.values();
            let i = choose|i: int|
                0 <= i < vals.len() && vals[i] == bytes && self.data_cache.values() == vals.remove(i);
            lemma_total_remove(vals, i, byte_weight());
        }
        self.data_in_cache_size = self.data_in_cache_size - bytes.len() as u128;
        proof {
            assert(self@.data =~= old(self)@.data.remove(path@));
        }
        bytes
    }

    fn put_raster(&mut self, path: &VirtualPath, raster: Raster)
        requires
            old(self).sound(),
            !old(self)@.rasters.dom().contains(path@),
        ensures
            final(self).sound(),
            final(self)@ == old(self)@.put_raster(path@, raster@),
    {
        proof {
            let vals = self.image_cache.values();
            self.image_cache.lemma_count_fits();
            assert forall|r: Raster| #[trigger] raster_weight()(r) <= usize::MAX as nat by {
                r.lemma_size_fits();
            }
            lemma_total_bound(vals, raster_weight(), usize::MAX as nat);
            lemma_total_push(vals, raster, raster_weight());
            assert(vals.len() * (usize::MAX as nat) <= 0xffff_ffff_ffff_ffff * 0xffff_ffff_ffff_ffff)
                by (nonlinear_arith)
                requires
                    vals.len() <= 0xffff_ffff_ffff_ffff,
                    usize::MAX <= 0xffff_ffff_ffff_ffff,
            ;
        }
        self.image_cache_size = self.image_cache_size + raster.byte_len() as u128;
        let _ = self.image_cache.insert(path.duplicate(), raster);
        proof {
            assert(self@.rasters =~= old(self)@.rasters.insert(path@, raster@));
        }
    }

    fn take_raster(&mut self, path: &VirtualPath) -> (raster: Raster)
        requires
            old(self).sound(),
            old(self)@.rasters.dom().contains(path@),
        ensures
            final(self).sound(),
            final(self)@ == old(self)@.take_raster(path@),
            raster@ == old(self)@.rasters[path@],
    {
        let raster = self.image_cache.remove(path).unwrap();
        proof {
            let vals = old(self).image_cache.values();
            let i = choose|i: int|
                0 <= i < vals.len() && vals[i] == raster && self.image_cache.values()
                    == vals.remove(i);
            lemma_total_remove(vals, i, raster_weight());
        }
        self.image_cache_size = self.image_cache_size - raster.byte_len() as u128;
        proof {
            assert(self@.rasters =~= old(self)@.rasters.remove(path@));
        }
        raster
    }

    fn put_texture(&mut self, path: &VirtualPath, texture: Texture)
        requires
            old(self).sound(),
            !old(self)@.textures.dom().contains(path@),
        ensures
            final(self).sound(),
            final(self)@ == old(self)@.put_texture(path@, texture),
    {
        proof {
            let vals = self.texture_cache.values();
            self.texture_cache.lemma_count_fits();
            lemma_total_bound(vals, texture_weight(), u64::MAX as nat);
            lemma_total_push(vals, texture, texture_weight());
            assert(vals.len() * (u64::MAX as nat) <= 0xffff_ffff_ffff_ffff * 0xffff_ffff_ffff_ffff)
                by (nonlinear_arith)
                requires
                    vals.len() <= 0xffff_ffff_ffff_ffff,
            ;
        }
        self.gpu_data_size = self.gpu_data_size + texture.bytes as u128;
        let _ = self.texture_cache.insert(path.duplicate(), texture);
    }
}

/// What is to be done about a request to load a path.
#[derive(Debug, PartialEq, Eq)]
pub enum LoadStep {
    /// The resource is decoded already: nothing to load.
    Cached,
    /// The bytes are held: they can go to a decoder.
    Ready,
    /// Work for the path is under way: nothing to add.
    Busy,
    /// The path is a file of the real filesystem, to be read.
    ReadFile,
    /// The path is a member of an archive of the real filesystem, to be
    /// extracted with the given reader.
    ReadArchive { container: VirtualPath, entry: VirtualPath, backend: Backend },
    /// The member could not be had from its container.
    Failed(ExtractError),
    /// No ancestor of the path is on the real filesystem or held.
    Unresolvable,
}

impl View for LoadStep {
    type V = LoadPlan;

    open spec fn view(&self) -> LoadPlan {
        match self {
            LoadStep::Cached => LoadPlan::Cached,
            LoadStep::Ready => LoadPlan::Ready,
            LoadStep::Busy => LoadPlan::Busy,
            LoadStep::ReadFile => LoadPlan::ReadFile,
            LoadStep::ReadArchive { container, entry, backend } => LoadPlan::ReadArchive {
                container: container@,
                entry: entry@,
                backend: *backend,
            },
            LoadStep::Failed(e) => LoadPlan::Failed(*e),
            LoadStep::Unresolvable => LoadPlan::Unresolvable,
        }
    }
}

/// What is to be done about a request to display a path.
#[derive(Debug, PartialEq, Eq)]
pub enum DisplayStep {
    /// The graphics processor holds the image: it can be shown.
    Show(Texture),
    /// The raster was parked: it is to go to the graphics processor.
    Upload(Raster),
    /// The resource is not decoded: it is to be loaded.
    Load,
}

/// What opening an item of a listing comes to.
#[derive(Debug, PartialEq, Eq)]
pub enum OpenStep {
    /// Nothing happens.
    Nothing,
    /// The directory or archive is to be listed.
    List(VirtualPath),
    /// The image is to be displayed.
    Display(VirtualPath),
}

impl View for OpenStep {
    type V = OpenPlan;

    open spec fn view(&self) -> OpenPlan {
        match self {
            OpenStep::Nothing => OpenPlan::Nothing,
            OpenStep::List(p) => OpenPlan::List(p@),
            OpenStep::Display(p) => OpenPlan::Display(p@),
        }
    }
}

/// The paths that the outcome of resolving holds.
pub open spec fn located_view(found: Option<(VirtualPath, Option<VirtualPath>)>) -> Option<
    (PathView, Option<PathView>),
> {
    match found {
        Some((container, Some(entry))) => Some((container@, Some(entry@))),
        Some((container, None)) => Some((container@, None)),
        None => None,
    }
}

/// The path and place that the outcome of a step through a listing holds.
pub open spec fn step_view(found: Option<(VirtualPath, usize)>) -> Option<(PathView, int)> {
    match found {
        Some((path, at)) => Some((path@, at as int)),
        None => None,
    }
}

/// The message to the user about bytes that could not be decoded.
pub open spec fn failure_message(path: PathView) -> Seq<char> {
    "Problem decoding image, \""@ + text_of(path) + "\""@
}

impl MyModel {
    /// The directory or archive that is being browsed.
    pub fn cwd(&self) -> (path: &VirtualPath)
        ensures
            path@ == self@.cwd,
    {
        &self.cwd
    }

    /// The path that is to be displayed.
    pub fn want_to_display(&self) -> (target: &Option<VirtualPath>)
        ensures
            target_view(*target) == self@.target,
    {
        &self.want_to_display
    }

    /// Running total of the bytes in the tier of raw bytes.
    pub fn data_in_cache_size(&self) -> (n: u128)
        ensures
            n == self@.data_bytes,
    {
        self.data_in_cache_size
    }

    /// Running total of the bytes in the tier of rasters.
    pub fn image_cache_size(&self) -> (n: u128)
        ensures
            n == self@.raster_bytes,
    {
        self.image_cache_size
    }

    /// Running total of the bytes held by the graphics processor.
    pub fn gpu_data_size(&self) -> (n: u128)
        ensures
            n == self@.gpu_bytes,
    {
        self.gpu_data_size
    }

    /// The bytes held for `path`.
    pub fn cached_data(&self, path: &VirtualPath) -> (bytes: Option<&Vec<u8>>)
        requires
            self.wf(),
        ensures
            match bytes {
                Some(b) => self@.data.dom().contains(path@) && b@ == self@.data[path@],
                None => !self@.data.dom().contains(path@),
            },
    {
        self.data_cache.get(path)
    }

    /// The image that the graphics processor holds for `path`.
    pub fn cached_texture(&self, path: &VirtualPath) -> (texture: Option<Texture>)
        requires
            self.wf(),
        ensures
            match texture {
                Some(t) => self@.textures.dom().contains(path@) && t == self@.textures[path@],
                None => !self@.textures.dom().contains(path@),
            },
    {
        match self.texture_cache.get(path) {
            Some(t) => Some(*t),
            None => None,
        }
    }

    /// Where `path` is to be had from, given which of its ancestors are on
    /// the real filesystem: `on_disk[k]` tells it of the ancestor with `k`
    /// names, the path itself being the last.
    pub fn locate_resource(&self, path: &VirtualPath, on_disk: &Vec<bool>) -> (found: Option<
        (VirtualPath, Option<VirtualPath>),
    >)
        requires
            self.wf(),
        ensures
            located_view(found) == resolve(path@, on_disk@, self@.data.dom()),
    {
        let n = path.depth();
        if n < on_disk.len() && on_disk[n] {
            return Some((path.duplicate(), None));
        }
        let ghost held = self@.data.dom();
        let mut k: usize = n;
        while k > 0
            invariant
                k <= n,
                n == path@.parts.len(),
                self.wf(),
                held == self@.data.dom(),
                !found_on_disk(on_disk@, n as int),
                forall|j: int| k <= j < n ==> !stops_at(path@, on_disk@, held, j),
            decreases k,
        {
            k -= 1;
            let ancestor = path.ancestor(k);
            if (k < on_disk.len() && on_disk[k]) || self.data_cache.contains_key(&ancestor) {
                proof {
                    assert(is_first_stop(path@, on_disk@, held, k as int));
                    lemma_resolve_first_stop(path@, on_disk@, held, k as int);
                }
                return Some((ancestor, Some(path.remainder(k))));
            }
        }
        proof {
            assert forall|j: int| !is_first_stop(path@, on_disk@, held, j) by {}
        }
        None
    }

    /// Bytes for `path` have arrived from a member of an archive.
    pub fn store_member_data(&mut self, path: &VirtualPath, bytes: Vec<u8>)
        requires
            old(self).wf(),
        ensures
            final(self).wf(),
            final(self)@ == old(self)@.data_landed(path@, bytes@),
    {
        match self.state_of(path) {
            ResourceState::Absent | ResourceState::InFlight => {
                self.unmark(path);
                self.put_data(path, bytes);
            },
            _ => {},
        }
    }

    /// The bytes of the file `path` were read. Returns whether they are held
    /// now.
    pub fn store_file_data(&mut self, path: &VirtualPath, bytes: Vec<u8>) -> (held: bool)
        requires
            old(self).wf(),
        ensures
            final(self).wf(),
            final(self)@ == old(self)@.file_read(path@, bytes@),
            held == (final(self)@.state_of(path@) == ResourceState::DataCached),
    {
        if bytes.len() > 0 {
            self.store_member_data(path, bytes);
        } else {
            self.load_failed(path);
        }
        self.data_cache.contains_key(path)
    }

    /// The bytes of `path` could not be had.
    pub fn load_failed(&mut self, path: &VirtualPath)
        requires
            old(self).wf(),
        ensures
            final(self).wf(),
            final(self)@ == old(self)@.load_failed(path@),
    {
        match self.state_of(path) {
            ResourceState::InFlight => {
                self.unmark(path);
            },
            _ => {},
        }
    }

    /// Reads the member `sub_path` out of the archive `archive_path`, whose
    /// bytes are `archive`, into the tier of raw bytes, under the composed
    /// path. The archive is read with the zip reader, and refused where its
    /// extension does not call for that reader. Nothing is read where the
    /// resource is held already.
    pub fn extract_from_archive(
        &mut self,
        archive_path: &VirtualPath,
        sub_path: &VirtualPath,
        archive: &Vec<u8>,
    ) -> (done: Result<(), ExtractError>)
        requires
            old(self).wf(),
        ensures
            final(self).wf(),
            final(self)@ == old(self)@.extracted(archive_path@, sub_path@, archive@),
            done == old(self)@.extraction(archive_path@, sub_path@, archive@),
    {
        let path = archive_path.join(sub_path);
        match select_backend(archive_path) {
            Ok(Backend::Zip) => {},
            _ => {
                self.load_failed(&path);
                return Err(ExtractError::UnsupportedFormat);
            },
        }
        match self.state_of(&path) {
            ResourceState::Absent | ResourceState::InFlight => {
                let name = sub_path.to_text();
                match zip_read_member(archive, &name) {
                    Ok(bytes) => {
                        self.store_member_data(&path, bytes);
                        Ok(())
                    },
                    Err(e) => {
                        self.load_failed(&path);
                        Err(e)
                    },
                }
            },
            _ => Ok(()),
        }
    }

    /// Reads the member `sub_path` out of the archive `archive_path`, whose
    /// bytes are held in the tier of raw bytes, as
    /// [`MyModel::extract_from_archive`] does.
    pub fn extract_from_data_cache(&mut self, archive_path: &VirtualPath, sub_path: &VirtualPath)
        -> (done: Result<(), ExtractError>)
        requires
            old(self).wf(),
        ensures
            final(self).wf(),
            final(self)@ == old(self)@.extracted_from_held(archive_path@, sub_path@),
            done == if old(self)@.data.dom().contains(archive_path@) {
                old(self)@.extraction(archive_path@, sub_path@, old(self)@.data[archive_path@])
            } else {
                Err(ExtractError::CorruptArchive)
            },
    {
        let path = archive_path.join(sub_path);
        let zip = match select_backend(archive_path) {
            Ok(Backend::Zip) => true,
            _ => false,
        };
        let read = match self.data_cache.get(archive_path) {
            Some(archive) => if !zip {
                Some(Err(ExtractError::UnsupportedFormat))
            } else {
                match self.state_of(&path) {
                    ResourceState::Absent | ResourceState::InFlight => {
                        let name = sub_path.to_text();
                        Some(zip_read_member(archive, &name))
                    },
                    _ => None,
                }
            },
            None => Some(Err(ExtractError::CorruptArchive)),
        };
        match read {
            Some(Ok(bytes)) => {
                self.store_member_data(&path, bytes);
                Ok(())
            },
            Some(Err(e)) => {
                self.load_failed(&path);
                Err(e)
            },
            None => Ok(()),
        }
    }

    /// Answers a request to load `image_pb`, given which of its ancestors
    /// are on the real filesystem (see [`MyModel::locate_resource`]). A
    /// resource that is held or under way is not asked for again.
    pub fn load_image_data(&mut self, image_pb: &VirtualPath, on_disk: &Vec<bool>) -> (step:
        LoadStep)
        requires
            old(self).wf(),
        ensures
            final(self).wf(),
            final(self)@ == old(self)@.load_requested(image_pb@, on_disk@),
            step@ == old(self)@.load_plan(image_pb@, on_disk@),
    {
        match self.state_of(image_pb) {
            ResourceState::TextureResident | ResourceState::RasterCached => {
                return LoadStep::Cached;
            },
            ResourceState::DataCached => {
                return LoadStep::Ready;
            },
            ResourceState::InFlight | ResourceState::Decoding | ResourceState::Uploading => {
                return LoadStep::Busy;
            },
            ResourceState::Absent => {},
        }
        match self.locate_resource(image_pb, on_disk) {
            None => LoadStep::Unresolvable,
            Some((_, None)) => {
                self.mark(image_pb, Stage::Loading);
                LoadStep::ReadFile
            },
            Some((container, Some(entry))) => {
                let depth = container.depth();
                proof {
                    let k = choose|k: int| is_first_stop(image_pb@, on_disk@, self@.data.dom(), k);
                    assert(container@ == image_pb@.ancestor(k));
                    assert(entry@ == image_pb@.remainder(k));
                    assert(container@.join(entry@.parts) == image_pb@) by {
                        assert(image_pb@.parts.take(k) + image_pb@.parts.skip(k)
                            =~= image_pb@.parts);
                    }
                }
                if depth < on_disk.len() && on_disk[depth] {
                    match select_backend(&container) {
                        Ok(backend) => {
                            self.mark(image_pb, Stage::Loading);
                            LoadStep::ReadArchive { container, entry, backend }
                        },
                        Err(e) => LoadStep::Failed(e),
                    }
                } else {
                    match self.extract_from_data_cache(&container, &entry) {
                        Ok(()) => LoadStep::Ready,
                        Err(e) => LoadStep::Failed(e),
                    }
                }
            },
        }
    }

    /// Answers a request to decode `image_pb`: its bytes leave the tier of
    /// raw bytes for the decoder. There are none to send where the bytes
    /// are not held, as when they went to a decoder before.
    pub fn decode_image(&mut self, image_pb: &VirtualPath) -> (job: Option<Vec<u8>>)
        requires
            old(self).wf(),
        ensures
            final(self).wf(),
            final(self)@ == old(self)@.decode_dispatched(image_pb@),
            match job {
                Some(bytes) => old(self)@.decode_job(image_pb@) == Some(bytes@),
                None => old(self)@.decode_job(image_pb@).is_none(),
            },
    {
        match self.state_of(image_pb) {
            ResourceState::DataCached => {
                let bytes = self.take_data(image_pb);
                self.mark(image_pb, Stage::Decoding);
                Some(bytes)
            },
            _ => None,
        }
    }

    /// The decoder has answered with a raster for `path`. The raster comes
    /// back where it is to go on to the graphics processor; it is parked
    /// where `path` is not what is to be displayed.
    pub fn image_decoded(&mut self, path: &VirtualPath, raster: Raster) -> (upload: Option<Raster>)
        requires
            old(self).wf(),
        ensures
            final(self).wf(),
            final(self)@ == old(self)@.image_decoded(path@, raster@),
            match upload {
                Some(r) => old(self)@.uploads_on_arrival(path@) && r == raster,
                None => !old(self)@.uploads_on_arrival(path@),
            },
    {
        match self.state_of(path) {
            ResourceState::Decoding => {
                let aimed = match &self.want_to_display {
                    Some(target) => target.same_as(path),
                    None => false,
                };
                if aimed {
                    self.mark(path, Stage::Uploading);
                    Some(raster)
                } else {
                    self.unmark(path);
                    self.put_raster(path, raster);
                    None
                }
            },
            _ => None,
        }
    }

    /// The decoder has failed on the bytes of `path`. Returns the message
    /// for the user.
    pub fn decode_failed(&mut self, path: &VirtualPath) -> (message: Vec<char>)
        requires
            old(self).wf(),
        ensures
            final(self).wf(),
            final(self)@ == old(self)@.decode_failed(path@),
            message@ == failure_message(path@),
    {
        match self.state_of(path) {
            ResourceState::Decoding => {
                self.unmark(path);
            },
            _ => {},
        }
        let mut message = chars_of("Problem decoding image, \"");
        let mut text = path.to_text();
        let mut quote = chars_of("\"");
        message.append(&mut text);
        message.append(&mut quote);
        message
    }

    /// The graphics processor holds `path` as `texture`. Returns whether it
    /// is to be shown: it is what is to be displayed.
    pub fn texture_uploaded(&mut self, path: &VirtualPath, texture: Texture) -> (show: bool)
        requires
            old(self).wf(),
        ensures
            final(self).wf(),
            final(self)@ == old(self)@.texture_uploaded(path@, texture),
            show == (old(self)@.state_of(path@) == ResourceState::Uploading && old(self)@.target
                == Some(path@)),
    {
        match self.state_of(path) {
            ResourceState::Uploading => {
                self.unmark(path);
                self.put_texture(path, texture);
                match &self.want_to_display {
                    Some(target) => target.same_as(path),
                    None => false,
                }
            },
            _ => false,
        }
    }

    /// The graphics processor has refused the raster of `path`.
    pub fn upload_failed(&mut self, path: &VirtualPath)
        requires
            old(self).wf(),
        ensures
            final(self).wf(),
            final(self)@ == old(self)@.upload_failed(path@),
    {
        match self.state_of(path) {
            ResourceState::Uploading => {
                self.unmark(path);
            },
            _ => {},
        }
    }

    /// Makes `path` what is to be displayed, and says how to get it on the
    /// screen.
    pub fn display_requested(&mut self, path: &VirtualPath) -> (step: DisplayStep)
        requires
            old(self).wf(),
        ensures
            final(self).wf(),
            final(self)@ == old(self)@.display_requested(path@),
            match step {
                DisplayStep::Show(t) => old(self)@.state_of(path@)
                    == ResourceState::TextureResident && t == old(self)@.textures[path@],
                DisplayStep::Upload(r) => old(self)@.state_of(path@) == ResourceState::RasterCached
                    && r@ == old(self)@.rasters[path@],
                DisplayStep::Load => old(self)@.state_of(path@) != ResourceState::TextureResident
                    && old(self)@.state_of(path@) != ResourceState::RasterCached,
            },
    {
        self.want_to_display = Some(path.duplicate());
        match self.state_of(path) {
            ResourceState::TextureResident => {
                let texture = self.cached_texture(path).unwrap();
                DisplayStep::Show(texture)
            },
            ResourceState::RasterCached => {
                let raster = self.take_raster(path);
                self.mark(path, Stage::Uploading);
                DisplayStep::Upload(raster)
            },
            _ => DisplayStep::Load,
        }
    }

    /// Ends the display: nothing is to be displayed.
    pub fn stop_image_display(&mut self)
        requires
            old(self).wf(),
        ensures
            final(self).wf(),
            final(self)@ == old(self)@.display_stopped(),
    {
        self.want_to_display = None;
    }
}

/// The running totals as a status bar shows them.
#[derive(Clone, Copy, Debug, PartialEq, Eq)]
pub struct Stats {
    /// Whether the status bar is shown.
    pub statusbar: bool,
    /// The bytes in the tier of raw bytes.
    pub data: usize,
    /// The bytes held by the graphics processor.
    pub gpu: usize,
}

/// What a status line shows.
#[derive(Debug, PartialEq, Eq)]
pub struct Statusline {
    /// The last message to the user.
    pub messages: String,
    /// The zoom in both directions.
    pub zoom_level: (i32, i32),
    /// The bytes held by the graphics processor.
    pub gpu_data: usize,
    /// The bytes held in main memory: raw bytes and rasters.
    pub ram_data: usize,
}

/// A total as a machine word: the greatest word where it does not fit.
pub open spec fn clamped(n: int) -> usize {
    if n > usize::MAX {
        usize::MAX
    } else {
        n as usize
    }
}

fn clamp(n: u128) -> (w: usize)
    ensures
        w == clamped(n as int),
{
    if n > usize::MAX as u128 {
        usize::MAX
    } else {
        n as usize
    }
}

impl MyModel {
    /// The running totals as a status bar shows them.
    pub fn stats(&self, statusbar: bool) -> (stats: Stats)
        ensures
            stats.statusbar == statusbar,
            stats.data == clamped(self@.data_bytes),
            stats.gpu == clamped(self@.gpu_bytes),
    {
        Stats {
            statusbar,
            data: clamp(self.data_in_cache_size),
            gpu: clamp(self.gpu_data_size),
        }
    }

    /// What a status line shows, with the given message and zoom.
    pub fn statusline(&self, messages: String, zoom_level: (i32, i32)) -> (line: Statusline)
        ensures
            line.messages == messages,
            line.zoom_level == zoom_level,
            line.gpu_data == clamped(self@.gpu_bytes),
            line.ram_data == clamped(self@.data_bytes + self@.raster_bytes),
    {
        let ram = self.data_in_cache_size.saturating_add(self.image_cache_size);
        Statusline {
            messages,
            zoom_level,
            gpu_data: clamp(self.gpu_data_size),
            ram_data: clamp(ram),
        }
    }

    /// How the listing of `path` is to be had, given what the real
    /// filesystem says of `path`.
    pub fn plan_listing(&self, path: &VirtualPath, probe: DiskProbe) -> (plan: ListPlan)
        requires
            self.wf(),
        ensures
            plan == self@.list_plan(path@, probe),
    {
        if self.listings.contains_key(path) {
            return ListPlan::Cached;
        }
        match probe {
            DiskProbe::Directory => ListPlan::ReadDirectory,
            DiskProbe::File => match select_backend(path) {
                Ok(backend) => ListPlan::ReadArchive(backend),
                Err(_) => ListPlan::Fail(ListError::NotListable),
            },
            DiskProbe::BehindFile => match select_backend(path) {
                Ok(Backend::Zip) => ListPlan::LoadNested,
                _ => ListPlan::Fail(ListError::NotListable),
            },
            DiskProbe::Missing => ListPlan::Fail(ListError::NotFound),
            DiskProbe::Unreadable => ListPlan::Fail(ListError::NotListable),
        }
    }

    /// The listing that is kept for `path`; browsing moves to `path` where
    /// there is one.
    pub fn get_listing(&mut self, path: &VirtualPath) -> (listing: Option<Vec<Listing>>)
        requires
            old(self).wf(),
        ensures
            final(self).wf(),
            final(self)@ == old(self)@.entered(path@),
            match listing {
                Some(l) => old(self)@.listings.dom().contains(path@) && entry_views(l@) == old(self)@.listings[path@],
                None => !old(self)@.listings.dom().contains(path@),
            },
    {
        let listing = match self.listings.get(path) {
            Some(l) => copy_listing(l),
            None => {
                return None;
            },
        };
        self.cwd = path.duplicate();
        Some(listing)
    }

    /// Keeps the listing of the directory `path`, made of its entries as
    /// they were read, and moves browsing to it.
    pub fn store_dir_listing(&mut self, path: &VirtualPath, entries: Vec<Listing>) -> (listing:
        Vec<Listing>)
        requires
            old(self).wf(),
        ensures
            final(self).wf(),
            final(self)@ == old(self)@.dir_listed(path@, entry_views(entries@)),
            entry_views(listing@) == final(self)@.listings[path@],
    {
        let listing = list_dir(entries);
        let copy = copy_listing(&listing);
        let _ = self.listings.insert(path.duplicate(), listing);
        self.cwd = path.duplicate();
        proof {
            assert(self@.listings =~= old(self)@.listings.insert(path@, entry_views(copy@)));
        }
        copy
    }

    /// Keeps the listings that the member names of the archive `path` give
    /// rise to, and moves browsing to the archive.
    pub fn store_archive_listing(&mut self, path: &VirtualPath, names: &Vec<Vec<char>>) -> (listing:
        Vec<Listing>)
        requires
            old(self).wf(),
        ensures
            final(self).wf(),
            final(self)@ == old(self)@.archive_listed(path@, names_view(names@)),
            entry_views(listing@) == final(self)@.current_listing(),
    {
        proof {
            crate::archive::lemma_members_keep_order(
                self@.listings,
                path@,
                names_view(names@),
            );
        }
        add_filelist_to_directory(&mut self.listings, names, path);
        self.cwd = path.duplicate();
        match self.listings.get(path) {
            Some(l) => copy_listing(l),
            None => {
                let empty: Vec<Listing> = Vec::new();
                proof {
                    assert(entry_views(empty@) =~= Seq::<ListingView>::empty());
                }
                empty
            },
        }
    }

    /// Lists the zip archive `path` from its bytes.
    pub fn list_zip_archive(&mut self, path: &VirtualPath, archive: &Vec<u8>) -> (listing: Result<
        Vec<Listing>,
        ListError,
    >)
        requires
            old(self).wf(),
        ensures
            final(self).wf(),
            final(self)@ == old(self)@.zip_listed(path@, archive@),
            match listing {
                Ok(l) => zip_names(archive@).is_ok() && entry_views(l@) == final(self)@.current_listing(),
                Err(e) => zip_names(archive@) matches Err(x) && e == ListError::Archive(x),
            },
    {
        match get_zip_filelist(archive) {
            Ok(names) => Ok(self.store_archive_listing(path, &names)),
            Err(e) => Err(ListError::Archive(e)),
        }
    }

    /// Lists the zip archive `path` from its bytes in the tier of raw
    /// bytes: there is nothing to list where they are not held.
    pub fn list_held_archive(&mut self, path: &VirtualPath) -> (listing: Result<
        Vec<Listing>,
        ListError,
    >)
        requires
            old(self).wf(),
        ensures
            final(self).wf(),
            final(self)@ == if old(self)@.data.dom().contains(path@) {
                old(self)@.zip_listed(path@, old(self)@.data[path@])
            } else {
                old(self)@
            },
            match listing {
                Ok(l) => old(self)@.data.dom().contains(path@) && zip_names(
                    old(self)@.data[path@],
                ).is_ok() && entry_views(l@) == final(self)@.current_listing(),
                Err(e) => if old(self)@.data.dom().contains(path@) {
                    zip_names(old(self)@.data[path@]) matches Err(x) && e == ListError::Archive(x)
                } else {
                    e == ListError::NotFound
                },
            },
    {
        let names = match self.data_cache.get(path) {
            Some(archive) => get_zip_filelist(archive),
            None => {
                return Err(ListError::NotFound);
            },
        };
        match names {
            Ok(names) => Ok(self.store_archive_listing(path, &names)),
            Err(e) => Err(ListError::Archive(e)),
        }
    }

    /// What opening item `browser_item_nr` of the current listing comes to.
    /// Items are counted from 1.
    pub fn open_item(&self, browser_item_nr: i32) -> (step: OpenStep)
        requires
            self.wf(),
        ensures
            step@ == self@.open_plan(browser_item_nr as int),
    {
        let list = match self.listings.get(&self.cwd) {
            Some(list) => list,
            None => {
                return OpenStep::Nothing;
            },
        };
        proof {
            assert(self@.current_listing() == entry_views(list@));
        }
        if browser_item_nr < 1 || (browser_item_nr as usize) > list.len() {
            return OpenStep::Nothing;
        }
        let selected = &list[browser_item_nr as usize - 1];
        proof {
            assert(entry_views(list@)[browser_item_nr - 1] == selected@);
        }
        match selected.entry_type {
            EntryType::Dir | EntryType::Archive => OpenStep::List(selected.file_path.duplicate()),
            EntryType::Image => OpenStep::Display(selected.file_path.duplicate()),
            EntryType::Link | EntryType::File => OpenStep::Nothing,
        }
    }

    /// The directory above the one that is being browsed, if there is one.
    pub fn goto_parent(&self) -> (parent: Option<VirtualPath>)
        ensures
            target_view(parent) == self@.parent(),
    {
        let n = self.cwd.depth();
        if n == 0 {
            None
        } else {
            Some(self.cwd.ancestor(n - 1))
        }
    }

    /// The nearest image after `cur` in the listing that is being browsed,
    /// with its place in the listing.
    pub fn get_next_image(&self, cur: &VirtualPath) -> (found: Option<(VirtualPath, usize)>)
        requires
            self.wf(),
        ensures
            step_view(found) == next_image(self@.current_listing(), cur@),
    {
        match self.listings.get(&self.cwd) {
            Some(list) => {
                proof {
                    assert(self@.current_listing() == entry_views(list@));
                }
                find_next_image(list, cur)
            },
            None => {
                let empty: Vec<Listing> = Vec::new();
                proof {
                    assert(entry_views(empty@) =~= self@.current_listing());
                }
                find_next_image(&empty, cur)
            },
        }
    }

    /// The image to step forward to from what is to be displayed, which is
    /// also the one to load ahead: none where nothing is to be displayed.
    pub fn next_from_target(&self) -> (found: Option<(VirtualPath, usize)>)
        requires
            self.wf(),
        ensures
            step_view(found) == match self@.target {
                Some(current) => next_image(self@.current_listing(), current),
                None => None,
            },
    {
        match &self.want_to_display {
            Some(current) => self.get_next_image(current),
            None => None,
        }
    }

    /// The image to step back to from what is to be displayed: none where
    /// nothing is to be displayed.
    pub fn prev_from_target(&self) -> (found: Option<(VirtualPath, usize)>)
        requires
            self.wf(),
        ensures
            step_view(found) == match self@.target {
                Some(current) => prev_image(self@.current_listing(), current),
                None => None,
            },
    {
        match &self.want_to_display {
            Some(current) => self.get_prev_image(current),
            None => None,
        }
    }

    /// The nearest image before `cur` in the listing that is being browsed,
    /// with its place in the listing.
    pub fn get_prev_image(&self, cur: &VirtualPath) -> (found: Option<(VirtualPath, usize)>)
        requires
            self.wf(),
        ensures
            step_view(found) == prev_image(self@.current_listing(), cur@),
    {
        match self.listings.get(&self.cwd) {
            Some(list) => {
                proof {
                    assert(self@.current_listing() == entry_views(list@));
                }
                find_prev_image(list, cur)
            },
            None => {
                let empty: Vec<Listing> = Vec::new();
                proof {
                    assert(entry_views(empty@) =~= self@.current_listing());
                }
                find_prev_image(&empty, cur)
            },
        }
    }
}

} // verus!
