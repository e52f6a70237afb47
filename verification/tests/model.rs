use std::io::Write;

use fqview::archive::{Backend, ExtractError};
use fqview::listing::{EntryType, Listing};
use fqview::model::{DisplayStep, LoadStep, MyModel, OpenStep};
use fqview::path::VirtualPath;
use fqview::raster::Raster;
use fqview::state::{DiskProbe, ListError, ListPlan, ResourceState, Texture};

fn path(s: &str) -> VirtualPath {
    VirtualPath::parse(s)
}

fn zip_of(members: &[(&str, &[u8])]) -> Vec<u8> {
    let mut writer = zip::ZipWriter::new(std::io::Cursor::new(Vec::new()));
    for (name, content) in members {
        writer.start_file(*name, zip::write::SimpleFileOptions::default()).unwrap();
        writer.write_all(content).unwrap();
    }
    writer.finish().unwrap().into_inner()
}

fn raster(n: u32) -> Raster {
    Raster::assemble(false, n, 1, vec![9; (3 * n) as usize]).unwrap()
}

fn entry(kind: EntryType, p: &str) -> Listing {
    let vp = path(p);
    let name: String = vp.parts[vp.parts.len() - 1].iter().collect();
    Listing::new(kind, &name, vp, 0)
}

fn names(e: &[Listing]) -> Vec<String> {
    e.iter().map(|l| l.display_name.iter().collect()).collect()
}

/// Probes for a path of four names whose second name is a file on disk.
fn archive_on_disk() -> Vec<bool> {
    vec![true, true, true, false, false]
}

#[test]
fn a_new_model_holds_nothing() {
    let m = MyModel::build(&path("/start"));
    assert_eq!(m.cwd(), &path("/start"));
    assert_eq!(m.want_to_display(), &None);
    assert_eq!(m.data_in_cache_size(), 0);
    assert_eq!(m.image_cache_size(), 0);
    assert_eq!(m.gpu_data_size(), 0);
    assert_eq!(m.state_of(&path("/start/a.png")), ResourceState::Absent);
    assert_eq!(m.cached_data(&path("/start/a.png")), None);
}

#[test]
fn a_path_on_disk_resolves_to_itself() {
    let m = MyModel::build(&path("/"));
    let p = path("/dir/pic.png");
    assert_eq!(m.locate_resource(&p, &vec![true, true, true]), Some((p.duplicate(), None)));
    assert_eq!(m.locate_resource(&p, &vec![false, false, true]), Some((p.duplicate(), None)));
}

#[test]
fn a_path_inside_an_archive_resolves_to_the_archive_and_the_member() {
    let m = MyModel::build(&path("/"));
    let p = path("/dir/photos.zip/inside/pic.png");
    assert_eq!(
        m.locate_resource(&p, &archive_on_disk()),
        Some((path("/dir/photos.zip"), Some(path("inside/pic.png"))))
    );
}

#[test]
fn a_path_with_no_real_ancestor_does_not_resolve() {
    let m = MyModel::build(&path("/"));
    assert_eq!(m.locate_resource(&path("a/b/c"), &vec![false, false, false, false]), None);
    assert_eq!(m.locate_resource(&path("a/b/c"), &Vec::new()), None);
    assert_eq!(m.locate_resource(&path("a"), &vec![false, false]), None);
}

#[test]
fn resolution_stops_at_the_nearest_real_ancestor() {
    let m = MyModel::build(&path("/"));
    let p = path("/a/b/c");
    assert_eq!(
        m.locate_resource(&p, &vec![true, true, true, false]),
        Some((path("/a/b"), Some(path("c"))))
    );
    assert_eq!(
        m.locate_resource(&p, &vec![true, false, false, false]),
        Some((path("/"), Some(path("a/b/c"))))
    );
}

#[test]
fn resolution_stops_at_a_held_container() {
    let mut m = MyModel::build(&path("/"));
    let inner = path("/dir/outer.zip/inner.zip");
    m.store_member_data(&inner, zip_of(&[("pic.png", b"pixels")]));
    let p = path("/dir/outer.zip/inner.zip/pic.png");
    assert_eq!(
        m.locate_resource(&p, &vec![true, true, true, false, false]),
        Some((inner.duplicate(), Some(path("pic.png"))))
    );
}

#[test]
fn extraction_puts_the_members_bytes_into_the_data_tier() {
    let mut m = MyModel::build(&path("/"));
    let archive = zip_of(&[("inside/pic.png", b"pixels"), ("b.png", b"other")]);
    let p = path("/dir/photos.zip/inside/pic.png");
    let step = m.load_image_data(&p, &archive_on_disk());
    assert_eq!(
        step,
        LoadStep::ReadArchive {
            container: path("/dir/photos.zip"),
            entry: path("inside/pic.png"),
            backend: Backend::Zip
        }
    );
    assert_eq!(m.state_of(&p), ResourceState::InFlight);
    assert_eq!(m.extract_from_archive(&path("/dir/photos.zip"), &path("inside/pic.png"), &archive), Ok(()));
    assert_eq!(m.state_of(&p), ResourceState::DataCached);
    assert_eq!(m.cached_data(&p), Some(&b"pixels".to_vec()));
    assert_eq!(m.data_in_cache_size(), 6);
}

#[test]
fn repeated_extraction_is_served_from_the_data_tier() {
    let mut m = MyModel::build(&path("/"));
    let archive = zip_of(&[("inside/pic.png", b"pixels")]);
    let container = path("/dir/photos.zip");
    let member = path("inside/pic.png");
    let p = container.join(&member);
    assert_eq!(m.extract_from_archive(&container, &member, &archive), Ok(()));
    let garbage = b"not an archive".to_vec();
    assert_eq!(m.extract_from_archive(&container, &member, &garbage), Ok(()));
    assert_eq!(m.cached_data(&p), Some(&b"pixels".to_vec()));
    assert_eq!(m.data_in_cache_size(), 6);
    assert_eq!(m.load_image_data(&p, &archive_on_disk()), LoadStep::Ready);
    assert_eq!(m.state_of(&p), ResourceState::DataCached);
}

#[test]
fn failed_extraction_ends_the_request() {
    let mut m = MyModel::build(&path("/"));
    let archive = zip_of(&[("a.png", b"pixels")]);
    let p = path("/dir/photos.zip/inside/pic.png");
    let _ = m.load_image_data(&p, &archive_on_disk());
    assert_eq!(
        m.extract_from_archive(&path("/dir/photos.zip"), &path("inside/pic.png"), &archive),
        Err(ExtractError::EntryNotFound)
    );
    assert_eq!(m.state_of(&p), ResourceState::Absent);
    assert_eq!(m.data_in_cache_size(), 0);
    let _ = m.load_image_data(&p, &archive_on_disk());
    assert_eq!(
        m.extract_from_archive(&path("/dir/photos.zip"), &path("inside/pic.png"), &b"junk".to_vec()),
        Err(ExtractError::CorruptArchive)
    );
    assert_eq!(m.state_of(&p), ResourceState::Absent);
}

#[test]
fn a_member_of_a_held_container_is_read_at_once() {
    let mut m = MyModel::build(&path("/"));
    let inner = path("/dir/outer.zip/inner.zip");
    m.store_member_data(&inner, zip_of(&[("deep/pic.png", b"nested")]));
    let held = m.data_in_cache_size();
    let p = path("/dir/outer.zip/inner.zip/deep/pic.png");
    let probes = vec![true, true, true, false, false, false];
    assert_eq!(m.load_image_data(&p, &probes), LoadStep::Ready);
    assert_eq!(m.cached_data(&p), Some(&b"nested".to_vec()));
    assert_eq!(m.data_in_cache_size(), held + 6);
    let q = path("/dir/outer.zip/inner.zip/deep/none.png");
    assert_eq!(m.load_image_data(&q, &probes), LoadStep::Failed(ExtractError::EntryNotFound));
    assert_eq!(m.state_of(&q), ResourceState::Absent);
}

#[test]
fn a_held_container_that_is_no_zip_is_not_read() {
    let mut m = MyModel::build(&path("/"));
    let inner = path("/dir/outer.zip/inner.rar");
    m.store_member_data(&inner, zip_of(&[("pic.png", b"pixels")]));
    let p = path("/dir/outer.zip/inner.rar/pic.png");
    assert_eq!(
        m.load_image_data(&p, &vec![true, true, true, false, false]),
        LoadStep::Failed(ExtractError::UnsupportedFormat)
    );
    assert_eq!(m.state_of(&p), ResourceState::Absent);
}

#[test]
fn extraction_from_a_container_that_is_not_held_fails() {
    let mut m = MyModel::build(&path("/"));
    assert_eq!(
        m.extract_from_data_cache(&path("/dir/a.zip"), &path("pic.png")),
        Err(ExtractError::CorruptArchive)
    );
    m.store_member_data(&path("/dir/a.zip"), zip_of(&[("pic.png", b"p")]));
    assert_eq!(m.extract_from_data_cache(&path("/dir/a.zip"), &path("pic.png")), Ok(()));
    assert_eq!(m.cached_data(&path("/dir/a.zip/pic.png")), Some(&b"p".to_vec()));
}

#[test]
fn a_member_of_a_container_that_is_no_archive_is_refused() {
    let mut m = MyModel::build(&path("/"));
    let p = path("/dir/notes.txt/inside/pic.png");
    assert_eq!(
        m.load_image_data(&p, &archive_on_disk()),
        LoadStep::Failed(ExtractError::UnsupportedFormat)
    );
    assert_eq!(m.state_of(&p), ResourceState::Absent);
    let q = path("/dir/set.rar/inside/pic.png");
    assert_eq!(
        m.load_image_data(&q, &archive_on_disk()),
        LoadStep::ReadArchive {
            container: path("/dir/set.rar"),
            entry: path("inside/pic.png"),
            backend: Backend::Generic
        }
    );
}

#[test]
fn a_file_on_disk_is_to_be_read() {
    let mut m = MyModel::build(&path("/"));
    let p = path("/dir/pic.png");
    assert_eq!(m.load_image_data(&p, &vec![true, true, true]), LoadStep::ReadFile);
    assert_eq!(m.state_of(&p), ResourceState::InFlight);
    assert!(m.store_file_data(&p, b"bytes".to_vec()));
    assert_eq!(m.state_of(&p), ResourceState::DataCached);
    assert_eq!(m.data_in_cache_size(), 5);
}

#[test]
fn an_empty_file_is_not_cached() {
    let mut m = MyModel::build(&path("/"));
    let p = path("/dir/pic.png");
    let _ = m.load_image_data(&p, &vec![true, true, true]);
    assert!(!m.store_file_data(&p, Vec::new()));
    assert_eq!(m.state_of(&p), ResourceState::Absent);
}

#[test]
fn an_unresolvable_path_leaves_no_trace() {
    let mut m = MyModel::build(&path("/"));
    let p = path("x/y.png");
    assert_eq!(m.load_image_data(&p, &vec![false, false, false]), LoadStep::Unresolvable);
    assert_eq!(m.state_of(&p), ResourceState::Absent);
}

#[test]
fn the_same_path_requested_twice_is_decoded_once() {
    let mut m = MyModel::build(&path("/"));
    let p = path("/dir/pic.png");
    let probes = vec![true, true, true];
    assert_eq!(m.display_requested(&p), DisplayStep::Load);
    assert_eq!(m.load_image_data(&p, &probes), LoadStep::ReadFile);
    assert_eq!(m.display_requested(&p), DisplayStep::Load);
    assert_eq!(m.load_image_data(&p, &probes), LoadStep::Busy);
    assert!(m.store_file_data(&p, b"bytes".to_vec()));
    assert_eq!(m.decode_image(&p), Some(b"bytes".to_vec()));
    assert_eq!(m.state_of(&p), ResourceState::Decoding);
    assert_eq!(m.decode_image(&p), None);
    assert_eq!(m.display_requested(&p), DisplayStep::Load);
    assert_eq!(m.load_image_data(&p, &probes), LoadStep::Busy);
    assert_eq!(m.decode_image(&p), None);
    assert_eq!(m.data_in_cache_size(), 0);
}

#[test]
fn a_decoded_target_goes_to_the_graphics_processor() {
    let mut m = MyModel::build(&path("/"));
    let p = path("/dir/pic.png");
    let _ = m.display_requested(&p);
    let _ = m.load_image_data(&p, &vec![true, true, true]);
    let _ = m.store_file_data(&p, b"bytes".to_vec());
    let _ = m.decode_image(&p);
    assert_eq!(m.image_decoded(&p, raster(4)), Some(raster(4)));
    assert_eq!(m.state_of(&p), ResourceState::Uploading);
    assert_eq!(m.image_cache_size(), 0);
    assert!(m.texture_uploaded(&p, Texture { handle: 7, bytes: 12 }));
    assert_eq!(m.state_of(&p), ResourceState::TextureResident);
    assert_eq!(m.gpu_data_size(), 12);
    assert_eq!(m.cached_texture(&p), Some(Texture { handle: 7, bytes: 12 }));
    assert_eq!(m.display_requested(&p), DisplayStep::Show(Texture { handle: 7, bytes: 12 }));
    assert_eq!(m.load_image_data(&p, &vec![true, true, true]), LoadStep::Cached);
}

#[test]
fn a_decoded_prefetch_is_parked_until_it_is_the_target() {
    let mut m = MyModel::build(&path("/"));
    let shown = path("/dir/a.png");
    let ahead = path("/dir/b.png");
    let _ = m.display_requested(&shown);
    let _ = m.load_image_data(&ahead, &vec![true, true, true]);
    let _ = m.store_file_data(&ahead, b"0123456789".to_vec());
    assert_eq!(m.decode_image(&ahead), Some(b"0123456789".to_vec()));
    assert_eq!(m.image_decoded(&ahead, raster(5)), None);
    assert_eq!(m.state_of(&ahead), ResourceState::RasterCached);
    assert_eq!(m.image_cache_size(), 15);
    assert_eq!(m.load_image_data(&ahead, &vec![true, true, true]), LoadStep::Cached);
    assert_eq!(m.display_requested(&ahead), DisplayStep::Upload(raster(5)));
    assert_eq!(m.state_of(&ahead), ResourceState::Uploading);
    assert_eq!(m.image_cache_size(), 0);
    assert_eq!(m.want_to_display(), &Some(ahead.duplicate()));
    assert!(m.texture_uploaded(&ahead, Texture { handle: 1, bytes: 15 }));
    assert_eq!(m.state_of(&ahead), ResourceState::TextureResident);
}

#[test]
fn a_texture_stays_when_the_target_moves_away() {
    let mut m = MyModel::build(&path("/"));
    let p = path("/dir/a.png");
    let _ = m.display_requested(&p);
    let _ = m.load_image_data(&p, &vec![true, true, true]);
    let _ = m.store_file_data(&p, b"x".to_vec());
    let _ = m.decode_image(&p);
    let _ = m.image_decoded(&p, raster(1));
    let _ = m.texture_uploaded(&p, Texture { handle: 3, bytes: 3 });
    let _ = m.display_requested(&path("/dir/b.png"));
    assert_eq!(m.state_of(&p), ResourceState::TextureResident);
    m.stop_image_display();
    assert_eq!(m.want_to_display(), &None);
    assert_eq!(m.state_of(&p), ResourceState::TextureResident);
    assert_eq!(m.gpu_data_size(), 3);
}

#[test]
fn failures_return_the_path_to_absent() {
    let mut m = MyModel::build(&path("/"));
    let p = path("/dir/a.png");
    let probes = vec![true, true, true];
    let _ = m.load_image_data(&p, &probes);
    m.load_failed(&p);
    assert_eq!(m.state_of(&p), ResourceState::Absent);

    let _ = m.load_image_data(&p, &probes);
    let _ = m.store_file_data(&p, b"x".to_vec());
    let _ = m.decode_image(&p);
    let message: String = m.decode_failed(&p).iter().collect();
    assert_eq!(message, "Problem decoding image, \"/dir/a.png\"");
    assert_eq!(m.state_of(&p), ResourceState::Absent);

    let _ = m.display_requested(&p);
    let _ = m.load_image_data(&p, &probes);
    let _ = m.store_file_data(&p, b"x".to_vec());
    let _ = m.decode_image(&p);
    let _ = m.image_decoded(&p, raster(1));
    m.upload_failed(&p);
    assert_eq!(m.state_of(&p), ResourceState::Absent);
    assert_eq!(m.load_image_data(&p, &probes), LoadStep::ReadFile);
}

#[test]
fn answers_that_were_not_awaited_change_nothing() {
    let mut m = MyModel::build(&path("/"));
    let p = path("/dir/a.png");
    assert_eq!(m.image_decoded(&p, raster(2)), None);
    assert_eq!(m.state_of(&p), ResourceState::Absent);
    assert!(!m.texture_uploaded(&p, Texture { handle: 1, bytes: 6 }));
    assert_eq!(m.state_of(&p), ResourceState::Absent);
    m.upload_failed(&p);
    m.load_failed(&p);
    let _ = m.decode_failed(&p);
    assert_eq!(m.gpu_data_size(), 0);
    assert_eq!(m.image_cache_size(), 0);
    m.store_member_data(&p, b"abc".to_vec());
    m.store_member_data(&p, b"defgh".to_vec());
    assert_eq!(m.cached_data(&p), Some(&b"abc".to_vec()));
    assert_eq!(m.data_in_cache_size(), 3);
}

#[test]
fn a_path_holds_one_tier_at_a_time() {
    let mut m = MyModel::build(&path("/"));
    let p = path("/dir/a.png");
    let probes = vec![true, true, true];
    let mut seen = vec![m.state_of(&p)];
    let _ = m.load_image_data(&p, &probes);
    seen.push(m.state_of(&p));
    let _ = m.store_file_data(&p, b"x".to_vec());
    seen.push(m.state_of(&p));
    assert!(m.cached_data(&p).is_some());
    let _ = m.decode_image(&p);
    seen.push(m.state_of(&p));
    assert!(m.cached_data(&p).is_none());
    let _ = m.image_decoded(&p, raster(1));
    seen.push(m.state_of(&p));
    assert!(m.cached_data(&p).is_none());
    let _ = m.display_requested(&p);
    seen.push(m.state_of(&p));
    let _ = m.texture_uploaded(&p, Texture { handle: 1, bytes: 3 });
    seen.push(m.state_of(&p));
    assert!(m.cached_data(&p).is_none());
    assert_eq!(m.image_cache_size(), 0);
    assert_eq!(
        seen,
        vec![
            ResourceState::Absent,
            ResourceState::InFlight,
            ResourceState::DataCached,
            ResourceState::Decoding,
            ResourceState::RasterCached,
            ResourceState::Uploading,
            ResourceState::TextureResident
        ]
    );
}

#[test]
fn stats_show_the_running_totals() {
    let mut m = MyModel::build(&path("/"));
    m.store_member_data(&path("/a"), vec![0; 10]);
    m.store_member_data(&path("/b"), vec![0; 5]);
    let s = m.stats(true);
    assert!(s.statusbar);
    assert_eq!(s.data, 15);
    assert_eq!(s.gpu, 0);
    let _ = m.decode_image(&path("/a"));
    assert_eq!(m.stats(false).data, 5);
}

#[test]
fn directory_listings_are_kept_and_entered() {
    let mut m = MyModel::build(&path("/start"));
    let d = path("/d");
    assert_eq!(m.plan_listing(&d, DiskProbe::Directory), ListPlan::ReadDirectory);
    assert_eq!(m.get_listing(&d), None);
    assert_eq!(m.cwd(), &path("/start"));
    let raw = vec![
        entry(EntryType::File, "/d/b.png"),
        entry(EntryType::File, "/d/a.png"),
        entry(EntryType::Dir, "/d/sub"),
    ];
    let listing = m.store_dir_listing(&d, raw);
    assert_eq!(names(&listing), vec!["sub", "a.png", "b.png"]);
    assert_eq!(m.cwd(), &d);
    assert_eq!(m.plan_listing(&d, DiskProbe::Missing), ListPlan::Cached);
    let _ = m.store_dir_listing(&path("/e"), Vec::new());
    assert_eq!(m.cwd(), &path("/e"));
    assert_eq!(m.get_listing(&d).map(|l| names(&l)), Some(vec!["sub".to_string(), "a.png".to_string(), "b.png".to_string()]));
    assert_eq!(m.cwd(), &d);
}

#[test]
fn listing_plans_follow_what_is_on_disk() {
    let m = MyModel::build(&path("/"));
    assert_eq!(m.plan_listing(&path("/d/a.zip"), DiskProbe::File), ListPlan::ReadArchive(Backend::Zip));
    assert_eq!(m.plan_listing(&path("/d/a.7z"), DiskProbe::File), ListPlan::ReadArchive(Backend::Generic));
    assert_eq!(m.plan_listing(&path("/d/a.txt"), DiskProbe::File), ListPlan::Fail(ListError::NotListable));
    assert_eq!(m.plan_listing(&path("/d/a.zip/b.zip"), DiskProbe::BehindFile), ListPlan::LoadNested);
    assert_eq!(m.plan_listing(&path("/d/a.zip/b.rar"), DiskProbe::BehindFile), ListPlan::Fail(ListError::NotListable));
    assert_eq!(m.plan_listing(&path("/d/none"), DiskProbe::Missing), ListPlan::Fail(ListError::NotFound));
    assert_eq!(m.plan_listing(&path("/d/odd"), DiskProbe::Unreadable), ListPlan::Fail(ListError::NotListable));
}

#[test]
fn a_zip_archive_is_listed_level_by_level() {
    let mut m = MyModel::build(&path("/"));
    let a = path("/d/a.zip");
    let archive = zip_of(&[("x/y/pic.png", b"pixels")]);
    let top = m.list_zip_archive(&a, &archive).unwrap();
    assert_eq!(names(&top), vec!["x"]);
    assert_eq!(top[0].entry_type, EntryType::Dir);
    assert_eq!(m.cwd(), &a);
    let x = m.get_listing(&path("/d/a.zip/x")).unwrap();
    assert_eq!(names(&x), vec!["y"]);
    assert_eq!(x[0].entry_type, EntryType::Dir);
    let y = m.get_listing(&path("/d/a.zip/x/y")).unwrap();
    assert_eq!(names(&y), vec!["pic.png"]);
    assert_eq!(y[0].entry_type, EntryType::Image);
    assert_eq!(y[0].file_path, path("/d/a.zip/x/y/pic.png"));
    assert_eq!(m.cwd(), &path("/d/a.zip/x/y"));
}

#[test]
fn an_unreadable_archive_has_no_listing() {
    let mut m = MyModel::build(&path("/start"));
    assert_eq!(
        m.list_zip_archive(&path("/d/a.zip"), &b"junk".to_vec()),
        Err(ListError::Archive(ExtractError::CorruptArchive))
    );
    assert_eq!(m.cwd(), &path("/start"));
    assert_eq!(m.get_listing(&path("/d/a.zip")), None);
}

#[test]
fn a_nested_zip_is_listed_from_its_held_bytes() {
    let mut m = MyModel::build(&path("/"));
    let inner = path("/d/outer.zip/inner.zip");
    assert_eq!(m.list_held_archive(&inner), Err(ListError::NotFound));
    let outer = zip_of(&[("inner.zip", &zip_of(&[("deep.png", b"d")]))]);
    assert_eq!(m.extract_from_archive(&path("/d/outer.zip"), &path("inner.zip"), &outer), Ok(()));
    let listing = m.list_held_archive(&inner).unwrap();
    assert_eq!(names(&listing), vec!["deep.png"]);
    assert_eq!(m.cwd(), &inner);
    assert_eq!(m.state_of(&inner), ResourceState::DataCached);
}

#[test]
fn generic_archives_are_listed_from_their_names() {
    let mut m = MyModel::build(&path("/"));
    let a = path("/d/a.7z");
    let table: Vec<Vec<char>> =
        vec!["one.png".chars().collect(), "dir/".chars().collect(), "dir/two.gif".chars().collect()];
    let top = m.store_archive_listing(&a, &table);
    assert_eq!(names(&top), vec!["dir", "one.png"]);
    assert_eq!(m.get_listing(&path("/d/a.7z/dir")).map(|l| names(&l)), Some(vec!["two.gif".to_string()]));
}

#[test]
fn open_item_follows_the_kind_of_the_entry() {
    let mut m = MyModel::build(&path("/"));
    assert_eq!(m.open_item(1), OpenStep::Nothing);
    let raw = vec![
        entry(EntryType::Dir, "/d/sub"),
        entry(EntryType::Link, "/d/link"),
        entry(EntryType::File, "/d/notes"),
        entry(EntryType::File, "/d/pic.png"),
        entry(EntryType::File, "/d/set.zip"),
    ];
    let _ = m.store_dir_listing(&path("/d"), raw);
    assert_eq!(m.open_item(1), OpenStep::List(path("/d/sub")));
    assert_eq!(m.open_item(2), OpenStep::Nothing);
    assert_eq!(m.open_item(3), OpenStep::Nothing);
    assert_eq!(m.open_item(4), OpenStep::Display(path("/d/pic.png")));
    assert_eq!(m.open_item(5), OpenStep::List(path("/d/set.zip")));
    assert_eq!(m.open_item(6), OpenStep::Nothing);
    assert_eq!(m.open_item(0), OpenStep::Nothing);
    assert_eq!(m.open_item(-1), OpenStep::Nothing);
    assert_eq!(m.open_item(i32::MAX), OpenStep::Nothing);
}

#[test]
fn goto_parent_drops_the_last_name() {
    let m = MyModel::build(&path("/a/b"));
    assert_eq!(m.goto_parent(), Some(path("/a")));
    assert_eq!(MyModel::build(&path("/a")).goto_parent(), Some(path("/")));
    assert_eq!(MyModel::build(&path("/")).goto_parent(), None);
    assert_eq!(MyModel::build(&path("a")).goto_parent(), Some(VirtualPath::new()));
    assert_eq!(MyModel::build(&VirtualPath::new()).goto_parent(), None);
}

#[test]
fn stepping_uses_the_listing_that_is_browsed() {
    let mut m = MyModel::build(&path("/"));
    assert_eq!(m.get_next_image(&path("/d/a.png")), None);
    assert_eq!(m.next_from_target(), None);
    let raw = vec![
        entry(EntryType::File, "/d/c.png"),
        entry(EntryType::File, "/d/a.png"),
        entry(EntryType::File, "/d/b.txt"),
        entry(EntryType::Dir, "/d/sub"),
    ];
    let _ = m.store_dir_listing(&path("/d"), raw);
    assert_eq!(m.get_next_image(&path("/d/a.png")), Some((path("/d/c.png"), 3)));
    assert_eq!(m.get_prev_image(&path("/d/c.png")), Some((path("/d/a.png"), 2)));
    assert_eq!(m.get_next_image(&path("/d/c.png")), None);
    assert_eq!(m.get_prev_image(&path("/d/a.png")), None);
    let _ = m.display_requested(&path("/d/a.png"));
    assert_eq!(m.next_from_target(), Some((path("/d/c.png"), 3)));
    assert_eq!(m.prev_from_target(), None);
    let _ = m.store_dir_listing(&path("/e"), Vec::new());
    assert_eq!(m.get_next_image(&path("/d/a.png")), None);
}
