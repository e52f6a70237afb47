use std::collections::{HashMap, VecDeque};
use std::io::Write;

use fqview::archive::Backend;
use fqview::listing::{EntryType, Listing};
use fqview::model::{DisplayStep, LoadStep, MyModel, OpenStep};
use fqview::path::VirtualPath;
use fqview::raster::{try_decode_image, DecodeStep, Raster};
use fqview::state::{DiskProbe, ListPlan, ResourceState, Texture};

enum Message {
    OpenItem(i32),
    UpDir,
    WantToDisplay(VirtualPath),
    ImageLoaded(VirtualPath),
    ImageDecoded(Raster, VirtualPath),
    DecodeFailed(VirtualPath),
    NextImage,
    PrevImage,
}

/// A coordinator over a filesystem held in memory: files by their path,
/// directories as the prefixes of those paths.
struct Session {
    model: MyModel,
    files: HashMap<String, Vec<u8>>,
    queue: VecDeque<Message>,
    decodes: Vec<String>,
    decoded: Vec<String>,
    shown: Vec<String>,
    listed: Vec<Vec<String>>,
    notes: Vec<String>,
    uploads: u64,
}

fn text_of(path: &VirtualPath) -> String {
    path.to_text().iter().collect()
}

fn png(seed: u8) -> Vec<u8> {
    let img = image::RgbImage::from_fn(2, 2, |x, y| image::Rgb([seed, x as u8, y as u8]));
    let mut out = std::io::Cursor::new(Vec::new());
    img.write_to(&mut out, image::ImageFormat::Png).unwrap();
    out.into_inner()
}

fn zip_of(members: &[(&str, Vec<u8>)]) -> Vec<u8> {
    let mut writer = zip::ZipWriter::new(std::io::Cursor::new(Vec::new()));
    for (name, content) in members {
        writer.start_file(*name, zip::write::SimpleFileOptions::default()).unwrap();
        writer.write_all(content).unwrap();
    }
    writer.finish().unwrap().into_inner()
}

impl Session {
    fn new(start: &str, files: Vec<(&str, Vec<u8>)>) -> Session {
        Session {
            model: MyModel::build(&VirtualPath::parse(start)),
            files: files.into_iter().map(|(p, b)| (p.to_string(), b)).collect(),
            queue: VecDeque::new(),
            decodes: Vec::new(),
            decoded: Vec::new(),
            shown: Vec::new(),
            listed: Vec::new(),
            notes: Vec::new(),
            uploads: 0,
        }
    }

    fn is_dir(&self, path: &str) -> bool {
        let prefix = if path.ends_with('/') { path.to_string() } else { format!("{}/", path) };
        path == "/" || self.files.keys().any(|f| f.starts_with(&prefix))
    }

    fn probe(&self, path: &VirtualPath) -> DiskProbe {
        let name = text_of(path);
        if self.files.contains_key(&name) {
            DiskProbe::File
        } else if self.is_dir(&name) {
            DiskProbe::Directory
        } else if (0..path.depth()).any(|k| self.files.contains_key(&text_of(&path.ancestor(k)))) {
            DiskProbe::BehindFile
        } else {
            DiskProbe::Missing
        }
    }

    fn probe_ancestors(&self, path: &VirtualPath) -> Vec<bool> {
        (0..=path.depth())
            .map(|k| {
                let name = text_of(&path.ancestor(k));
                self.files.contains_key(&name) || self.is_dir(&name)
            })
            .collect()
    }

    fn read_entries(&self, dir: &VirtualPath) -> Vec<Listing> {
        let prefix = format!("{}/", text_of(dir).trim_end_matches('/'));
        let mut entries: Vec<Listing> = Vec::new();
        for (file, bytes) in &self.files {
            if let Some(rest) = file.strip_prefix(&prefix) {
                let name = rest.split('/').next().unwrap();
                let kind = if rest.contains('/') { EntryType::Dir } else { EntryType::File };
                let size = if rest.contains('/') { 0 } else { bytes.len() as u64 };
                let path = VirtualPath::parse(&format!("{}{}", prefix, name));
                if !entries.iter().any(|e| e.file_path == path) {
                    entries.push(Listing::new(kind, name, path, size));
                }
            }
        }
        entries
    }

    fn listing(&mut self, path: &VirtualPath) -> Result<Vec<Listing>, String> {
        match self.model.plan_listing(path, self.probe(path)) {
            ListPlan::Cached => self.model.get_listing(path).ok_or("not kept".to_string()),
            ListPlan::ReadDirectory => {
                let entries = self.read_entries(path);
                Ok(self.model.store_dir_listing(path, entries))
            }
            ListPlan::ReadArchive(Backend::Zip) => {
                let bytes = self.files[&text_of(path)].clone();
                self.model.list_zip_archive(path, &bytes).map_err(|e| format!("{:?}", e))
            }
            ListPlan::ReadArchive(Backend::Generic) => Err("no generic reader here".to_string()),
            ListPlan::LoadNested => {
                self.fetch(path);
                self.model.list_held_archive(path).map_err(|e| format!("{:?}", e))
            }
            ListPlan::Fail(e) => Err(format!("{:?}", e)),
        }
    }

    fn show_listing(&mut self, path: &VirtualPath) {
        match self.listing(path) {
            Ok(l) => self.listed.push(l.iter().map(|e| e.display_name.iter().collect()).collect()),
            Err(e) => self.notes.push(e),
        }
    }

    fn fetch(&mut self, path: &VirtualPath) -> bool {
        let on_disk = self.probe_ancestors(path);
        match self.model.load_image_data(path, &on_disk) {
            LoadStep::Ready => true,
            LoadStep::Cached | LoadStep::Busy | LoadStep::Unresolvable => false,
            LoadStep::Failed(e) => {
                self.notes.push(format!("{:?}", e));
                false
            }
            LoadStep::ReadFile => {
                let bytes = self.files[&text_of(path)].clone();
                self.model.store_file_data(path, bytes)
            }
            LoadStep::ReadArchive { container, entry, backend: Backend::Zip } => {
                let bytes = self.files[&text_of(&container)].clone();
                self.model.extract_from_archive(&container, &entry, &bytes).is_ok()
            }
            LoadStep::ReadArchive { .. } => {
                self.model.load_failed(path);
                false
            }
        }
    }

    fn load(&mut self, path: &VirtualPath) {
        if self.fetch(path) {
            self.queue.push_back(Message::ImageLoaded(path.duplicate()));
        }
    }

    fn upload(&mut self, path: &VirtualPath, raster: Raster) {
        self.uploads += 1;
        let texture = Texture { handle: self.uploads, bytes: raster.byte_len() as u64 };
        if self.model.texture_uploaded(path, texture) {
            self.shown.push(text_of(path));
        }
    }

    fn step_to(&mut self, found: Option<(VirtualPath, usize)>) {
        if let Some((path, _)) = found {
            self.queue.push_back(Message::WantToDisplay(path));
        }
    }

    fn handle(&mut self, message: Message) {
        match message {
            Message::OpenItem(nr) => match self.model.open_item(nr) {
                OpenStep::List(path) => self.show_listing(&path),
                OpenStep::Display(path) => self.queue.push_back(Message::WantToDisplay(path)),
                OpenStep::Nothing => {}
            },
            Message::UpDir => {
                if let Some(parent) = self.model.goto_parent() {
                    self.show_listing(&parent);
                }
            }
            Message::WantToDisplay(path) => {
                match self.model.display_requested(&path) {
                    DisplayStep::Show(_) => self.shown.push(text_of(&path)),
                    DisplayStep::Upload(raster) => self.upload(&path, raster),
                    DisplayStep::Load => self.load(&path),
                }
                if let Some((next, _)) = self.model.next_from_target() {
                    self.load(&next);
                }
            }
            Message::ImageLoaded(path) => {
                if let Some(bytes) = self.model.decode_image(&path) {
                    self.decodes.push(text_of(&path));
                    match try_decode_image(&bytes, &path) {
                        DecodeStep::Decoded(r) => self.queue.push_back(Message::ImageDecoded(r, path)),
                        _ => self.queue.push_back(Message::DecodeFailed(path)),
                    }
                }
            }
            Message::ImageDecoded(raster, path) => {
                self.decoded.push(text_of(&path));
                if let Some(raster) = self.model.image_decoded(&path, raster) {
                    self.upload(&path, raster);
                }
            }
            Message::DecodeFailed(path) => {
                let message: String = self.model.decode_failed(&path).iter().collect();
                self.notes.push(message);
            }
            Message::NextImage => {
                let found = self.model.next_from_target();
                self.step_to(found);
            }
            Message::PrevImage => {
                let found = self.model.prev_from_target();
                self.step_to(found);
            }
        }
    }

    fn run(&mut self) {
        while let Some(message) = self.queue.pop_front() {
            self.handle(message);
        }
    }
}

#[test]
fn two_requests_for_one_path_give_one_decoded_image() {
    let mut s = Session::new("/d", vec![("/d/a.png", png(1))]);
    let p = VirtualPath::parse("/d/a.png");
    s.queue.push_back(Message::WantToDisplay(p.duplicate()));
    s.queue.push_back(Message::WantToDisplay(p.duplicate()));
    s.run();
    assert_eq!(s.decodes, vec!["/d/a.png"]);
    assert_eq!(s.decoded, vec!["/d/a.png"]);
    assert_eq!(s.shown, vec!["/d/a.png"]);
    assert_eq!(s.model.state_of(&p), ResourceState::TextureResident);
    assert_eq!(s.model.gpu_data_size(), 12);
    assert_eq!(s.model.data_in_cache_size(), 0);
}

#[test]
fn browsing_a_directory_and_displaying_loads_one_image_ahead() {
    let mut s = Session::new(
        "/d",
        vec![("/d/a.png", png(1)), ("/d/b.png", png(2)), ("/d/c.png", png(3)), ("/d/n.txt", vec![1])],
    );
    s.show_listing(&VirtualPath::parse("/d"));
    assert_eq!(s.listed, vec![vec!["n.txt", "a.png", "b.png", "c.png"]]);
    s.queue.push_back(Message::OpenItem(2));
    s.run();
    assert_eq!(s.shown, vec!["/d/a.png"]);
    assert_eq!(s.decodes, vec!["/d/a.png", "/d/b.png"]);
    assert_eq!(s.model.state_of(&VirtualPath::parse("/d/b.png")), ResourceState::RasterCached);
    assert_eq!(s.model.state_of(&VirtualPath::parse("/d/c.png")), ResourceState::Absent);
    assert_eq!(s.model.image_cache_size(), 12);

    s.queue.push_back(Message::NextImage);
    s.run();
    assert_eq!(s.shown, vec!["/d/a.png", "/d/b.png"]);
    assert_eq!(s.decodes, vec!["/d/a.png", "/d/b.png", "/d/c.png"]);
    assert_eq!(s.model.image_cache_size(), 12);
    assert_eq!(s.model.gpu_data_size(), 24);

    s.queue.push_back(Message::PrevImage);
    s.run();
    assert_eq!(s.shown, vec!["/d/a.png", "/d/b.png", "/d/a.png"]);
    assert_eq!(s.decodes.len(), 3);
    s.queue.push_back(Message::PrevImage);
    s.run();
    assert_eq!(s.shown.len(), 3);
}

#[test]
fn images_inside_an_archive_are_browsed_like_files() {
    let archive = zip_of(&[("x/pic.png", png(7)), ("x/two.png", png(8)), ("top.txt", vec![0])]);
    let mut s = Session::new("/d", vec![("/d/photos.zip", archive)]);
    s.show_listing(&VirtualPath::parse("/d"));
    s.queue.push_back(Message::OpenItem(1));
    s.run();
    assert_eq!(s.listed[1], vec!["x", "top.txt"]);
    s.queue.push_back(Message::OpenItem(1));
    s.run();
    assert_eq!(s.listed[2], vec!["pic.png", "two.png"]);
    assert_eq!(s.model.cwd(), &VirtualPath::parse("/d/photos.zip/x"));
    s.queue.push_back(Message::OpenItem(1));
    s.run();
    assert_eq!(s.shown, vec!["/d/photos.zip/x/pic.png"]);
    assert_eq!(
        s.model.state_of(&VirtualPath::parse("/d/photos.zip/x/two.png")),
        ResourceState::RasterCached
    );
    s.queue.push_back(Message::UpDir);
    s.run();
    assert_eq!(s.listed[3], vec!["x", "top.txt"]);
    assert!(s.notes.is_empty());
}

#[test]
fn a_zip_inside_a_zip_is_listed_after_one_more_hop() {
    let inner = zip_of(&[("deep.png", png(9))]);
    let outer = zip_of(&[("inner.zip", inner)]);
    let mut s = Session::new("/d", vec![("/d/outer.zip", outer)]);
    s.show_listing(&VirtualPath::parse("/d/outer.zip"));
    assert_eq!(s.listed[0], vec!["inner.zip"]);
    s.queue.push_back(Message::OpenItem(1));
    s.run();
    assert_eq!(s.listed[1], vec!["deep.png"]);
    s.queue.push_back(Message::OpenItem(1));
    s.run();
    assert_eq!(s.shown, vec!["/d/outer.zip/inner.zip/deep.png"]);
    assert!(s.notes.is_empty());
}

#[test]
fn bytes_that_are_no_image_give_a_message_and_free_the_path() {
    let mut s = Session::new("/d", vec![("/d/bad.png", b"not an image".to_vec())]);
    let p = VirtualPath::parse("/d/bad.png");
    s.queue.push_back(Message::WantToDisplay(p.duplicate()));
    s.run();
    assert_eq!(s.notes, vec!["Problem decoding image, \"/d/bad.png\""]);
    assert!(s.shown.is_empty());
    assert_eq!(s.model.state_of(&p), ResourceState::Absent);
    assert_eq!(s.model.data_in_cache_size(), 0);
}

#[test]
fn what_cannot_be_listed_is_reported() {
    let mut s = Session::new("/d", vec![("/d/a.png", png(1))]);
    s.show_listing(&VirtualPath::parse("/nowhere"));
    s.show_listing(&VirtualPath::parse("/d/a.png"));
    assert_eq!(s.notes, vec!["NotFound", "NotListable"]);
    assert!(s.listed.is_empty());
}
