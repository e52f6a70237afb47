use fqview::listing::{EntryType, Listing};
use fqview::navigation::{find_next_image, find_prev_image, position_of};
use fqview::path::VirtualPath;

fn entry(kind: EntryType, path: &str) -> Listing {
    let p = VirtualPath::parse(path);
    let name: String = p.parts[p.parts.len() - 1].iter().collect();
    Listing::new(kind, &name, p, 0)
}

fn sample() -> Vec<Listing> {
    vec![
        entry(EntryType::Dir, "/d/sub"),
        entry(EntryType::File, "/d/notes.txt"),
        entry(EntryType::Image, "/d/a.png"),
        entry(EntryType::File, "/d/readme"),
        entry(EntryType::Image, "/d/b.JPG"),
        entry(EntryType::Archive, "/d/c.zip"),
    ]
}

#[test]
fn next_image_skips_what_is_no_image() {
    let list = sample();
    let found = find_next_image(&list, &VirtualPath::parse("/d/a.png"));
    assert_eq!(found, Some((VirtualPath::parse("/d/b.JPG"), 4)));
    let found = find_next_image(&list, &VirtualPath::parse("/d/sub"));
    assert_eq!(found, Some((VirtualPath::parse("/d/a.png"), 2)));
}

#[test]
fn prev_image_skips_what_is_no_image() {
    let list = sample();
    let found = find_prev_image(&list, &VirtualPath::parse("/d/b.JPG"));
    assert_eq!(found, Some((VirtualPath::parse("/d/a.png"), 2)));
    let found = find_prev_image(&list, &VirtualPath::parse("/d/c.zip"));
    assert_eq!(found, Some((VirtualPath::parse("/d/b.JPG"), 4)));
}

#[test]
fn stepping_does_not_wrap_around() {
    let list = sample();
    assert_eq!(find_next_image(&list, &VirtualPath::parse("/d/b.JPG")), None);
    assert_eq!(find_next_image(&list, &VirtualPath::parse("/d/c.zip")), None);
    assert_eq!(find_prev_image(&list, &VirtualPath::parse("/d/a.png")), None);
    assert_eq!(find_prev_image(&list, &VirtualPath::parse("/d/sub")), None);
}

#[test]
fn stepping_from_an_unlisted_path_finds_nothing() {
    let list = sample();
    assert_eq!(find_next_image(&list, &VirtualPath::parse("/d/zzz.png")), None);
    assert_eq!(find_prev_image(&list, &VirtualPath::parse("/d/zzz.png")), None);
    assert_eq!(find_next_image(&Vec::new(), &VirtualPath::parse("/d/a.png")), None);
    assert_eq!(position_of(&list, &VirtualPath::parse("/d/zzz.png")), None);
    assert_eq!(position_of(&list, &VirtualPath::parse("/d/readme")), Some(3));
}

#[test]
fn next_and_prev_are_inverses() {
    let list = sample();
    let a = VirtualPath::parse("/d/a.png");
    let (b, i) = find_next_image(&list, &a).unwrap();
    assert_eq!(i, 4);
    assert_eq!(find_prev_image(&list, &b), Some((a.duplicate(), 2)));
    let (back, k) = find_prev_image(&list, &b).unwrap();
    assert_eq!(find_next_image(&list, &back), Some((b, i)));
    assert_eq!(k, position_of(&list, &a).unwrap());
}
