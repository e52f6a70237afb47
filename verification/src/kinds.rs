//! What a name's extension says about a file: the image formats that can be
//! displayed and the archive formats that can be browsed.

use crate::path::{PathView, VirtualPath};
use crate::text::{chars_of, eq_ignore_ascii_case, same_ignoring_case};
use vstd::prelude::*;

verus! {

/// The extensions of the image formats that can be displayed.
pub open spec fn image_extensions() -> Seq<Seq<char>> {
    seq![
        "bmp"@,
        "dds"@,
        "ff"@,
        "gif"@,
        "hdr"@,
        "ico"@,
        "jpg"@,
        "jpeg"@,
        "exr"@,
        "png"@,
        "pnm"@,
        "qoi"@,
        "tga"@,
        "tif"@,
        "tiff"@,
        "webp"@,
        "heic"@,
        "heif"@,
    ]
}

/// The extensions of the archive formats that can be browsed.
pub open spec fn archive_extensions() -> Seq<Seq<char>> {
    seq![
        "iso"@,
        "zip"@,
        "7z"@,
        "cab"@,
        "rar"@,
        "xar"@,
        "lzh"@,
        "lha"@,
        "gz"@,
        "bz2"@,
        "zst"@,
        "jar"@,
    ]
}

/// Whether `ext` is one of `list`, the case of ASCII letters aside.
pub open spec fn matches_any(ext: Seq<char>, list: Seq<Seq<char>>) -> bool {
    exists|i: int| 0 <= i < list.len() && same_ignoring_case(ext, #[trigger] list[i])
}

/// Whether the path's extension is that of an image format.
pub open spec fn is_image_path(p: PathView) -> bool {
    p.extension() matches Some(e) && matches_any(e, image_extensions())
}

/// Whether the path's extension is that of an archive format.
pub open spec fn is_archive_path(p: PathView) -> bool {
    p.extension() matches Some(e) && matches_any(e, archive_extensions())
}

/// The texts that a slice of string slices holds.
pub open spec fn strs_view(list: Seq<&str>) -> Seq<Seq<char>> {
    Seq::new(list.len(), |i: int| list[i]@)
}

fn matches_one_of(ext: &Vec<char>, list: &[&str]) -> (found: bool)
    ensures
        found == matches_any(ext@, strs_view(list@)),
{
    let mut i: usize = 0;
    while i < list.len()
        invariant
            i <= list.len(),
            forall|k: int| 0 <= k < i ==> !same_ignoring_case(ext@, #[trigger] strs_view(list@)[k]),
        decreases list.len() - i,
    {
        let candidate = chars_of(list[i]);
        if eq_ignore_ascii_case(ext, &candidate) {
            proof {
                assert(strs_view(list@)[i as int] == candidate@);
            }
            return true;
        }
        proof {
            assert(strs_view(list@)[i as int] == candidate@);
        }
        i += 1;
    }
    false
}

/// Whether `ext` is the extension of an image format.
pub fn is_image_extension(ext: &Vec<char>) -> (found: bool)
    ensures
        found == matches_any(ext@, image_extensions()),
{
    let list: [&str; 18] = [
        "bmp", "dds", "ff", "gif", "hdr", "ico", "jpg", "jpeg", "exr", "png", "pnm", "qoi", "tga",
        "tif", "tiff", "webp", "heic", "heif",
    ];
    proof {
        assert(strs_view(list@) =~= image_extensions());
    }
    matches_one_of(ext, list.as_slice())
}

/// Whether `ext` is the extension of an archive format.
pub fn is_archive_extension(ext: &Vec<char>) -> (found: bool)
    ensures
        found == matches_any(ext@, archive_extensions()),
{
    let list: [&str; 12] = [
        "iso", "zip", "7z", "cab", "rar", "xar", "lzh", "lha", "gz", "bz2", "zst", "jar",
    ];
    proof {
        assert(strs_view(list@) =~= archive_extensions());
    }
    matches_one_of(ext, list.as_slice())
}

/// Whether the path's extension is that of an image format.
pub fn has_image_extension(path: &VirtualPath) -> (found: bool)
    ensures
        found == is_image_path(path@),
{
    match path.extension() {
        Some(ext) => is_image_extension(&ext),
        None => false,
    }
}

/// Whether the path's extension is that of an archive format.
pub fn has_archive_extension(path: &VirtualPath) -> (found: bool)
    ensures
        found == is_archive_path(path@),
{
    match path.extension() {
        Some(ext) => is_archive_extension(&ext),
        None => false,
    }
}

} // verus!
