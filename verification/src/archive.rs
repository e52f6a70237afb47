//! Archives as sub-trees: which reader a container calls for, what a zip
//! archive held in memory contains, and the listings that the flat table of
//! an archive's member names gives rise to, one for every directory level.

use crate::kinds::{
    archive_extensions, has_archive_extension, has_image_extension, is_archive_extension,
    is_archive_path, is_image_path, matches_any,
};
use crate::listing::{
    entry_views, insert_in_order, lemma_entry_in_order, listing_order, lists_path, unique_paths,
    with_entry_in_order, EntryType, Listing, ListingView,
};
use crate::path::{
    is_parent_mark, names_view, parent_mark, path_of, segments, text_copy, PathView, VirtualPath,
};
use vstd::relations::sorted_by;
use crate::pathmap::PathMap;
use crate::text::{chars_of, eq_ignore_ascii_case, same_ignoring_case};
use vstd::prelude::*;

verus! {

/// Why the bytes of an archive member could not be had.
#[derive(Clone, Copy, Debug, PartialEq, Eq, Structural)]
pub enum ExtractError {
    /// The archive has no member of that name.
    EntryNotFound,
    /// The archive cannot be read, or the member's data is damaged.
    CorruptArchive,
    /// The container is of no format that can be read.
    UnsupportedFormat,
}

/// The reader that a container calls for.
#[derive(Clone, Copy, Debug, PartialEq, Eq, Structural)]
pub enum Backend {
    /// The reader for zip archives.
    Zip,
    /// The reader for the other archive formats.
    Generic,
}

/// The reader for a container, by its extension: the zip reader for `zip`,
/// the generic one for the other archive extensions, none for anything else.
pub open spec fn backend_of(container: PathView) -> Option<Backend> {
    match container.extension() {
        Some(e) => if same_ignoring_case(e, "zip"@) {
            Some(Backend::Zip)
        } else if matches_any(e, archive_extensions()) {
            Some(Backend::Generic)
        } else {
            None
        },
        None => None,
    }
}

/// Picks the reader for a container by its extension.
pub fn select_backend(container: &VirtualPath) -> (picked: Result<Backend, ExtractError>)
    ensures
        match picked {
            Ok(b) => backend_of(container@) == Some(b),
            Err(e) => e == ExtractError::UnsupportedFormat && backend_of(container@).is_none(),
        },
{
    match container.extension() {
        Some(ext) => {
            let zip = chars_of("zip");
            if eq_ignore_ascii_case(&ext, &zip) {
                Ok(Backend::Zip)
            } else if is_archive_extension(&ext) {
                Ok(Backend::Generic)
            } else {
                Err(ExtractError::UnsupportedFormat)
            }
        },
        None => Err(ExtractError::UnsupportedFormat),
    }
}

/// What reading the member called `name` out of the zip archive `archive`
/// gives: the member's bytes, or why they cannot be had.
pub uninterp spec fn zip_member(archive: Seq<u8>, name: Seq<char>) -> Result<
    Seq<u8>,
    ExtractError,
>;

/// The member names that the zip archive `archive` declares, as texts, in
/// the order of its central directory, or why they cannot be had.
pub uninterp spec fn zip_names(archive: Seq<u8>) -> Result<Seq<Seq<char>>, ExtractError>;

/// The mathematical value of the outcome of reading a member.
pub open spec fn member_outcome(r: Result<Vec<u8>, ExtractError>) -> Result<
    Seq<u8>,
    ExtractError,
> {
    match r {
        Ok(bytes) => Ok(bytes@),
        Err(e) => Err(e),
    }
}

/// The mathematical value of the outcome of reading the member names.
pub open spec fn names_outcome(r: Result<Vec<Vec<char>>, ExtractError>) -> Result<
    Seq<Seq<char>>,
    ExtractError,
> {
    match r {
        Ok(names) => Ok(names_view(names@)),
        Err(e) => Err(e),
    }
}

/// Reads one member out of a zip archive held in memory, with
/// `zip::ZipArchive::new`, `ZipArchive::by_name` and `std::io::copy`.
/// Believed, not proved: the outcome depends on the archive's bytes and the
/// member's name alone. A missing member is reported as `EntryNotFound`, an
/// archive or compression method that the reader does not support as
/// `UnsupportedFormat`, every other failure as `CorruptArchive`.
#[verifier::external_body]
pub(crate) fn zip_read_member(archive: &Vec<u8>, name: &Vec<char>) -> (bytes: Result<
    Vec<u8>,
    ExtractError,
>)
    ensures
        member_outcome(bytes) == zip_member(archive@, name@),
{
    let name: String = name.iter().collect();
    let mut content: Vec<u8> = Vec::new();
    let read = zip::ZipArchive::new(std::io::Cursor::new(archive.as_slice()))
        .and_then(|mut zip| Ok(std::io::copy(&mut zip.by_name(&name)?, &mut content)?));
    match read {
        Ok(_) => Ok(content),
        Err(zip::result::ZipError::FileNotFound) => Err(ExtractError::EntryNotFound),
        Err(zip::result::ZipError::UnsupportedArchive(_)) => Err(ExtractError::UnsupportedFormat),
        Err(zip::result::ZipError::CompressionMethodNotSupported(_)) => Err(
            ExtractError::UnsupportedFormat,
        ),
        Err(_) => Err(ExtractError::CorruptArchive),
    }
}

/// Reads the member names of a zip archive held in memory, with
/// `zip::ZipArchive::new` and `ZipArchive::file_names`. Believed, not
/// proved: the outcome depends on the archive's bytes alone. Failures are
/// reported as by [`zip_read_member`].
#[verifier::external_body]
pub(crate) fn get_zip_filelist(archive: &Vec<u8>) -> (names: Result<Vec<Vec<char>>, ExtractError>)
    ensures
        names_outcome(names) == zip_names(archive@),
{
    let read = zip::ZipArchive::new(std::io::Cursor::new(archive.as_slice())).and_then(
        |zip| zip.file_names().map(|name| Ok(name?.chars().collect())).collect(),
    );
    match read {
        Ok(names) => Ok(names),
        Err(zip::result::ZipError::FileNotFound) => Err(ExtractError::EntryNotFound),
        Err(zip::result::ZipError::UnsupportedArchive(_)) => Err(ExtractError::UnsupportedFormat),
        Err(zip::result::ZipError::CompressionMethodNotSupported(_)) => Err(
            ExtractError::UnsupportedFormat,
        ),
        Err(_) => Err(ExtractError::CorruptArchive),
    }
}

/// The listings of a cache as mathematical values.
pub open spec fn cache_view(m: Map<PathView, Vec<Listing>>) -> Map<PathView, Seq<ListingView>> {
    Map::new(|k: PathView| m.dom().contains(k), |k: PathView| entry_views(m[k]@))
}

/// The listing that the cache has for `dir`, empty where it has none.
pub open spec fn listing_at(cache: Map<PathView, Seq<ListingView>>, dir: PathView) -> Seq<
    ListingView,
> {
    if cache.dom().contains(dir) {
        cache[dir]
    } else {
        Seq::empty()
    }
}

/// The cache with `e` entered into the listing of `dir` at its place in the
/// order, unless that listing has an entry for the path of `e` already.
pub open spec fn cache_with_entry(
    cache: Map<PathView, Seq<ListingView>>,
    dir: PathView,
    e: ListingView,
) -> Map<PathView, Seq<ListingView>> {
    cache.insert(dir, with_entry_in_order(listing_at(cache, dir), e))
}

/// The cache with a listing for `dir`: an empty one where it had none.
pub open spec fn cache_with_dir(cache: Map<PathView, Seq<ListingView>>, dir: PathView) -> Map<
    PathView,
    Seq<ListingView>,
> {
    cache.insert(dir, listing_at(cache, dir))
}

/// The names without the marks of the level above.
pub open spec fn without_parent_marks(parts: Seq<Seq<char>>) -> Seq<Seq<char>>
    decreases parts.len(),
{
    if parts.len() == 0 {
        Seq::empty()
    } else if is_parent_mark(parts.last()) {
        without_parent_marks(parts.drop_last())
    } else {
        without_parent_marks(parts.drop_last()).push(parts.last())
    }
}

/// The levels that the name of an archive member goes through: its names
/// between separators, but for empty ones, `.` and `..`.
pub open spec fn member_parts(name: Seq<char>) -> Seq<Seq<char>> {
    without_parent_marks(segments(name))
}

/// The kind of an archive member by its name: a directory where the name
/// ends in `/`, else what the extension says, else a plain file.
pub open spec fn member_kind(name: Seq<char>) -> EntryType {
    if name.len() > 0 && name.last() == '/' {
        EntryType::Dir
    } else if is_archive_path(path_of(name)) {
        EntryType::Archive
    } else if is_image_path(path_of(name)) {
        EntryType::Image
    } else {
        EntryType::File
    }
}

/// The entry for level `j` of a member with the names `parts`: the member
/// itself at the last level, a directory at the levels above it.
pub open spec fn member_entry(
    archive: PathView,
    parts: Seq<Seq<char>>,
    kind: EntryType,
    j: int,
) -> ListingView {
    ListingView {
        entry_type: if j == parts.len() - 1 {
            kind
        } else {
            EntryType::Dir
        },
        display_name: parts[j],
        file_path: archive.join(parts.take(j + 1)),
        size: 0,
    }
}

/// The cache after the levels from `j` on of one member were entered: each
/// level's entry goes into the listing of the level above it, and each
/// directory gets a listing of its own.
pub open spec fn with_member_from(
    cache: Map<PathView, Seq<ListingView>>,
    archive: PathView,
    parts: Seq<Seq<char>>,
    kind: EntryType,
    j: int,
) -> Map<PathView, Seq<ListingView>>
    decreases parts.len() - j,
{
    if j < 0 || j >= parts.len() {
        cache
    } else {
        let entry = member_entry(archive, parts, kind, j);
        let added = cache_with_entry(cache, archive.join(parts.take(j)), entry);
        let next = if entry.entry_type == EntryType::Dir {
            cache_with_dir(added, entry.file_path)
        } else {
            added
        };
        with_member_from(next, archive, parts, kind, j + 1)
    }
}

/// The cache after one member of the archive was entered at every level of
/// its name.
pub open spec fn with_member(
    cache: Map<PathView, Seq<ListingView>>,
    archive: PathView,
    name: Seq<char>,
) -> Map<PathView, Seq<ListingView>> {
    with_member_from(cache, archive, member_parts(name), member_kind(name), 0)
}

/// The cache after the members of an archive were entered, in the order of
/// their names: the archive itself has a listing, even with no member.
pub open spec fn with_members(
    cache: Map<PathView, Seq<ListingView>>,
    archive: PathView,
    names: Seq<Seq<char>>,
) -> Map<PathView, Seq<ListingView>>
    decreases names.len(),
{
    if names.len() == 0 {
        cache_with_dir(cache, archive)
    } else {
        with_member(with_members(cache, archive, names.drop_last()), archive, names.last())
    }
}

/// Every listing of the cache is in the order of a listing and has no path
/// twice.
pub open spec fn all_in_order(cache: Map<PathView, Seq<ListingView>>) -> bool {
    forall|k: PathView|
        cache.dom().contains(k) ==> unique_paths(#[trigger] cache[k]) && sorted_by(
            cache[k],
            listing_order(),
        )
}

/// `path` is `archive` or below it.
pub open spec fn is_under(path: PathView, archive: PathView) -> bool {
    path.rooted == archive.rooted && archive.parts.is_prefix_of(path.parts)
}

/// The cache has no listing for the archive or for anything below it.
pub open spec fn knows_nothing_of(cache: Map<PathView, Seq<ListingView>>, archive: PathView) -> bool {
    forall|k: PathView| cache.dom().contains(k) ==> !is_under(k, archive)
}

/// `e` is the entry that a member of `names` makes in the listing of `dir`,
/// at one of the levels of its name.
pub open spec fn made_by_member(
    archive: PathView,
    names: Seq<Seq<char>>,
    dir: PathView,
    e: ListingView,
) -> bool {
    exists|m: int, j: int|
        #![trigger member_entry(archive, member_parts(names[m]), member_kind(names[m]), j)]
        0 <= m < names.len() && 0 <= j < member_parts(names[m]).len() && dir == archive.join(
            member_parts(names[m]).take(j),
        ) && e == member_entry(archive, member_parts(names[m]), member_kind(names[m]), j)
}

/// Every entry of the listings of the archive and below it was made by a
/// member of `names`.
pub open spec fn all_made_by_members(
    cache: Map<PathView, Seq<ListingView>>,
    archive: PathView,
    names: Seq<Seq<char>>,
) -> bool {
    forall|dir: PathView, i: int|
        cache.dom().contains(dir) && is_under(dir, archive) && 0 <= i < cache[dir].len()
            ==> made_by_member(archive, names, dir, #[trigger] cache[dir][i])
}

/// The listing that the cache has for `dir` has an entry for `path`.
pub open spec fn lists(cache: Map<PathView, Seq<ListingView>>, dir: PathView, path: PathView) -> bool {
    cache.dom().contains(dir) && lists_path(cache[dir], path)
}

proof fn lemma_entry_step(
    cache: Map<PathView, Seq<ListingView>>,
    at: PathView,
    e: ListingView,
    dir: PathView,
    path: PathView,
)
    ensures
        all_in_order(cache) ==> all_in_order(cache_with_entry(cache, at, e)) && all_in_order(
            cache_with_dir(cache, at),
        ),
        cache.dom().contains(dir) ==> cache_with_entry(cache, at, e).dom().contains(dir)
            && cache_with_dir(cache, at).dom().contains(dir),
        lists(cache, dir, path) ==> lists(cache_with_entry(cache, at, e), dir, path) && lists(
            cache_with_dir(cache, at),
            dir,
            path,
        ),
        lists(cache_with_entry(cache, at, e), at, e.file_path),
        cache_with_dir(cache, at).dom().contains(at),
{
    let before = listing_at(cache, at);
    let after = with_entry_in_order(before, e);
    lemma_entry_in_order(before, e);
    if lists(cache, dir, path) && dir == at {
        let i = choose|i: int| 0 <= i < before.len() && before[i].file_path == path;
        assert(before.contains(before[i]));
        assert(after.contains(before[i]));
        let k = choose|k: int| 0 <= k < after.len() && after[k] == before[i];
        assert(after[k].file_path == path);
    }
}

proof fn lemma_member_steps(
    cache: Map<PathView, Seq<ListingView>>,
    archive: PathView,
    parts: Seq<Seq<char>>,
    kind: EntryType,
    j: int,
    dir: PathView,
    path: PathView,
)
    ensures
        all_in_order(cache) ==> all_in_order(with_member_from(cache, archive, parts, kind, j)),
        cache.dom().contains(dir) ==> with_member_from(cache, archive, parts, kind, j).dom().contains(
            dir,
        ),
        lists(cache, dir, path) ==> lists(
            with_member_from(cache, archive, parts, kind, j),
            dir,
            path,
        ),
    decreases parts.len() - j,
{
    if 0 <= j < parts.len() {
        let entry = member_entry(archive, parts, kind, j);
        let at = archive.join(parts.take(j));
        let added = cache_with_entry(cache, at, entry);
        lemma_entry_step(cache, at, entry, dir, path);
        lemma_entry_step(added, entry.file_path, entry, dir, path);
        let next = if entry.entry_type == EntryType::Dir {
            cache_with_dir(added, entry.file_path)
        } else {
            added
        };
        lemma_member_steps(next, archive, parts, kind, j + 1, dir, path);
    }
}

/// Entering the members of an archive keeps every listing in order and its
/// paths apart.
pub proof fn lemma_members_keep_order(
    cache: Map<PathView, Seq<ListingView>>,
    archive: PathView,
    names: Seq<Seq<char>>,
)
    requires
        all_in_order(cache),
    ensures
        all_in_order(with_members(cache, archive, names)),
    decreases names.len(),
{
    if names.len() == 0 {
        lemma_entry_step(cache, archive, arbitrary(), archive, archive);
    } else {
        lemma_members_keep_order(cache, archive, names.drop_last());
        lemma_member_steps(
            with_members(cache, archive, names.drop_last()),
            archive,
            member_parts(names.last()),
            member_kind(names.last()),
            0,
            archive,
            archive,
        );
    }
}

proof fn lemma_member_levels_listed(
    cache: Map<PathView, Seq<ListingView>>,
    archive: PathView,
    parts: Seq<Seq<char>>,
    kind: EntryType,
    j: int,
    level: int,
)
    requires
        0 <= j <= level < parts.len(),
    ensures
        lists(
            with_member_from(cache, archive, parts, kind, j),
            archive.join(parts.take(level)),
            archive.join(parts.take(level + 1)),
        ),
        level < parts.len() - 1 ==> with_member_from(
            cache,
            archive,
            parts,
            kind,
            j,
        ).dom().contains(archive.join(parts.take(level + 1))),
    decreases parts.len() - j,
{
    let entry = member_entry(archive, parts, kind, j);
    let at = archive.join(parts.take(j));
    let added = cache_with_entry(cache, at, entry);
    lemma_entry_step(cache, at, entry, at, entry.file_path);
    lemma_entry_step(added, entry.file_path, entry, at, entry.file_path);
    let next = if entry.entry_type == EntryType::Dir {
        cache_with_dir(added, entry.file_path)
    } else {
        added
    };
    if j == level {
        lemma_member_steps(next, archive, parts, kind, j + 1, at, entry.file_path);
        lemma_member_steps(next, archive, parts, kind, j + 1, entry.file_path, entry.file_path);
    } else {
        lemma_member_levels_listed(next, archive, parts, kind, j + 1, level);
    }
}

proof fn lemma_root_listed(
    cache: Map<PathView, Seq<ListingView>>,
    archive: PathView,
    names: Seq<Seq<char>>,
)
    ensures
        with_members(cache, archive, names).dom().contains(archive),
    decreases names.len(),
{
    if names.len() > 0 {
        lemma_root_listed(cache, archive, names.drop_last());
        lemma_member_steps(
            with_members(cache, archive, names.drop_last()),
            archive,
            member_parts(names.last()),
            member_kind(names.last()),
            0,
            archive,
            archive,
        );
    }
}

/// After the members of an archive were entered, every level of every
/// member's name is browsable: the listing of the level above it, under its
/// composed path, has an entry for it, and each directory on the way to a
/// member has a listing of its own; so has the archive itself.
pub proof fn lemma_members_listed(
    cache: Map<PathView, Seq<ListingView>>,
    archive: PathView,
    names: Seq<Seq<char>>,
    i: int,
    level: int,
)
    requires
        0 <= i < names.len(),
        0 <= level < member_parts(names[i]).len(),
    ensures
        with_members(cache, archive, names).dom().contains(archive),
        lists(
            with_members(cache, archive, names),
            archive.join(member_parts(names[i]).take(level)),
            archive.join(member_parts(names[i]).take(level + 1)),
        ),
        level < member_parts(names[i]).len() - 1 ==> with_members(
            cache,
            archive,
            names,
        ).dom().contains(archive.join(member_parts(names[i]).take(level + 1))),
    decreases names.len(),
{
    let parts = member_parts(names[i]);
    let before = with_members(cache, archive, names.drop_last());
    let last = names.last();
    lemma_root_listed(cache, archive, names);
    if i == names.len() - 1 {
        lemma_member_levels_listed(before, archive, parts, member_kind(last), 0, level);
    } else {
        assert(names.drop_last()[i] == names[i]);
        lemma_members_listed(cache, archive, names.drop_last(), i, level);
        lemma_member_steps(
            before,
            archive,
            member_parts(last),
            member_kind(last),
            0,
            archive.join(parts.take(level)),
            archive.join(parts.take(level + 1)),
        );
        lemma_member_steps(
            before,
            archive,
            member_parts(last),
            member_kind(last),
            0,
            archive.join(parts.take(level + 1)),
            archive.join(parts.take(level + 1)),
        );
    }
}

proof fn lemma_entry_made(
    cache: Map<PathView, Seq<ListingView>>,
    archive: PathView,
    names: Seq<Seq<char>>,
    at: PathView,
    e: ListingView,
)
    requires
        all_made_by_members(cache, archive, names),
    ensures
        made_by_member(archive, names, at, e) ==> all_made_by_members(
            cache_with_entry(cache, at, e),
            archive,
            names,
        ),
        all_made_by_members(cache_with_dir(cache, at), archive, names),
{
    let before = listing_at(cache, at);
    lemma_entry_in_order(before, e);
    if made_by_member(archive, names, at, e) {
        let after = cache_with_entry(cache, at, e);
        assert forall|dir: PathView, i: int|
            after.dom().contains(dir) && is_under(dir, archive) && 0 <= i < after[dir].len()
            implies made_by_member(archive, names, dir, #[trigger] after[dir][i]) by {
            if dir == at {
                let x = after[dir][i];
                assert(after[dir].contains(x));
                if x != e {
                    assert(before.contains(x));
                    let k = choose|k: int| 0 <= k < before.len() && before[k] == x;
                    assert(cache.dom().contains(dir));
                    assert(made_by_member(archive, names, dir, cache[dir][k]));
                }
            } else {
                assert(made_by_member(archive, names, dir, cache[dir][i]));
            }
        }
    }
    let kept = cache_with_dir(cache, at);
    assert forall|dir: PathView, i: int|
        kept.dom().contains(dir) && is_under(dir, archive) && 0 <= i < kept[dir].len()
        implies made_by_member(archive, names, dir, #[trigger] kept[dir][i]) by {
        assert(cache.dom().contains(dir));
        assert(made_by_member(archive, names, dir, cache[dir][i]));
    }
}

proof fn lemma_member_made(
    cache: Map<PathView, Seq<ListingView>>,
    archive: PathView,
    names: Seq<Seq<char>>,
    m: int,
    j: int,
)
    requires
        all_made_by_members(cache, archive, names),
        0 <= m < names.len(),
        0 <= j,
    ensures
        all_made_by_members(
            with_member_from(cache, archive, member_parts(names[m]), member_kind(names[m]), j),
            archive,
            names,
        ),
    decreases member_parts(names[m]).len() - j,
{
    let parts = member_parts(names[m]);
    let kind = member_kind(names[m]);
    if j < parts.len() {
        let entry = member_entry(archive, parts, kind, j);
        let at = archive.join(parts.take(j));
        assert(made_by_member(archive, names, at, entry));
        lemma_entry_made(cache, archive, names, at, entry);
        let added = cache_with_entry(cache, at, entry);
        lemma_entry_made(added, archive, names, entry.file_path, entry);
        let next = if entry.entry_type == EntryType::Dir {
            cache_with_dir(added, entry.file_path)
        } else {
            added
        };
        lemma_member_made(next, archive, names, m, j + 1);
    }
}

/// In a cache that knew nothing of the archive, every entry of the listings
/// of the archive and below it is one that a member makes.
pub proof fn lemma_members_made(
    cache: Map<PathView, Seq<ListingView>>,
    archive: PathView,
    names: Seq<Seq<char>>,
)
    requires
        knows_nothing_of(cache, archive),
    ensures
        all_made_by_members(with_members(cache, archive, names), archive, names),
    decreases names.len(),
{
    if names.len() == 0 {
        assert(archive.parts.subrange(0, archive.parts.len() as int) =~= archive.parts);
        assert(is_under(archive, archive));
        assert(!cache.dom().contains(archive));
        let made = cache_with_dir(cache, archive);
        assert forall|dir: PathView, i: int|
            made.dom().contains(dir) && is_under(dir, archive) && 0 <= i < made[dir].len()
            implies made_by_member(archive, names, dir, #[trigger] made[dir][i]) by {
            assert(dir == archive);
        }
    } else {
        let short = names.drop_last();
        let before = with_members(cache, archive, short);
        lemma_members_made(cache, archive, short);
        assert forall|dir: PathView, i: int|
            before.dom().contains(dir) && is_under(dir, archive) && 0 <= i < before[dir].len()
            implies made_by_member(archive, names, dir, #[trigger] before[dir][i]) by {
            let e = before[dir][i];
            assert(made_by_member(archive, short, dir, e));
            let (m, j) = choose|m: int, j: int|
                #![trigger member_entry(archive, member_parts(short[m]), member_kind(short[m]), j)]
                0 <= m < short.len() && 0 <= j < member_parts(short[m]).len() && dir
                    == archive.join(member_parts(short[m]).take(j)) && e == member_entry(
                    archive,
                    member_parts(short[m]),
                    member_kind(short[m]),
                    j,
                );
            assert(short[m] == names[m]);
            assert(e == member_entry(archive, member_parts(names[m]), member_kind(names[m]), j));
        }
        lemma_member_made(before, archive, names, names.len() - 1, 0);
    }
}

/// The entry that stands for a level of a member's name: it has the path
/// `path`, the level's name, no size, and the kind of a directory or of a
/// member that ends at this level.
pub open spec fn stands_for_level(
    e: ListingView,
    archive: PathView,
    names: Seq<Seq<char>>,
    parts: Seq<Seq<char>>,
    level: int,
) -> bool {
    &&& e.file_path == archive.join(parts.take(level + 1))
    &&& e.display_name == parts[level]
    &&& e.size == 0
    &&& (e.entry_type == EntryType::Dir || exists|m: int|
        0 <= m < names.len() && #[trigger] member_parts(names[m]) == parts.take(level + 1)
            && e.entry_type == member_kind(names[m]))
}

/// In a cache that knew nothing of the archive, after its members were
/// entered, every level of every member's name has its entry in the listing
/// of the level above it: under the composed path, with the level's name,
/// and as a directory unless a member ends at this level, which then may
/// give the entry its kind.
pub proof fn lemma_members_named(
    cache: Map<PathView, Seq<ListingView>>,
    archive: PathView,
    names: Seq<Seq<char>>,
    i: int,
    level: int,
)
    requires
        knows_nothing_of(cache, archive),
        0 <= i < names.len(),
        0 <= level < member_parts(names[i]).len(),
    ensures
        with_members(cache, archive, names).dom().contains(
            archive.join(member_parts(names[i]).take(level)),
        ),
        exists|k: int|
            0 <= k < with_members(cache, archive, names)[archive.join(
                member_parts(names[i]).take(level),
            )].len() && stands_for_level(
                #[trigger] with_members(cache, archive, names)[archive.join(
                    member_parts(names[i]).take(level),
                )][k],
                archive,
                names,
                member_parts(names[i]),
                level,
            ),
{
    let parts = member_parts(names[i]);
    let after = with_members(cache, archive, names);
    let dir = archive.join(parts.take(level));
    let path = archive.join(parts.take(level + 1));
    lemma_members_listed(cache, archive, names, i, level);
    lemma_members_made(cache, archive, names);
    let k = choose|k: int| 0 <= k < after[dir].len() && after[dir][k].file_path == path;
    let e = after[dir][k];
    assert(dir.parts.subrange(0, archive.parts.len() as int) =~= archive.parts);
    assert(is_under(dir, archive));
    assert(made_by_member(archive, names, dir, e));
    let (m, j) = choose|m: int, j: int|
        #![trigger member_entry(archive, member_parts(names[m]), member_kind(names[m]), j)]
        0 <= m < names.len() && 0 <= j < member_parts(names[m]).len() && dir == archive.join(
            member_parts(names[m]).take(j),
        ) && e == member_entry(archive, member_parts(names[m]), member_kind(names[m]), j);
    let made = member_parts(names[m]);
    let mine = parts.take(level + 1);
    let theirs = made.take(j + 1);
    assert(archive.parts + theirs == archive.parts + mine);
    assert((archive.parts + theirs).len() == (archive.parts + mine).len());
    assert(j == level);
    assert(theirs =~= mine) by {
        assert forall|x: int| 0 <= x < theirs.len() implies theirs[x] == mine[x] by {
            assert((archive.parts + theirs)[archive.parts.len() + x] == theirs[x]);
            assert((archive.parts + mine)[archive.parts.len() + x] == mine[x]);
        }
    }
    assert(made[j] == theirs[j]);
    assert(parts[level] == mine[level]);
    if j == made.len() - 1 {
        assert(made =~= theirs);
    }
    assert(stands_for_level(e, archive, names, parts, level));
}

/// Enters `entry` into the listing of `dir`.
pub fn add_entry(cache: &mut PathMap<Vec<Listing>>, dir: &VirtualPath, entry: Listing)
    requires
        old(cache).wf(),
    ensures
        final(cache).wf(),
        cache_view(final(cache)@) == cache_with_entry(cache_view(old(cache)@), dir@, entry@),
{
    let mut list = match cache.remove(dir) {
        Some(list) => list,
        None => Vec::new(),
    };
    let ghost before = entry_views(list@);
    proof {
        assert(before =~= listing_at(cache_view(old(cache)@), dir@));
    }
    insert_in_order(&mut list, entry);
    cache.insert(dir.duplicate(), list);
    proof {
        assert(cache_view(cache@) =~= cache_with_entry(cache_view(old(cache)@), dir@, entry@));
    }
}

/// Gives `dir` a listing, an empty one unless it has one.
pub fn ensure_dir(cache: &mut PathMap<Vec<Listing>>, dir: &VirtualPath)
    requires
        old(cache).wf(),
    ensures
        final(cache).wf(),
        cache_view(final(cache)@) == cache_with_dir(cache_view(old(cache)@), dir@),
{
    if !cache.contains_key(dir) {
        let list: Vec<Listing> = Vec::new();
        proof {
            assert(entry_views(list@) =~= Seq::<ListingView>::empty());
        }
        cache.insert(dir.duplicate(), list);
    }
    proof {
        assert(cache_view(cache@) =~= cache_with_dir(cache_view(old(cache)@), dir@));
    }
}

/// The kind of an archive member by its name.
pub fn kind_of_member(name: &Vec<char>) -> (kind: EntryType)
    ensures
        kind == member_kind(name@),
{
    if name.len() > 0 && name[name.len() - 1] == '/' {
        return EntryType::Dir;
    }
    let path = VirtualPath::from_chars(name);
    if has_archive_extension(&path) {
        EntryType::Archive
    } else if has_image_extension(&path) {
        EntryType::Image
    } else {
        EntryType::File
    }
}

/// The levels that the name of an archive member goes through.
pub fn member_names(name: &Vec<char>) -> (names: Vec<Vec<char>>)
    ensures
        names_view(names@) == member_parts(name@),
{
    let path = VirtualPath::from_chars(name);
    let ghost all = path@.parts;
    let mut names: Vec<Vec<char>> = Vec::new();
    let mut i: usize = 0;
    proof {
        assert(names_view(names@) =~= without_parent_marks(all.take(0)));
    }
    while i < path.parts.len()
        invariant
            i <= path.parts.len(),
            all == path@.parts,
            names_view(names@) == without_parent_marks(all.take(i as int)),
        decreases path.parts.len() - i,
    {
        let ghost before = names_view(names@);
        proof {
            assert(all.take(i + 1).drop_last() =~= all.take(i as int));
            assert(all.take(i + 1).last() == path.parts@[i as int]@);
        }
        if !parent_mark(&path.parts[i]) {
            names.push(text_copy(&path.parts[i]));
            proof {
                assert(names_view(names@) =~= before.push(path.parts@[i as int]@));
            }
        }
        i += 1;
    }
    proof {
        assert(all.take(path.parts.len() as int) =~= all);
    }
    names
}

/// Enters one member of the archive at every level of its name.
pub fn add_member(cache: &mut PathMap<Vec<Listing>>, archive: &VirtualPath, name: &Vec<char>)
    requires
        old(cache).wf(),
    ensures
        final(cache).wf(),
        cache_view(final(cache)@) == with_member(cache_view(old(cache)@), archive@, name@),
{
    let kind = kind_of_member(name);
    let names = member_names(name);
    let n = names.len();
    let ghost parts = names_view(names@);
    let ghost goal = with_member(cache_view(cache@), archive@, name@);
    let mut dir = archive.duplicate();
    let mut j: usize = 0;
    proof {
        assert(parts.take(0) =~= Seq::<Seq<char>>::empty());
        assert(archive@.join(parts.take(0)) == archive@) by {
            assert(archive@.parts + parts.take(0) =~= archive@.parts);
        }
    }
    while j < n
        invariant
            j <= n,
            n == parts.len(),
            parts == names_view(names@),
            cache.wf(),
            dir@ == archive@.join(parts.take(j as int)),
            with_member_from(cache_view(cache@), archive@, parts, kind, j as int) == goal,
        decreases n - j,
    {
        let part = &names[j];
        let file_path = dir.child(part);
        proof {
            assert(part@ == parts[j as int]);
            assert(file_path@ == archive@.join(parts.take(j + 1))) by {
                assert(dir@.parts.push(part@) =~= archive@.parts + parts.take(j + 1));
            }
        }
        let entry_type = if j == n - 1 {
            kind
        } else {
            EntryType::Dir
        };
        let entry = Listing {
            entry_type,
            display_name: text_copy(part),
            file_path: file_path.duplicate(),
            size: 0,
        };
        proof {
            assert(entry@ == member_entry(archive@, parts, kind, j as int));
        }
        add_entry(cache, &dir, entry);
        match entry_type {
            EntryType::Dir => {
                ensure_dir(cache, &file_path);
            },
            _ => {},
        }
        dir = file_path;
        j += 1;
    }
}

/// Enters the members of an archive into the cache of listings, so that
/// every directory level inside the archive has a listing of its own under
/// its composed path.
pub fn add_filelist_to_directory(
    cache: &mut PathMap<Vec<Listing>>,
    list: &Vec<Vec<char>>,
    archive_path: &VirtualPath,
)
    requires
        old(cache).wf(),
    ensures
        final(cache).wf(),
        cache_view(final(cache)@) == with_members(
            cache_view(old(cache)@),
            archive_path@,
            names_view(list@),
        ),
{
    let ghost names = names_view(list@);
    let ghost start = cache_view(cache@);
    ensure_dir(cache, archive_path);
    let mut i: usize = 0;
    proof {
        assert(names.take(0) =~= Seq::<Seq<char>>::empty());
    }
    while i < list.len()
        invariant
            i <= list.len(),
            names == names_view(list@),
            cache.wf(),
            cache_view(cache@) == with_members(start, archive_path@, names.take(i as int)),
        decreases list.len() - i,
    {
        proof {
            assert(names.take(i + 1).drop_last() =~= names.take(i as int));
            assert(names.take(i + 1).last() == list@[i as int]@);
        }
        add_member(cache, archive_path, &list[i]);
        i += 1;
    }
    proof {
        assert(names.take(list.len() as int) =~= names);
    }
}

} // verus!
