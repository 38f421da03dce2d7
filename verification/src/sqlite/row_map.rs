//! How a stored wallpaper row becomes a library entry.

use vstd::prelude::*;

use crate::text::str_eq;
use crate::types::{Backend, FileType, WallpaperEntry, WallpaperProject};

verus! {

/// The columns of a stored wallpaper row, in the order the queries select
/// them.
#[derive(Debug, Clone)]
pub struct StoredWallpaperRow {
    pub path: String,
    pub file_type: String,
    pub ext: String,
    pub backend: String,
    pub size: i64,
    pub mtime: i64,
    pub resolution: String,
    pub project_type: String,
    pub preview_path: String,
    pub workshop_id: String,
    pub title: String,
    pub we_file: String,
    pub unsupported_reason: String,
}

/// An empty text reads as absent.
pub open spec fn non_empty_view(v: Seq<char>) -> Option<Seq<char>> {
    if v.len() == 0 {
        None
    } else {
        Some(v)
    }
}

pub open spec fn opt_view(v: Option<String>) -> Option<Seq<char>> {
    match v {
        Some(s) => Some(s@),
        None => None,
    }
}

pub fn non_empty(value: String) -> (r: Option<String>)
    ensures
        opt_view(r) == non_empty_view(value@),
{
    if value.as_str().is_empty() {
        None
    } else {
        Some(value)
    }
}

/// The kind a stored `type` names; unknown kinds read as unsupported.
pub open spec fn stored_file_type(s: Seq<char>) -> FileType {
    if s == "image"@ {
        FileType::Image
    } else if s == "gif"@ {
        FileType::Gif
    } else if s == "video"@ {
        FileType::Video
    } else if s == "we_scene"@ {
        FileType::WeScene
    } else if s == "we_web"@ {
        FileType::WeWeb
    } else {
        FileType::WeApplication
    }
}

/// The renderer a stored `backend` names; `swww` is `awww`, and unknown
/// renderers read as unsupported.
pub open spec fn stored_backend(s: Seq<char>) -> Backend {
    if s == "awww"@ || s == "swww"@ {
        Backend::Awww
    } else if s == "mpvpaper"@ {
        Backend::Mpvpaper
    } else if s == "linux-wallpaperengine"@ {
        Backend::LinuxWallpaperEngine
    } else {
        Backend::Unsupported
    }
}

/// The kind a cached `type` names; unknown kinds read as images.
pub open spec fn cached_file_type(s: Seq<char>) -> FileType {
    if s == "gif"@ {
        FileType::Gif
    } else if s == "video"@ {
        FileType::Video
    } else if s == "we_scene"@ {
        FileType::WeScene
    } else if s == "we_web"@ {
        FileType::WeWeb
    } else if s == "unsupported"@ {
        FileType::WeApplication
    } else {
        FileType::Image
    }
}

/// The renderer a cached `backend` names; unknown renderers read as `awww`.
pub open spec fn cached_backend(s: Seq<char>) -> Backend {
    if s == "mpvpaper"@ {
        Backend::Mpvpaper
    } else if s == "swaybg"@ {
        Backend::Swaybg
    } else if s == "feh"@ {
        Backend::Feh
    } else if s == "linux-wallpaperengine"@ {
        Backend::LinuxWallpaperEngine
    } else if s == "chromium-web"@ || s == "webkit-layer-shell"@ || s == "unsupported"@ {
        Backend::Unsupported
    } else {
        Backend::Awww
    }
}

fn stored_file_type_of(s: &str) -> (r: FileType)
    ensures
        r == stored_file_type(s@),
{
    if str_eq(s, "image") {
        FileType::Image
    } else if str_eq(s, "gif") {
        FileType::Gif
    } else if str_eq(s, "video") {
        FileType::Video
    } else if str_eq(s, "we_scene") {
        FileType::WeScene
    } else if str_eq(s, "we_web") {
        FileType::WeWeb
    } else {
        FileType::WeApplication
    }
}

fn stored_backend_of(s: &str) -> (r: Backend)
    ensures
        r == stored_backend(s@),
{
    if str_eq(s, "awww") || str_eq(s, "swww") {
        Backend::Awww
    } else if str_eq(s, "mpvpaper") {
        Backend::Mpvpaper
    } else if str_eq(s, "linux-wallpaperengine") {
        Backend::LinuxWallpaperEngine
    } else {
        Backend::Unsupported
    }
}

fn cached_file_type_of(s: &str) -> (r: FileType)
    ensures
        r == cached_file_type(s@),
{
    if str_eq(s, "gif") {
        FileType::Gif
    } else if str_eq(s, "video") {
        FileType::Video
    } else if str_eq(s, "we_scene") {
        FileType::WeScene
    } else if str_eq(s, "we_web") {
        FileType::WeWeb
    } else if str_eq(s, "unsupported") {
        FileType::WeApplication
    } else {
        FileType::Image
    }
}

fn cached_backend_of(s: &str) -> (r: Backend)
    ensures
        r == cached_backend(s@),
{
    if str_eq(s, "mpvpaper") {
        Backend::Mpvpaper
    } else if str_eq(s, "swaybg") {
        Backend::Swaybg
    } else if str_eq(s, "feh") {
        Backend::Feh
    } else if str_eq(s, "linux-wallpaperengine") {
        Backend::LinuxWallpaperEngine
    } else if str_eq(s, "chromium-web") || str_eq(s, "webkit-layer-shell") || str_eq(
        s,
        "unsupported",
    ) {
        Backend::Unsupported
    } else {
        Backend::Awww
    }
}

/// Whether a row carries any Wallpaper Engine project field.
pub open spec fn has_project(row: StoredWallpaperRow) -> bool {
    !(row.project_type@.len() == 0 && row.preview_path@.len() == 0 && row.workshop_id@.len() == 0
        && row.title@.len() == 0 && row.we_file@.len() == 0 && row.unsupported_reason@.len() == 0)
}

/// The project of a row whose entry has `backend`: absent when every
/// project field is empty; otherwise the project type, the non-empty
/// optional fields and the backend's identifier.
pub open spec fn project_matches(p: Option<WallpaperProject>, row: StoredWallpaperRow, backend: Backend) -> bool {
    if !has_project(row) {
        p is None
    } else {
        p matches Some(pr) && pr.project_type@ == row.project_type@ && opt_view(pr.preview_path)
            == non_empty_view(row.preview_path@) && opt_view(pr.workshop_id) == non_empty_view(
            row.workshop_id@,
        ) && opt_view(pr.title) == non_empty_view(row.title@) && opt_view(pr.we_file)
            == non_empty_view(row.we_file@) && opt_view(pr.backend) == Some(backend.name())
            && opt_view(pr.unsupported_reason) == non_empty_view(row.unsupported_reason@)
    }
}

fn project_of(row: StoredWallpaperRow, backend: Backend) -> (r: Option<WallpaperProject>)
    ensures
        project_matches(r, row, backend),
{
    if row.project_type.as_str().is_empty() && row.preview_path.as_str().is_empty()
        && row.workshop_id.as_str().is_empty() && row.title.as_str().is_empty()
        && row.we_file.as_str().is_empty() && row.unsupported_reason.as_str().is_empty() {
        None
    } else {
        Some(
            WallpaperProject {
                project_type: row.project_type,
                preview_path: non_empty(row.preview_path),
                workshop_id: non_empty(row.workshop_id),
                title: non_empty(row.title),
                we_file: non_empty(row.we_file),
                backend: Some(backend.as_str().to_owned()),
                unsupported_reason: non_empty(row.unsupported_reason),
            },
        )
    }
}

/// A count column read as unsigned: negative values read as zero.
pub open spec fn clamp_unsigned(n: i64) -> u64 {
    if n < 0 {
        0
    } else {
        n as u64
    }
}

/// The library entry of a stored row.
pub fn wallpaper_entry_from_row(row: StoredWallpaperRow) -> (e: WallpaperEntry)
    ensures
        e.path@ == row.path@,
        e.file_type == stored_file_type(row.file_type@),
        e.ext@ == row.ext@,
        e.backend == stored_backend(row.backend@),
        e.size == clamp_unsigned(row.size),
        e.mtime == clamp_unsigned(row.mtime),
        e.resolution@ == row.resolution@,
        project_matches(e.project, row, stored_backend(row.backend@)),
{
    let file_type = stored_file_type_of(row.file_type.as_str());
    let backend = stored_backend_of(row.backend.as_str());
    let size: u64 = if row.size < 0 {
        0
    } else {
        row.size as u64
    };
    let mtime: u64 = if row.mtime < 0 {
        0
    } else {
        row.mtime as u64
    };
    let path = row.path;
    let ext = row.ext;
    let resolution = row.resolution;
    let rest = StoredWallpaperRow {
        path: String::new(),
        file_type: String::new(),
        ext: String::new(),
        backend: String::new(),
        size: 0,
        mtime: 0,
        resolution: String::new(),
        project_type: row.project_type,
        preview_path: row.preview_path,
        workshop_id: row.workshop_id,
        title: row.title,
        we_file: row.we_file,
        unsupported_reason: row.unsupported_reason,
    };
    let project = project_of(rest, backend);
    WallpaperEntry { path, file_type, ext, backend, size, mtime, resolution, project }
}

/// The entry a prior-metadata cache keeps for a stored row: unknown kinds
/// read as images, unknown renderers as `awww`, and counts are taken as
/// they are stored, reinterpreted as unsigned.
pub fn metadata_cache_entry(row: StoredWallpaperRow) -> (e: WallpaperEntry)
    ensures
        e.path@ == row.path@,
        e.file_type == cached_file_type(row.file_type@),
        e.ext@ == row.ext@,
        e.backend == cached_backend(row.backend@),
        e.size == row.size as u64,
        e.mtime == row.mtime as u64,
        e.resolution@ == row.resolution@,
        project_matches(e.project, row, cached_backend(row.backend@)),
{
    let file_type = cached_file_type_of(row.file_type.as_str());
    let backend = cached_backend_of(row.backend.as_str());
    let size = row.size as u64;
    let mtime = row.mtime as u64;
    let path = row.path;
    let ext = row.ext;
    let resolution = row.resolution;
    let rest = StoredWallpaperRow {
        path: String::new(),
        file_type: String::new(),
        ext: String::new(),
        backend: String::new(),
        size: 0,
        mtime: 0,
        resolution: String::new(),
        project_type: row.project_type,
        preview_path: row.preview_path,
        workshop_id: row.workshop_id,
        title: row.title,
        we_file: row.we_file,
        unsupported_reason: row.unsupported_reason,
    };
    let project = project_of(rest, backend);
    WallpaperEntry { path, file_type, ext, backend, size, mtime, resolution, project }
}

// ── Entries written as rows ──────────────────────────────────────────────

pub open spec fn or_empty_view(v: Option<String>) -> Seq<char> {
    match v {
        Some(s) => s@,
        None => Seq::empty(),
    }
}

fn or_empty_clone(v: &Option<String>) -> (r: String)
    ensures
        r@ == or_empty_view(*v),
{
    match v {
        Some(s) => s.clone(),
        None => String::new(),
    }
}

/// The columns an entry is stored as: kind and renderer by name, counts
/// reinterpreted as signed, absent project fields as empty text.
pub open spec fn columns_match(row: StoredWallpaperRow, e: WallpaperEntry) -> bool {
    &&& row.path@ == e.path@
    &&& row.file_type@ == e.file_type.name()
    &&& row.ext@ == e.ext@
    &&& row.backend@ == e.backend.name()
    &&& row.size == e.size as i64
    &&& row.mtime == e.mtime as i64
    &&& row.resolution@ == e.resolution@
    &&& match e.project {
        Some(p) => {
            &&& row.project_type@ == p.project_type@
            &&& row.preview_path@ == or_empty_view(p.preview_path)
            &&& row.workshop_id@ == or_empty_view(p.workshop_id)
            &&& row.title@ == or_empty_view(p.title)
            &&& row.we_file@ == or_empty_view(p.we_file)
            &&& row.unsupported_reason@ == or_empty_view(p.unsupported_reason)
        },
        None => {
            &&& row.project_type@.len() == 0
            &&& row.preview_path@.len() == 0
            &&& row.workshop_id@.len() == 0
            &&& row.title@.len() == 0
            &&& row.we_file@.len() == 0
            &&& row.unsupported_reason@.len() == 0
        },
    }
}

/// The row an entry is stored as.
pub fn entry_columns(e: &WallpaperEntry) -> (row: StoredWallpaperRow)
    ensures
        columns_match(row, *e),
{
    let (project_type, preview_path, workshop_id, title, we_file, unsupported_reason) = match &e.project {
        Some(p) => (
            p.project_type.clone(),
            or_empty_clone(&p.preview_path),
            or_empty_clone(&p.workshop_id),
            or_empty_clone(&p.title),
            or_empty_clone(&p.we_file),
            or_empty_clone(&p.unsupported_reason),
        ),
        None => (String::new(), String::new(), String::new(), String::new(), String::new(), String::new()),
    };
    StoredWallpaperRow {
        path: e.path.clone(),
        file_type: e.file_type.as_str().to_owned(),
        ext: e.ext.clone(),
        backend: e.backend.as_str().to_owned(),
        size: e.size as i64,
        mtime: e.mtime as i64,
        resolution: e.resolution.clone(),
        project_type,
        preview_path,
        workshop_id,
        title,
        we_file,
        unsupported_reason,
    }
}

/// The entries a stored row reads back as exactly: renderers the row
/// mapping knows, counts that fit a signed column, and a project (if any)
/// whose optional fields are not empty text, that carries at least one
/// field, and whose renderer is the entry's.
pub open spec fn round_trips(e: WallpaperEntry) -> bool {
    &&& (e.backend == Backend::Awww || e.backend == Backend::Mpvpaper || e.backend
        == Backend::LinuxWallpaperEngine || e.backend == Backend::Unsupported)
    &&& e.size <= i64::MAX
    &&& e.mtime <= i64::MAX
    &&& match e.project {
        Some(p) => {
            &&& opt_view(p.preview_path) != Some(Seq::<char>::empty())
            &&& opt_view(p.workshop_id) != Some(Seq::<char>::empty())
            &&& opt_view(p.title) != Some(Seq::<char>::empty())
            &&& opt_view(p.we_file) != Some(Seq::<char>::empty())
            &&& opt_view(p.unsupported_reason) != Some(Seq::<char>::empty())
            &&& !(p.project_type@.len() == 0 && p.preview_path is None && p.workshop_id is None
                && p.title is None && p.we_file is None && p.unsupported_reason is None)
            &&& opt_view(p.backend) == Some(e.backend.name())
        },
        None => true,
    }
}

proof fn lemma_names_read_back(e: WallpaperEntry)
    requires
        round_trips(e),
    ensures
        stored_file_type(e.file_type.name()) == e.file_type,
        stored_backend(e.backend.name()) == e.backend,
{
    reveal_strlit("image");
    reveal_strlit("gif");
    reveal_strlit("video");
    reveal_strlit("we_scene");
    reveal_strlit("we_web");
    reveal_strlit("awww");
    reveal_strlit("swww");
    reveal_strlit("mpvpaper");
    reveal_strlit("linux-wallpaperengine");
    let n = e.file_type.name();
    match e.file_type {
        FileType::Image => assert(n =~= "image"@),
        FileType::Gif => assert(n =~= "gif"@),
        FileType::Video => assert(n =~= "video"@),
        FileType::WeScene => assert(n =~= "we_scene"@),
        FileType::WeWeb => assert(n =~= "we_web"@),
        FileType::WeApplication => {
            assert(n[0] == 'u');
            assert(n != "image"@ && n != "gif"@ && n != "video"@ && n != "we_scene"@ && n != "we_web"@) by {
                assert("image"@[0] == 'i');
                assert("gif"@[0] == 'g');
                assert("video"@[0] == 'v');
                assert("we_scene"@[0] == 'w');
                assert("we_web"@[0] == 'w');
            }
        },
    }
    let b = e.backend.name();
    match e.backend {
        Backend::Awww => assert(b =~= "awww"@),
        Backend::Mpvpaper => {
            assert(b =~= "mpvpaper"@);
            assert(b != "awww"@ && b != "swww"@) by {
                assert("awww"@[0] == 'a');
                assert("swww"@[0] == 's');
            }
        },
        Backend::LinuxWallpaperEngine => {
            assert(b =~= "linux-wallpaperengine"@);
            assert(b != "awww"@ && b != "swww"@ && b != "mpvpaper"@) by {
                assert("awww"@[0] == 'a');
                assert("swww"@[0] == 's');
                assert("mpvpaper"@[0] == 'm');
            }
        },
        Backend::Unsupported => {
            assert(b[0] == 'u');
            assert(b != "awww"@ && b != "swww"@ && b != "mpvpaper"@ && b != "linux-wallpaperengine"@) by {
                assert("awww"@[0] == 'a');
                assert("swww"@[0] == 's');
                assert("mpvpaper"@[0] == 'm');
                assert("linux-wallpaperengine"@[0] == 'l');
            }
        },
        _ => {},
    }
}

proof fn lemma_optional_read_back(v: Option<String>)
    requires
        opt_view(v) != Some(Seq::<char>::empty()),
    ensures
        non_empty_view(or_empty_view(v)) == opt_view(v),
{
    match v {
        Some(s) => {
            if s@.len() == 0 {
                assert(s@ =~= Seq::<char>::empty());
            }
        },
        None => {},
    }
}

/// What is written is read back: storing an entry and mapping the stored
/// row back gives the same entry, for every entry whose fields the columns
/// can carry.
pub proof fn lemma_entry_row_roundtrip(e: WallpaperEntry, row: StoredWallpaperRow)
    requires
        round_trips(e),
        columns_match(row, e),
    ensures
        row.path@ == e.path@,
        stored_file_type(row.file_type@) == e.file_type,
        stored_backend(row.backend@) == e.backend,
        clamp_unsigned(row.size) == e.size,
        clamp_unsigned(row.mtime) == e.mtime,
        row.ext@ == e.ext@,
        row.resolution@ == e.resolution@,
        match e.project {
            Some(p) => has_project(row) && row.project_type@ == p.project_type@ && non_empty_view(
                row.preview_path@,
            ) == opt_view(p.preview_path) && non_empty_view(row.workshop_id@) == opt_view(
                p.workshop_id,
            ) && non_empty_view(row.title@) == opt_view(p.title) && non_empty_view(row.we_file@)
                == opt_view(p.we_file) && non_empty_view(row.unsupported_reason@) == opt_view(
                p.unsupported_reason,
            ) && opt_view(p.backend) == Some(stored_backend(row.backend@).name()),
            None => !has_project(row),
        },
{
    lemma_names_read_back(e);
    match e.project {
        Some(p) => {
            lemma_optional_read_back(p.preview_path);
            lemma_optional_read_back(p.workshop_id);
            lemma_optional_read_back(p.title);
            lemma_optional_read_back(p.we_file);
            lemma_optional_read_back(p.unsupported_reason);
            if !has_project(row) {
                assert(p.preview_path is None) by {
                    if p.preview_path is Some {
                        assert(row.preview_path@.len() == 0);
                    }
                }
                assert(p.workshop_id is None) by {
                    if p.workshop_id is Some {
                        assert(row.workshop_id@.len() == 0);
                    }
                }
                assert(p.title is None) by {
                    if p.title is Some {
                        assert(row.title@.len() == 0);
                    }
                }
                assert(p.we_file is None) by {
                    if p.we_file is Some {
                        assert(row.we_file@.len() == 0);
                    }
                }
                assert(p.unsupported_reason is None) by {
                    if p.unsupported_reason is Some {
                        assert(row.unsupported_reason@.len() == 0);
                    }
                }
            }
        },
        None => {},
    }
}

} // verus!
