//! Wallpaper catalogue records: what a library row describes.

use vstd::prelude::*;

use crate::paths::{file_name, file_name_of};

verus! {

/// The kind of media a wallpaper is.
#[derive(Debug, Clone, Copy, PartialEq, Eq, Structural)]
pub enum FileType {
    Image,
    Gif,
    Video,
    WeScene,
    WeWeb,
    WeApplication,
}

impl FileType {
    pub open spec fn name(self) -> Seq<char> {
        match self {
            FileType::Image => seq!['i', 'm', 'a', 'g', 'e'],
            FileType::Gif => seq!['g', 'i', 'f'],
            FileType::Video => seq!['v', 'i', 'd', 'e', 'o'],
            FileType::WeScene => seq!['w', 'e', '_', 's', 'c', 'e', 'n', 'e'],
            FileType::WeWeb => seq!['w', 'e', '_', 'w', 'e', 'b'],
            FileType::WeApplication => seq![
                'u',
                'n',
                's',
                'u',
                'p',
                'p',
                'o',
                'r',
                't',
                'e',
                'd',
            ],
        }
    }

    /// The identifier stored in the `type` column.
    pub fn as_str(&self) -> (s: &'static str)
        ensures
            s@ == self.name(),
    {
        match self {
            FileType::Image => {
                proof {
                    reveal_strlit("image");
                }
                "image"
            },
            FileType::Gif => {
                proof {
                    reveal_strlit("gif");
                }
                "gif"
            },
            FileType::Video => {
                proof {
                    reveal_strlit("video");
                }
                "video"
            },
            FileType::WeScene => {
                proof {
                    reveal_strlit("we_scene");
                }
                "we_scene"
            },
            FileType::WeWeb => {
                proof {
                    reveal_strlit("we_web");
                }
                "we_web"
            },
            FileType::WeApplication => {
                proof {
                    reveal_strlit("unsupported");
                }
                "unsupported"
            },
        }
    }
}

/// The renderer that shows a wallpaper.
#[derive(Debug, Clone, Copy, PartialEq, Eq, Structural)]
pub enum Backend {
    Awww,
    Swaybg,
    Feh,
    Mpvpaper,
    LinuxWallpaperEngine,
    Unsupported,
}

impl Backend {
    pub open spec fn name(self) -> Seq<char> {
        match self {
            Backend::Awww => seq!['a', 'w', 'w', 'w'],
            Backend::Swaybg => seq!['s', 'w', 'a', 'y', 'b', 'g'],
            Backend::Feh => seq!['f', 'e', 'h'],
            Backend::Mpvpaper => seq!['m', 'p', 'v', 'p', 'a', 'p', 'e', 'r'],
            Backend::LinuxWallpaperEngine => seq![
                'l',
                'i',
                'n',
                'u',
                'x',
                '-',
                'w',
                'a',
                'l',
                'l',
                'p',
                'a',
                'p',
                'e',
                'r',
                'e',
                'n',
                'g',
                'i',
                'n',
                'e',
            ],
            Backend::Unsupported => seq![
                'u',
                'n',
                's',
                'u',
                'p',
                'p',
                'o',
                'r',
                't',
                'e',
                'd',
            ],
        }
    }

    /// The identifier stored in the `backend` column.
    pub fn as_str(&self) -> (s: &'static str)
        ensures
            s@ == self.name(),
    {
        match self {
            Backend::Awww => {
                proof {
                    reveal_strlit("awww");
                }
                "awww"
            },
            Backend::Swaybg => {
                proof {
                    reveal_strlit("swaybg");
                }
                "swaybg"
            },
            Backend::Feh => {
                proof {
                    reveal_strlit("feh");
                }
                "feh"
            },
            Backend::Mpvpaper => {
                proof {
                    reveal_strlit("mpvpaper");
                }
                "mpvpaper"
            },
            Backend::LinuxWallpaperEngine => {
                proof {
                    reveal_strlit("linux-wallpaperengine");
                }
                "linux-wallpaperengine"
            },
            Backend::Unsupported => {
                proof {
                    reveal_strlit("unsupported");
                }
                "unsupported"
            },
        }
    }
}

/// Wallpaper Engine project metadata attached to a library entry.
#[derive(Debug, Clone, PartialEq, Eq)]
pub struct WallpaperProject {
    pub project_type: String,
    pub preview_path: Option<String>,
    pub workshop_id: Option<String>,
    pub title: Option<String>,
    pub we_file: Option<String>,
    pub backend: Option<String>,
    pub unsupported_reason: Option<String>,
}

/// One wallpaper in the library.
#[derive(Debug, Clone, PartialEq, Eq)]
pub struct WallpaperEntry {
    pub path: String,
    pub file_type: FileType,
    pub ext: String,
    pub backend: Backend,
    pub size: u64,
    pub mtime: u64,
    pub resolution: String,
    pub project: Option<WallpaperProject>,
}

impl WallpaperEntry {
    /// The last component of the path, or the whole path when it has none.
    pub open spec fn spec_filename(&self) -> Seq<char> {
        match file_name(self.path@) {
            Some(name) => name,
            None => self.path@,
        }
    }

    pub fn filename(&self) -> (name: String)
        ensures
            name@ == self.spec_filename(),
    {
        match file_name_of(self.path.as_str()) {
            Some(name) => name,
            None => self.path.clone(),
        }
    }
}

/// Wallpaper counts by media kind.
#[derive(Debug, Clone, Copy, PartialEq, Eq, Default)]
pub struct LibraryCounts {
    pub total: usize,
    pub images: usize,
    pub gifs: usize,
    pub videos: usize,
}

} // verus!
