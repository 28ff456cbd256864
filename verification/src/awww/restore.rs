//! Where the shown wallpaper is remembered, and where wallpapers are looked for.

use crate::awww::client::texts;
use crate::config::environment::{home_dir, is_supported_image, names_image, text_of};
use crate::paths::{join_path, joined, joining_keeps_the_base};
use crate::text::{blank, is_space, trim_text, trimmed, trimming_undoes_padding};
use vstd::prelude::*;

verus! {

/// Remembers the shown wallpaper in a file.
pub struct WallpaperRestore {
    pub state_file: String,
}

/// `dirs::state_dir`, which asks the environment. Nothing is promised of the result. A path
/// that is not UTF-8 counts as none.
#[verifier::external_body]
fn state_dir() -> (dir: Option<String>) {
    dirs::state_dir().and_then(|path| path.into_os_string().into_string().ok())
}

/// The directory of the state of programs: the one of the machine, the one of the session, or one
/// below the home directory.
pub open spec fn state_base(
    state_dir: Option<Seq<char>>,
    session: Option<Seq<char>>,
    home: Option<Seq<char>>,
) -> Seq<char> {
    match state_dir {
        Some(dir) => dir,
        None => match session {
            Some(dir) => dir,
            None => joined(
                match home {
                    Some(home) => home,
                    None => "."@,
                },
                ".local/state"@,
            ),
        },
    }
}

/// The file that the wallpaper is remembered in, below the directory of the state of programs.
pub open spec fn state_file_text(base: Seq<char>) -> Seq<char> {
    joined(joined(joined(base, "quickshell"@), "user"@), "current-wallpaper"@)
}

/// The file that the wallpaper is remembered in.
pub fn state_file_below(
    state_dir: &Option<String>,
    session: &Option<String>,
    home: &Option<String>,
) -> (file: String)
    ensures
        file@ == state_file_text(
            state_base(text_of(*state_dir), text_of(*session), text_of(*home)),
        ),
{
    let base: String = match state_dir {
        Some(dir) => dir.clone(),
        None => match session {
            Some(dir) => dir.clone(),
            None => match home {
                Some(home) => join_path(home.as_str(), ".local/state"),
                None => join_path(".", ".local/state"),
            },
        },
    };
    let shell = join_path(base.as_str(), "quickshell");
    let user = join_path(shell.as_str(), "user");
    join_path(user.as_str(), "current-wallpaper")
}

/// What a file that is to be shown as a wallpaper is like.
#[derive(Clone, Copy, PartialEq, Eq, Debug, Structural)]
pub enum WallpaperFile {
    Missing,
    NotAFile,
    Empty,
    Usable,
}

/// The remembered wallpaper, by the contents of the file and by whether it still exists.
pub open spec fn remembered(content: Seq<char>, exists: bool) -> Option<Seq<char>> {
    if exists {
        Some(trimmed(content))
    } else {
        None
    }
}

impl WallpaperRestore {
    /// Remembers the wallpaper in the file that it is shared by, given the directory of the state of
    /// programs of the session. Which file that is depends on the machine.
    pub fn new(session: Option<String>) -> (restore: WallpaperRestore)
        ensures
            exists|state_dir: Option<Seq<char>>, home: Option<Seq<char>>|
                restore.state_file@ == state_file_text(
                    #[trigger] state_base(state_dir, text_of(session), home),
                ),
    {
        let state = state_dir();
        let home = home_dir();
        let state_file = state_file_below(&state, &session, &home);
        assert(state_file@ == state_file_text(
            state_base(text_of(state), text_of(session), text_of(home)),
        ));
        WallpaperRestore { state_file }
    }

    /// Remembers the wallpaper in this file.
    pub fn with_state_file(state_file: &str) -> (restore: WallpaperRestore)
        ensures
            restore.state_file@ == state_file@,
    {
        WallpaperRestore { state_file: state_file.to_owned() }
    }

    /// The file that the wallpaper is remembered in.
    pub fn state_file_path(&self) -> (path: &str)
        ensures
            path@ == self.state_file@,
    {
        self.state_file.as_str()
    }

    /// The wallpaper that the contents of the file name.
    pub fn saved_path(&self, content: &str) -> (path: String)
        ensures
            path@ == trimmed(content@),
    {
        trim_text(content)
    }

    /// The remembered wallpaper, given whether it still exists.
    pub fn get_saved_wallpaper(&self, content: &str, exists: bool) -> (wallpaper: Option<String>)
        ensures
            text_of(wallpaper) == remembered(content@, exists),
    {
        if exists {
            Some(self.saved_path(content))
        } else {
            None
        }
    }

    /// Judges a file that is to be shown as a wallpaper. The error says what is wrong with it.
    pub fn validate_wallpaper_file(path: &str, file: WallpaperFile) -> (r: Result<(), String>)
        ensures
            match file {
                WallpaperFile::Usable => r is Ok,
                WallpaperFile::Missing => r matches Err(message) && message@
                    == "Wallpaper file does not exist: "@ + path@,
                WallpaperFile::NotAFile => r matches Err(message) && message@
                    == "Wallpaper path is not a file: "@ + path@,
                WallpaperFile::Empty => r matches Err(message) && message@
                    == "Wallpaper file is empty: "@ + path@,
            },
    {
        let mut message = match file {
            WallpaperFile::Usable => {
                return Ok(());
            },
            WallpaperFile::Missing => "Wallpaper file does not exist: ".to_owned(),
            WallpaperFile::NotAFile => "Wallpaper path is not a file: ".to_owned(),
            WallpaperFile::Empty => "Wallpaper file is empty: ".to_owned(),
        };
        message.append(path);
        Err(message)
    }

    /// The directories to look for wallpapers in, given the user's directory of pictures and home
    /// directory.
    pub fn get_wallpaper_search_dirs(pictures: &Option<String>, home: &Option<String>) -> (dirs: Vec<
        String,
    >)
        ensures
            texts(dirs@) == search_dirs(text_of(*pictures), text_of(*home)),
    {
        let mut dirs: Vec<String> = Vec::new();
        if let Some(dir) = pictures {
            dirs.push(join_path(dir.as_str(), "Wallpapers"));
            dirs.push(dir.clone());
        }
        if let Some(dir) = home {
            dirs.push(join_path(dir.as_str(), "wallpapers"));
            dirs.push(join_path(dir.as_str(), "Wallpapers"));
            dirs.push(join_path(dir.as_str(), ".local/share/wallpapers"));
        }
        dirs.push("/usr/share/wallpapers".to_owned());
        dirs.push("/usr/share/backgrounds".to_owned());
        assert(texts(dirs@) =~= search_dirs(text_of(*pictures), text_of(*home)));
        dirs
    }

    /// Those of the paths in a directory that are of image files, in order. Each path comes with
    /// whether it is that of a file.
    pub fn wallpapers_among(entries: &Vec<(String, bool)>) -> (wallpapers: Vec<String>)
        ensures
            texts(wallpapers@) == image_files(entries@),
    {
        let mut wallpapers: Vec<String> = Vec::new();
        assert(entries@.take(0) =~= Seq::empty());
        assert(texts(wallpapers@) =~= Seq::empty());
        for i in 0..entries.len()
            invariant
                texts(wallpapers@) == image_files(entries@.take(i as int)),
        {
            let ghost before = texts(wallpapers@);
            assert(entries@.take(i + 1).drop_last() =~= entries@.take(i as int));
            if is_supported_image(entries[i].0.as_str(), entries[i].1) {
                wallpapers.push(entries[i].0.clone());
                assert(texts(wallpapers@) =~= before.push(entries@[i as int].0@));
            }
        }
        assert(entries@.take(entries@.len() as int) =~= entries@);
        wallpapers
    }
}

/// Those of these paths that are of image files, in order.
pub open spec fn image_files(entries: Seq<(String, bool)>) -> Seq<Seq<char>>
    decreases entries.len(),
{
    if entries.len() == 0 {
        Seq::empty()
    } else {
        let earlier = image_files(entries.drop_last());
        let (path, is_file) = entries.last();
        if is_file && names_image(path@) {
            earlier.push(path@)
        } else {
            earlier
        }
    }
}

/// The directories to look for wallpapers in: those of the user, then those of the system.
pub open spec fn search_dirs(pictures: Option<Seq<char>>, home: Option<Seq<char>>) -> Seq<
    Seq<char>,
> {
    let first = match pictures {
        Some(dir) => seq![joined(dir, "Wallpapers"@), dir],
        None => seq![],
    };
    let second = match home {
        Some(dir) => seq![
            joined(dir, "wallpapers"@),
            joined(dir, "Wallpapers"@),
            joined(dir, ".local/share/wallpapers"@),
        ],
        None => seq![],
    };
    first + second + seq!["/usr/share/wallpapers"@, "/usr/share/backgrounds"@]
}

/// A path is among the images exactly when it is in the list as that of a file and named as an image.
pub proof fn images_are_the_image_files(entries: Seq<(String, bool)>, path: Seq<char>)
    ensures
        image_files(entries).contains(path) <==> exists|i: int|
            0 <= i < entries.len() && (#[trigger] entries[i]).0@ == path && entries[i].1
                && names_image(path),
    decreases entries.len(),
{
    if entries.len() > 0 {
        let shorter = entries.drop_last();
        images_are_the_image_files(shorter, path);
        let earlier = image_files(shorter);
        let all = image_files(entries);
        if exists|i: int|
            0 <= i < shorter.len() && (#[trigger] shorter[i]).0@ == path && shorter[i].1
                && names_image(path) {
            let i = choose|i: int|
                0 <= i < shorter.len() && (#[trigger] shorter[i]).0@ == path && shorter[i].1
                    && names_image(path);
            assert(entries[i] == shorter[i]);
            let k = choose|k: int| 0 <= k < earlier.len() && earlier[k] == path;
            assert(all[k] == path);
        }
        if exists|i: int|
            0 <= i < entries.len() && (#[trigger] entries[i]).0@ == path && entries[i].1
                && names_image(path) {
            let i = choose|i: int|
                0 <= i < entries.len() && (#[trigger] entries[i]).0@ == path && entries[i].1
                    && names_image(path);
            if i < shorter.len() {
                assert(shorter[i] == entries[i]);
            } else {
                assert(all[earlier.len() as int] == path);
            }
        }
        if all.contains(path) {
            let k = choose|k: int| 0 <= k < all.len() && all[k] == path;
            if k < earlier.len() {
                assert(earlier[k] == path);
                assert(earlier.contains(path));
            } else {
                assert(entries[entries.len() - 1] == entries.last());
            }
        }
    }
}

/// A wallpaper that was remembered as a line of its own is the one that is restored, as long as it exists.
pub proof fn a_remembered_path_is_read_back(path: Seq<char>, front: Seq<char>, back: Seq<char>)
    requires
        path.len() > 0,
        !is_space(path[0]),
        !is_space(path.last()),
        blank(front),
        blank(back),
    ensures
        remembered(front + path + back, true) == Some(path),
        remembered(front + path + back, false) is None,
{
    trimming_undoes_padding(front, path, back);
}

/// The user's own directories come before those of the system, which are always looked at.
pub proof fn own_wallpapers_come_first(pictures: Option<Seq<char>>, home: Option<Seq<char>>)
    ensures
        ({
            let dirs = search_dirs(pictures, home);
            let own: int = (if pictures is Some {
                2int
            } else {
                0
            }) + (if home is Some {
                3int
            } else {
                0
            });
            &&& dirs.len() == own + 2
            &&& dirs[own] == "/usr/share/wallpapers"@
            &&& dirs[own + 1] == "/usr/share/backgrounds"@
            &&& pictures matches Some(dir) ==> dirs[0] == joined(dir, "Wallpapers"@) && dirs[1]
                == dir
            &&& home matches Some(dir) ==> dirs.contains(joined(dir, "wallpapers"@))
                && dirs.contains(joined(dir, "Wallpapers"@)) && dirs.contains(
                joined(dir, ".local/share/wallpapers"@),
            )
        }),
{
    let dirs = search_dirs(pictures, home);
    if let Some(dir) = home {
        let from: int = if pictures is Some {
            2
        } else {
            0
        };
        assert(dirs[from] == joined(dir, "wallpapers"@));
        assert(dirs[from + 1] == joined(dir, "Wallpapers"@));
        assert(dirs[from + 2] == joined(dir, ".local/share/wallpapers"@));
    }
}

/// The wallpaper is remembered below the directory that the machine has for the state of programs, else
/// below that of the session, else below the home directory.
pub proof fn where_the_wallpaper_is_remembered(
    machine: Seq<char>,
    session: Option<Seq<char>>,
    home: Option<Seq<char>>,
    own: Seq<char>,
)
    ensures
        state_base(Some(machine), session, home) == machine,
        session matches Some(dir) ==> state_base(None, session, home) == dir,
        session is None ==> state_base(None, session, Some(own)).take(own.len() as int) == own,
        state_file_text(machine).len() >= machine.len() && state_file_text(machine).take(
            machine.len() as int,
        ) == machine,
{
    reveal_strlit(".local/state");
    reveal_strlit("quickshell");
    reveal_strlit("user");
    reveal_strlit("current-wallpaper");
    joining_keeps_the_base(own, ".local/state"@);
    let a = joined(machine, "quickshell"@);
    let b = joined(a, "user"@);
    let c = joined(b, "current-wallpaper"@);
    joining_keeps_the_base(machine, "quickshell"@);
    joining_keeps_the_base(a, "user"@);
    joining_keeps_the_base(b, "current-wallpaper"@);
    assert(c.take(machine.len() as int) =~= c.take(b.len() as int).take(a.len() as int).take(
        machine.len() as int,
    ));
}

} // verus!
