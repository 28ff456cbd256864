//! What a configuration needs of the machine: wallpapers, directories of wallpapers, and commands.

use crate::config::types::{Config, Profile};
use crate::paths::{extension, extension_of, join_path, joined, joining_keeps_the_base};
use crate::rate::{spells, spells_word};
use crate::text::{chars_of, quoted, slice_of, string_of};
use vstd::prelude::*;

verus! {

// ---------------------------------------------------------------------------------------------
// Paths
// ---------------------------------------------------------------------------------------------

/// `dirs::home_dir`, which asks the environment and the user database. Nothing is promised of the
/// result. A path that is not UTF-8 counts as none.
#[verifier::external_body]
pub(crate) fn home_dir() -> (home: Option<String>) {
    dirs::home_dir().and_then(|path| path.into_os_string().into_string().ok())
}

/// A path with a leading `~` replaced by the home directory, if there is one. Only a lone `~` and
/// `~/` count; `~user` does not.
pub open spec fn expanded(path: Seq<char>, home: Option<Seq<char>>) -> Seq<char> {
    match home {
        Some(home) => if path == seq!['~'] {
            home
        } else if path.len() >= 2 && path[0] == '~' && path[1] == '/' {
            joined(home, path.skip(2))
        } else {
            path
        },
        None => path,
    }
}

/// The text of an optional string.
pub open spec fn text_of(text: Option<String>) -> Option<Seq<char>> {
    match text {
        Some(text) => Some(text@),
        None => None,
    }
}

/// A path with a leading `~` replaced by this home directory.
pub fn expand_below(path: &str, home: &Option<String>) -> (full: String)
    ensures
        full@ == expanded(path@, text_of(*home)),
{
    if let Some(home) = home {
        let chars = chars_of(path);
        if chars.len() == 1 && chars[0] == '~' {
            assert(path@ =~= seq!['~']);
            return home.clone();
        }
        if chars.len() >= 2 && chars[0] == '~' && chars[1] == '/' {
            let rest = slice_of(&chars, 2, chars.len());
            assert(rest@ =~= path@.skip(2));
            let rest_text = string_of(&rest);
            return join_path(home.as_str(), rest_text.as_str());
        }
    }
    path.to_owned()
}

/// A path with a leading `~` replaced by the home directory of the user. Which one that is depends on
/// the machine; without one the path stays as it is, and so does a path without `~`.
pub fn expand_home(path: &str) -> (full: String)
    ensures
        exists|home: Option<Seq<char>>| full@ == #[trigger] expanded(path@, home),
        path@.len() == 0 || path@[0] != '~' ==> full@ == path@,
{
    let home = home_dir();
    expand_below(path, &home)
}

/// `dirs::config_dir`, which asks the environment. Nothing is promised of the result. A path
/// that is not UTF-8 counts as none.
#[verifier::external_body]
fn config_dir() -> (dir: Option<String>) {
    dirs::config_dir().and_then(|path| path.into_os_string().into_string().ok())
}

/// The configuration file in this directory of configurations, or below the current one if there is
/// none.
pub open spec fn config_file(dir: Option<Seq<char>>) -> Seq<char> {
    let base = match dir {
        Some(dir) => dir,
        None => "."@,
    };
    joined(joined(base, "nagame"@), "config.toml"@)
}

/// The configuration file in this directory of configurations.
pub fn config_file_below(dir: &Option<String>) -> (path: String)
    ensures
        path@ == config_file(text_of(*dir)),
{
    let base = match dir {
        Some(dir) => join_path(dir.as_str(), "nagame"),
        None => join_path(".", "nagame"),
    };
    join_path(base.as_str(), "config.toml")
}

/// The configuration file: the given one, or the one that the machine has a place for.
pub fn config_path(given: Option<String>) -> (path: String)
    ensures
        match given {
            Some(text) => path == text,
            None => exists|dir: Option<Seq<char>>| path@ == #[trigger] config_file(dir),
        },
{
    match given {
        Some(path) => path,
        None => {
            let dir = config_dir();
            config_file_below(&dir)
        },
    }
}

/// Whether an extension is that of an image.
pub open spec fn is_image_extension(ending: Seq<char>) -> bool {
    ||| spells(ending, seq!['j', 'p', 'g'])
    ||| spells(ending, seq!['j', 'p', 'e', 'g'])
    ||| spells(ending, seq!['p', 'n', 'g'])
    ||| spells(ending, seq!['g', 'i', 'f'])
    ||| spells(ending, seq!['w', 'e', 'b', 'p'])
    ||| spells(ending, seq!['b', 'm', 'p'])
}

/// Whether a path names an image, by its extension in upper or lower case.
pub open spec fn names_image(path: Seq<char>) -> bool {
    extension(path) is Some && is_image_extension(extension(path)->0)
}

/// Whether a path, which may be one of a file, is that of an image.
pub fn is_supported_image(path: &str, is_file: bool) -> (supported: bool)
    ensures
        supported == (is_file && names_image(path@)),
{
    if !is_file {
        return false;
    }
    match extension_of(path) {
        None => false,
        Some(ending) => {
            let jpg = vec!['j', 'p', 'g'];
            let jpeg = vec!['j', 'p', 'e', 'g'];
            let png = vec!['p', 'n', 'g'];
            let gif = vec!['g', 'i', 'f'];
            let webp = vec!['w', 'e', 'b', 'p'];
            let bmp = vec!['b', 'm', 'p'];
            assert(jpg@ =~= seq!['j', 'p', 'g']);
            assert(jpeg@ =~= seq!['j', 'p', 'e', 'g']);
            assert(png@ =~= seq!['p', 'n', 'g']);
            assert(gif@ =~= seq!['g', 'i', 'f']);
            assert(webp@ =~= seq!['w', 'e', 'b', 'p']);
            assert(bmp@ =~= seq!['b', 'm', 'p']);
            spells_word(&ending, &jpg) || spells_word(&ending, &jpeg) || spells_word(&ending, &png)
                || spells_word(&ending, &gif) || spells_word(&ending, &webp) || spells_word(
                &ending,
                &bmp,
            )
        },
    }
}

// ---------------------------------------------------------------------------------------------
// Checks
// ---------------------------------------------------------------------------------------------

/// Something to look at on the machine.
#[derive(Clone, Debug)]
pub enum EnvironmentCheck {
    /// The wallpaper of a profile.
    Wallpaper { profile: String, path: String },
    /// The directory of wallpapers of a profile.
    Directory { profile: String, path: String },
    /// The syntax of a command of a profile.
    Command { profile: String, command: String },
}

/// A check as a mathematical value.
pub enum CheckView {
    Wallpaper { profile: Seq<char>, path: Seq<char> },
    Directory { profile: Seq<char>, path: Seq<char> },
    Command { profile: Seq<char>, command: Seq<char> },
}

impl View for EnvironmentCheck {
    type V = CheckView;

    open spec fn view(&self) -> CheckView {
        match *self {
            EnvironmentCheck::Wallpaper { profile, path } => CheckView::Wallpaper {
                profile: profile@,
                path: path@,
            },
            EnvironmentCheck::Directory { profile, path } => CheckView::Directory {
                profile: profile@,
                path: path@,
            },
            EnvironmentCheck::Command { profile, command } => CheckView::Command {
                profile: profile@,
                command: command@,
            },
        }
    }
}

/// Checks as mathematical values.
pub open spec fn check_views(checks: Seq<EnvironmentCheck>) -> Seq<CheckView> {
    Seq::new(checks.len(), |i: int| checks[i]@)
}

/// The checks of the wallpaper of a profile, if it has one.
pub open spec fn wallpaper_checks(profile: Profile, home: Option<Seq<char>>) -> Seq<CheckView> {
    match profile.wallpaper {
        Some(path) => seq![
            CheckView::Wallpaper { profile: profile.name@, path: expanded(path@, home) },
        ],
        None => seq![],
    }
}

/// The checks of the directory of wallpapers of a profile, if it has one.
pub open spec fn directory_checks(profile: Profile, home: Option<Seq<char>>) -> Seq<CheckView> {
    match profile.wallpaper_dir {
        Some(path) => seq![
            CheckView::Directory { profile: profile.name@, path: expanded(path@, home) },
        ],
        None => seq![],
    }
}

/// The checks of the commands of a profile.
pub open spec fn command_checks(profile: Profile) -> Seq<CheckView> {
    Seq::new(
        profile.commands@.len(),
        |i: int| CheckView::Command { profile: profile.name@, command: profile.commands@[i]@ },
    )
}

/// The checks of a profile.
pub open spec fn profile_checks(profile: Profile, home: Option<Seq<char>>) -> Seq<CheckView> {
    wallpaper_checks(profile, home) + directory_checks(profile, home) + command_checks(profile)
}

/// The checks of some profiles, one profile after the other.
pub open spec fn config_checks(profiles: Seq<Profile>, home: Option<Seq<char>>) -> Seq<CheckView>
    decreases profiles.len(),
{
    if profiles.len() == 0 {
        Seq::empty()
    } else {
        config_checks(profiles.drop_last(), home) + profile_checks(profiles.last(), home)
    }
}

impl Config {
    /// What has to be looked at on the machine, in order. The first check that fails decides.
    pub fn validate_environment(&self) -> (checks: Vec<EnvironmentCheck>)
        ensures
            exists|home: Option<Seq<char>>|
                check_views(checks@) == #[trigger] config_checks(self.profiles@, home),
    {
        let home = home_dir();
        self.environment_checks(&home)
    }

    /// What has to be looked at on a machine with this home directory, in order.
    pub fn environment_checks(&self, home: &Option<String>) -> (checks: Vec<EnvironmentCheck>)
        ensures
            check_views(checks@) == config_checks(self.profiles@, text_of(*home)),
    {
        let mut checks: Vec<EnvironmentCheck> = Vec::new();
        let ghost all = self.profiles@;
        assert(all.take(0) =~= Seq::empty());
        assert(check_views(checks@) =~= config_checks(all.take(0), text_of(*home)));
        for i in 0..self.profiles.len()
            invariant
                all == self.profiles@,
                check_views(checks@) == config_checks(all.take(i as int), text_of(*home)),
        {
            let ghost before = check_views(checks@);
            let profile: &Profile = &self.profiles[i];
            assert(all.take(i + 1).drop_last() =~= all.take(i as int));
            if let Some(path) = &profile.wallpaper {
                checks.push(
                    EnvironmentCheck::Wallpaper {
                        profile: profile.name.clone(),
                        path: expand_below(path.as_str(), home),
                    },
                );
            }
            assert(check_views(checks@) =~= before + wallpaper_checks(*profile, text_of(*home)));
            if let Some(path) = &profile.wallpaper_dir {
                checks.push(
                    EnvironmentCheck::Directory {
                        profile: profile.name.clone(),
                        path: expand_below(path.as_str(), home),
                    },
                );
            }
            let ghost middle = before + wallpaper_checks(*profile, text_of(*home))
                + directory_checks(*profile, text_of(*home));
            assert(check_views(checks@) =~= middle);
            for k in 0..profile.commands.len()
                invariant
                    check_views(checks@) =~= middle + command_checks(*profile).take(k as int),
            {
                let ghost seen = check_views(checks@);
                checks.push(
                    EnvironmentCheck::Command {
                        profile: profile.name.clone(),
                        command: profile.commands[k].clone(),
                    },
                );
                assert(command_checks(*profile).take(k + 1) =~= command_checks(*profile).take(
                    k as int,
                ).push(checks@.last()@));
                assert(check_views(checks@) =~= seen.push(checks@.last()@));
            }
            assert(check_views(checks@) =~= before + profile_checks(*profile, text_of(*home)));
        }
        assert(all.take(all.len() as int) =~= all);
        checks
    }
}

/// What was found when a check was made.
#[derive(Clone, Debug)]
pub enum Observation {
    /// The path leads nowhere, or cannot be looked at.
    Unavailable,
    /// There is something at the path of a wallpaper: whether it is a file, and its size in bytes.
    Wallpaper { is_file: bool, size: u64 },
    /// There is something at the path of a directory that is no directory.
    NotADirectory,
    /// The directory cannot be read, for this reason.
    Unreadable { reason: String },
    /// The paths in the directory up to the first image, and whether each is that of a file.
    Entries { entries: Vec<(String, bool)> },
    /// The shell could not be run.
    NoShell,
    /// The shell was run, and says whether it accepts the command.
    Syntax { accepted: bool },
}

/// Whether one of these paths is that of an image file.
pub open spec fn some_image(entries: Seq<(String, bool)>) -> bool {
    exists|i: int|
        0 <= i < entries.len() && (#[trigger] entries[i]).1 && names_image(entries[i].0@)
}

/// What is wrong if this was found when a check was made. What was found by another check does not count
/// for this one.
pub open spec fn check_fault(check: CheckView, observation: Observation) -> Option<Seq<char>> {
    match (check, observation) {
        (CheckView::Wallpaper { profile, path }, Observation::Unavailable) => Some(
            "Wallpaper for profile '"@ + profile + "' is unavailable: "@ + path,
        ),
        (CheckView::Wallpaper { profile, path }, Observation::Wallpaper { is_file, size }) => if
        !is_file || size == 0 {
            Some("Wallpaper for profile '"@ + profile + "' is not a non-empty file: "@ + path)
        } else {
            None
        },
        (CheckView::Directory { profile, path }, Observation::Unavailable) => Some(
            "Wallpaper directory for profile '"@ + profile + "' is unavailable: "@ + path,
        ),
        (CheckView::Directory { profile, path }, Observation::NotADirectory) => Some(
            "Wallpaper directory for profile '"@ + profile + "' is not a directory: "@ + path,
        ),
        (CheckView::Directory { .. }, Observation::Unreadable { reason }) => Some(reason@),
        (CheckView::Directory { profile, path }, Observation::Entries { entries }) => if some_image(
            entries@,
        ) {
            None
        } else {
            Some(
                "Wallpaper directory for profile '"@ + profile
                    + "' contains no supported images: "@ + path,
            )
        },
        (CheckView::Command { .. }, Observation::NoShell) => Some(
            "Failed to run the shell syntax checker"@,
        ),
        (CheckView::Command { profile, command }, Observation::Syntax { accepted }) => if accepted {
            None
        } else {
            Some("Profile '"@ + profile + "' contains invalid shell syntax: "@ + command)
        },
        _ => Some("The observation is not one of this check"@),
    }
}

fn told_of(front: &str, profile: &String, middle: &str, end: &String) -> (text: String)
    ensures
        text@ == front@ + profile@ + middle@ + end@,
{
    let mut text = quoted(front, profile.as_str(), middle);
    text.append(end.as_str());
    text
}

/// Whether one of these paths is that of an image file.
pub fn has_image(entries: &Vec<(String, bool)>) -> (found: bool)
    ensures
        found == some_image(entries@),
{
    for i in 0..entries.len()
        invariant
            forall|j: int|
                0 <= j < i ==> !((#[trigger] entries@[j]).1 && names_image(entries@[j].0@)),
    {
        if is_supported_image(entries[i].0.as_str(), entries[i].1) {
            assert(entries@[i as int].1 && names_image(entries@[i as int].0@));
            return true;
        }
    }
    false
}

impl EnvironmentCheck {
    /// Judges what was found when the check was made. The error says what is wrong.
    pub fn judge(&self, observation: &Observation) -> (verdict: Result<(), String>)
        ensures
            match check_fault(self@, *observation) {
                Some(text) => verdict matches Err(message) && message@ == text,
                None => verdict is Ok,
            },
    {
        match (self, observation) {
            (EnvironmentCheck::Wallpaper { profile, path }, Observation::Unavailable) => Err(
                told_of("Wallpaper for profile '", profile, "' is unavailable: ", path),
            ),
            (
                EnvironmentCheck::Wallpaper { profile, path },
                Observation::Wallpaper { is_file, size },
            ) => {
                if !*is_file || *size == 0 {
                    Err(
                        told_of(
                            "Wallpaper for profile '",
                            profile,
                            "' is not a non-empty file: ",
                            path,
                        ),
                    )
                } else {
                    Ok(())
                }
            },
            (EnvironmentCheck::Directory { profile, path }, Observation::Unavailable) => Err(
                told_of("Wallpaper directory for profile '", profile, "' is unavailable: ", path),
            ),
            (EnvironmentCheck::Directory { profile, path }, Observation::NotADirectory) => Err(
                told_of(
                    "Wallpaper directory for profile '",
                    profile,
                    "' is not a directory: ",
                    path,
                ),
            ),
            (EnvironmentCheck::Directory { .. }, Observation::Unreadable { reason }) => Err(
                reason.clone(),
            ),
            (EnvironmentCheck::Directory { profile, path }, Observation::Entries { entries }) => {
                if has_image(entries) {
                    Ok(())
                } else {
                    Err(
                        told_of(
                            "Wallpaper directory for profile '",
                            profile,
                            "' contains no supported images: ",
                            path,
                        ),
                    )
                }
            },
            (EnvironmentCheck::Command { .. }, Observation::NoShell) => Err(
                "Failed to run the shell syntax checker".to_owned(),
            ),
            (EnvironmentCheck::Command { profile, command }, Observation::Syntax { accepted }) => {
                if *accepted {
                    Ok(())
                } else {
                    Err(
                        told_of(
                            "Profile '",
                            profile,
                            "' contains invalid shell syntax: ",
                            command,
                        ),
                    )
                }
            },
            _ => Err("The observation is not one of this check".to_owned()),
        }
    }
}

// ---------------------------------------------------------------------------------------------
// What is looked at
// ---------------------------------------------------------------------------------------------

/// Only `~` alone and `~/` in front of a path stand for the home directory; every other path, and every
/// path without a home directory, stays as it is. What is below the home directory stays below it.
pub proof fn only_the_own_home_is_expanded(path: Seq<char>, home: Seq<char>, rest: Seq<char>)
    requires
        rest.len() == 0 || rest[0] != '/',
    ensures
        expanded(path, None) == path,
        expanded("~"@, Some(home)) == home,
        expanded("~/"@ + rest, Some(home)).len() >= home.len() + rest.len(),
        expanded("~/"@ + rest, Some(home)).take(home.len() as int) == home,
        expanded("~/"@ + rest, Some(home)).skip(
            expanded("~/"@ + rest, Some(home)).len() - rest.len(),
        ) == rest,
        path.len() == 0 || path[0] != '~' || (path.len() > 1 && path[1] != '/') ==> expanded(
            path,
            Some(home),
        ) == path,
{
    reveal_strlit("~");
    reveal_strlit("~/");
    assert("~"@ =~= seq!['~']);
    let full = "~/"@ + rest;
    assert(full[0] == '~' && full[1] == '/');
    assert(full.skip(2) =~= rest);
    assert(full != seq!['~']) by {
        assert(full.len() >= 2);
    }
    joining_keeps_the_base(home, rest);
}

/// The image formats that are supported, in upper or lower case, are these and no others.
pub proof fn these_extensions_are_those_of_images(ending: Seq<char>)
    ensures
        is_image_extension(ending) <==> exists|k: int|
            0 <= k < image_words().len() && spells(ending, #[trigger] image_words()[k]),
{
    let words = image_words();
    reveal_strlit("jpg");
    reveal_strlit("jpeg");
    reveal_strlit("png");
    reveal_strlit("gif");
    reveal_strlit("webp");
    reveal_strlit("bmp");
    assert(words[0] =~= seq!['j', 'p', 'g']);
    assert(words[1] =~= seq!['j', 'p', 'e', 'g']);
    assert(words[2] =~= seq!['p', 'n', 'g']);
    assert(words[3] =~= seq!['g', 'i', 'f']);
    assert(words[4] =~= seq!['w', 'e', 'b', 'p']);
    assert(words[5] =~= seq!['b', 'm', 'p']);
    if is_image_extension(ending) {
        assert(spells(ending, words[0]) || spells(ending, words[1]) || spells(ending, words[2])
            || spells(ending, words[3]) || spells(ending, words[4]) || spells(ending, words[5]));
    }
}

/// The extensions of images in lower case.
pub open spec fn image_words() -> Seq<Seq<char>> {
    seq!["jpg"@, "jpeg"@, "png"@, "gif"@, "webp"@, "bmp"@]
}

/// Everything that a configuration needs of the machine is looked at: the wallpaper, the directory of
/// wallpapers and every command of every profile, each for its profile and with its path expanded.
pub proof fn everything_needed_is_looked_at(
    profiles: Seq<Profile>,
    home: Option<Seq<char>>,
    p: int,
    k: int,
)
    requires
        0 <= p < profiles.len(),
    ensures
        ({
            let profile = profiles[p];
            let checks = config_checks(profiles, home);
            &&& profile.wallpaper matches Some(path) ==> checks.contains(
                CheckView::Wallpaper { profile: profile.name@, path: expanded(path@, home) },
            )
            &&& profile.wallpaper_dir matches Some(path) ==> checks.contains(
                CheckView::Directory { profile: profile.name@, path: expanded(path@, home) },
            )
            &&& 0 <= k < profile.commands@.len() ==> checks.contains(
                CheckView::Command { profile: profile.name@, command: profile.commands@[k]@ },
            )
        }),
    decreases profiles.len(),
{
    let profile = profiles[p];
    let checks = config_checks(profiles, home);
    let earlier = config_checks(profiles.drop_last(), home);
    let last = profile_checks(profiles.last(), home);
    assert forall|check: CheckView|
        earlier.contains(check) || last.contains(check) implies #[trigger] checks.contains(check) by {
        lemma_in_either(earlier, last, check);
    }
    if p < profiles.len() - 1 {
        assert(profiles.drop_last()[p] == profile);
        everything_needed_is_looked_at(profiles.drop_last(), home, p, k);
    } else {
        let a = wallpaper_checks(profile, home);
        let b = directory_checks(profile, home);
        let c = command_checks(profile);
        if let Some(path) = profile.wallpaper {
            let check = CheckView::Wallpaper {
                profile: profile.name@,
                path: expanded(path@, home),
            };
            assert(a[0] == check);
            lemma_in_either(a, b, check);
            lemma_in_either(a + b, c, check);
            assert(last.contains(check));
        }
        if let Some(path) = profile.wallpaper_dir {
            let check = CheckView::Directory {
                profile: profile.name@,
                path: expanded(path@, home),
            };
            assert(b[0] == check);
            lemma_in_either(a, b, check);
            lemma_in_either(a + b, c, check);
            assert(last.contains(check));
        }
        if 0 <= k < profile.commands@.len() {
            let check = CheckView::Command {
                profile: profile.name@,
                command: profile.commands@[k]@,
            };
            assert(c[k] == check);
            lemma_in_either(a + b, c, check);
            assert(last.contains(check));
        }
    }
}

proof fn lemma_in_either(a: Seq<CheckView>, b: Seq<CheckView>, check: CheckView)
    ensures
        a.contains(check) || b.contains(check) ==> (a + b).contains(check),
{
    if a.contains(check) {
        let k = choose|k: int| 0 <= k < a.len() && a[k] == check;
        assert((a + b)[k] == check);
    } else if b.contains(check) {
        let k = choose|k: int| 0 <= k < b.len() && b[k] == check;
        assert((a + b)[a.len() + k] == check);
    }
}

/// A wallpaper passes if it is a file and not empty, a directory if one of the files in it is an image, a
/// command if the shell accepts it; nothing else passes.
pub proof fn what_passes_a_check(check: CheckView, observation: Observation)
    ensures
        check_fault(check, observation) is None <==> match check {
            CheckView::Wallpaper { .. } => observation matches Observation::Wallpaper {
                is_file,
                size,
            } && is_file && size > 0,
            CheckView::Directory { .. } => observation matches Observation::Entries { entries }
                && exists|i: int|
                0 <= i < entries@.len() && (#[trigger] entries@[i]).1 && names_image(entries@[i].0@),
            CheckView::Command { .. } => observation matches Observation::Syntax { accepted }
                && accepted,
        },
{
}

} // verus!
