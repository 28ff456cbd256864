//! Choosing a display profile for the connected outputs, and activating it.

pub mod executor;
pub mod laws;
pub mod matcher;

pub use executor::ProfileExecutor;
pub use matcher::ProfileMatcher;

use crate::awww::WallpaperStep;
use crate::config::{Config, Profile};
use crate::profile::executor::remembers_image;
use crate::profile::matcher::{
    best_match, head_views, resolution, the_first_fitting_profile_is_best,
};
use crate::text::{quoted, same_text};
use crate::wayland::protocols::{HeadView, OutputHead};
use vstd::prelude::*;

verus! {

/// Keeps track of which profile is active.
pub struct ProfileManager {
    pub matcher: ProfileMatcher,
    pub executor: ProfileExecutor,
    /// The active profile.
    pub current_profile: Option<String>,
    /// The profile that was activated last. It is kept while no profile fits, as outputs are built
    /// anew.
    pub last_applied_profile: Option<String>,
    /// Whether the remembered wallpaper was restored at the start and no profile was active since.
    pub wallpaper_restored: bool,
}

/// What to do about the connected outputs.
#[derive(Clone, Copy, PartialEq, Eq, Debug, Structural)]
pub enum MatchStep {
    /// No profile fits.
    NoMatch,
    /// The profile at this place fits and is active.
    AlreadyActive(usize),
    /// The profile at this place is to be activated.
    Activate {
        profile: usize,
        /// Whether the remembered wallpaper is to be restored first.
        restore_saved: bool,
        /// Whether the wallpaper is to stay as it is.
        skip_wallpaper: bool,
    },
}

/// Whether `name` is the one that is kept.
pub open spec fn is_named(kept: Option<String>, name: Seq<char>) -> bool {
    kept is Some && kept->0@ == name
}

/// What to do about the connected outputs, by what is kept of profiles.
pub open spec fn match_step(
    current: Option<String>,
    last_applied: Option<String>,
    wallpaper_restored: bool,
    profiles: Seq<Profile>,
    heads: Seq<HeadView>,
) -> MatchStep {
    match best_match(profiles, heads, 0) {
        None => MatchStep::NoMatch,
        Some(i) => {
            let name = profiles[i].name@;
            if is_named(current, name) {
                MatchStep::AlreadyActive(i as usize)
            } else {
                MatchStep::Activate {
                    profile: i as usize,
                    restore_saved: is_named(last_applied, name),
                    skip_wallpaper: wallpaper_restored || is_named(last_applied, name),
                }
            }
        },
    }
}

/// Nothing is kept of profiles but what restoring the remembered wallpaper has come to.
pub open spec fn starts_with(
    executor: ProfileExecutor,
    restored: Result<bool, ()>,
    manager: ProfileManager,
) -> bool {
    &&& manager.current_profile is None
    &&& manager.last_applied_profile is None
    &&& manager.wallpaper_restored == (restored == Ok::<bool, ()>(true))
    &&& manager.executor == executor
}

/// `step` is what to do about the connected outputs, and `after` is what is kept of profiles then.
pub open spec fn matches_outputs(
    before: ProfileManager,
    profiles: Seq<Profile>,
    heads: Seq<HeadView>,
    step: MatchStep,
    after: ProfileManager,
) -> bool {
    &&& step == match_step(
        before.current_profile,
        before.last_applied_profile,
        before.wallpaper_restored,
        profiles,
        heads,
    )
    &&& after == if step is NoMatch {
        (ProfileManager { current_profile: None, ..before })
    } else {
        before
    }
}

/// What is kept of profiles after one of this name was activated, or was not.
pub open spec fn notes_activation(
    before: ProfileManager,
    name: Seq<char>,
    success: bool,
    active: Option<String>,
    after: ProfileManager,
) -> bool {
    &&& success ==> {
        &&& active matches Some(text) && text@ == name
        &&& is_named(after.current_profile, name)
        &&& is_named(after.last_applied_profile, name)
        &&& !after.wallpaper_restored
        &&& after.executor == before.executor
    }
    &&& !success ==> active is None && after == before
}

/// What is kept of profiles after one of this name was activated on request, or was not.
pub open spec fn notes_activation_by_name(
    before: ProfileManager,
    name: Seq<char>,
    success: bool,
    after: ProfileManager,
) -> bool {
    &&& success ==> {
        &&& is_named(after.current_profile, name)
        &&& is_named(after.last_applied_profile, name)
        &&& after.wallpaper_restored == before.wallpaper_restored
        &&& after.executor == before.executor
    }
    &&& !success ==> after == before
}

fn keeps_name(kept: &Option<String>, name: &str) -> (same: bool)
    ensures
        same == is_named(*kept, name@),
{
    match kept {
        Some(text) => same_text(text.as_str(), name),
        None => false,
    }
}

impl Default for ProfileManager {
    /// A manager without an active profile, which shows no wallpapers.
    fn default() -> (manager: ProfileManager)
        ensures
            manager.current_profile is None,
            manager.last_applied_profile is None,
            !manager.wallpaper_restored,
            manager.executor.awww_manager is None,
    {
        ProfileManager::new()
    }
}

impl ProfileManager {
    /// A manager without an active profile, which shows no wallpapers.
    pub fn new() -> (manager: ProfileManager)
        ensures
            manager.current_profile is None,
            manager.last_applied_profile is None,
            !manager.wallpaper_restored,
            manager.executor.awww_manager is None,
    {
        ProfileManager {
            matcher: ProfileMatcher::new(),
            executor: ProfileExecutor::new(),
            current_profile: None,
            last_applied_profile: None,
            wallpaper_restored: false,
        }
    }

    /// A manager without an active profile, given what restoring the remembered wallpaper has come to.
    pub fn with_awww(executor: ProfileExecutor, restored: Result<bool, ()>) -> (manager:
        ProfileManager)
        ensures
            starts_with(executor, restored, manager),
    {
        let wallpaper_restored: bool = match restored {
            Ok(done) => done,
            Err(()) => false,
        };
        ProfileManager {
            matcher: ProfileMatcher::new(),
            executor,
            current_profile: None,
            last_applied_profile: None,
            wallpaper_restored,
        }
    }

    /// Decides what to do about the connected outputs. If no profile fits, none is active.
    pub fn match_and_apply(&mut self, config: &Config, heads: Vec<&OutputHead>) -> (step: MatchStep)
        ensures
            matches_outputs(
                *old(self),
                config.profiles@,
                head_views(heads@),
                step,
                *final(self),
            ),
            step matches MatchStep::AlreadyActive(i) ==> i < config.profiles@.len(),
            step matches MatchStep::Activate { profile, .. } ==> profile < config.profiles@.len(),
    {
        let found: Option<usize> = self.matcher.find_best_index(config, heads);
        match found {
            None => {
                self.current_profile = None;
                MatchStep::NoMatch
            },
            Some(i) => {
                let name = config.profiles[i].name.as_str();
                if keeps_name(&self.current_profile, name) {
                    return MatchStep::AlreadyActive(i);
                }
                let reactivating = keeps_name(&self.last_applied_profile, name);
                MatchStep::Activate {
                    profile: i,
                    restore_saved: reactivating,
                    skip_wallpaper: self.wallpaper_restored || reactivating,
                }
            },
        }
    }

    /// Takes note of whether the profile of this name was activated. If it was, it is the active one
    /// and later activations show its wallpaper again.
    pub fn activated(&mut self, name: &str, success: bool) -> (active: Option<String>)
        ensures
            notes_activation(*old(self), name@, success, active, *final(self)),
    {
        if success {
            self.current_profile = Some(name.to_owned());
            self.last_applied_profile = Some(name.to_owned());
            self.wallpaper_restored = false;
            Some(name.to_owned())
        } else {
            None
        }
    }

    /// The active profile.
    pub fn current_profile(&self) -> (name: Option<&String>)
        ensures
            match name {
                Some(text) => self.current_profile == Some(*text),
                None => self.current_profile is None,
            },
    {
        match &self.current_profile {
            Some(name) => Some(name),
            None => None,
        }
    }

    /// The place of the profile of this name, which is to be activated whether it fits or not. The
    /// error says that there is none.
    pub fn apply_profile_by_name(&self, config: &Config, profile_name: &str) -> (place: Result<
        usize,
        String,
    >)
        ensures
            match profile_named(config.profiles@, profile_name@, 0) {
                Some(i) => place is Ok && place->Ok_0 == i && i < config.profiles@.len(),
                None => place matches Err(message) && message@ == "Profile '"@ + profile_name@
                    + "' not found in configuration"@,
            },
    {
        match find_profile(config, profile_name) {
            Some(i) => Ok(i),
            None => Err(quoted("Profile '", profile_name, "' not found in configuration")),
        }
    }

    /// Takes note of whether the profile of this name was activated on request. Whether a wallpaper
    /// was restored at the start still counts.
    pub fn activated_by_name(&mut self, name: &str, success: bool)
        ensures
            notes_activation_by_name(*old(self), name@, success, *final(self)),
    {
        if success {
            self.current_profile = Some(name.to_owned());
            self.last_applied_profile = Some(name.to_owned());
        }
    }

    /// What is to be done in order to remember the wallpaper that is shown, and whether there is one.
    pub fn save_current_wallpaper(&self, shown: &Option<String>) -> (plan: (
        Vec<WallpaperStep>,
        bool,
    ))
        ensures
            remembers_image(self.executor.awww_manager is Some, *shown, plan),
    {
        self.executor.save_current_wallpaper(shown)
    }

    /// Lets the next match activate its profile even if it is the active one. What was activated last
    /// is kept.
    pub fn invalidate_current_profile(&mut self)
        ensures
            *final(self) == (ProfileManager { current_profile: None, ..*old(self) }),
    {
        self.current_profile = None;
    }
}

/// The first profile from `from` on that has this name.
pub open spec fn profile_named(profiles: Seq<Profile>, name: Seq<char>, from: int) -> Option<int>
    decreases profiles.len() - from,
{
    if from < 0 || from >= profiles.len() {
        None
    } else if profiles[from].name@ == name {
        Some(from)
    } else {
        profile_named(profiles, name, from + 1)
    }
}

/// The place of the first profile that has this name.
pub fn find_profile(config: &Config, name: &str) -> (place: Option<usize>)
    ensures
        match profile_named(config.profiles@, name@, 0) {
            Some(i) => place is Some && place->0 == i && i < config.profiles@.len(),
            None => place is None,
        },
{
    for i in 0..config.profiles.len()
        invariant
            profile_named(config.profiles@, name@, 0) == profile_named(
                config.profiles@,
                name@,
                i as int,
            ),
    {
        if same_text(config.profiles[i].name.as_str(), name) {
            return Some(i);
        }
    }
    None
}

/// Once the fitting profile is active, matching the same outputs again changes nothing, however often
/// it is done.
pub proof fn matching_again_changes_nothing(
    current: Option<String>,
    last_applied: Option<String>,
    wallpaper_restored: bool,
    profiles: Seq<Profile>,
    heads: Seq<HeadView>,
)
    requires
        best_match(profiles, heads, 0) is Some,
        is_named(current, profiles[best_match(profiles, heads, 0)->0].name@),
    ensures
        match_step(current, last_applied, wallpaper_restored, profiles, heads) is AlreadyActive,
{
}

/// A profile that is activated again after its outputs were built anew keeps the wallpaper: the
/// remembered one is restored, and that of the profile is not shown.
pub proof fn a_reactivated_profile_keeps_the_wallpaper(
    last_applied: Option<String>,
    wallpaper_restored: bool,
    profiles: Seq<Profile>,
    heads: Seq<HeadView>,
)
    requires
        best_match(profiles, heads, 0) is Some,
        is_named(last_applied, profiles[best_match(profiles, heads, 0)->0].name@),
    ensures
        match_step(None, last_applied, wallpaper_restored, profiles, heads)
            == (MatchStep::Activate {
            profile: best_match(profiles, heads, 0)->0 as usize,
            restore_saved: true,
            skip_wallpaper: true,
        }),
{
}

/// Matching picks the first profile that fits the connected outputs, if any does. It is left alone if it is
/// the active one and activated otherwise.
pub proof fn the_first_fitting_profile_becomes_active(
    current: Option<String>,
    last_applied: Option<String>,
    wallpaper_restored: bool,
    profiles: Seq<Profile>,
    heads: Seq<HeadView>,
    i: int,
)
    requires
        profiles.len() <= usize::MAX,
        0 <= i < profiles.len(),
        resolution(profiles[i], heads) is Some,
        forall|k: int| 0 <= k < i ==> resolution(#[trigger] profiles[k], heads) is None,
    ensures
        match match_step(current, last_applied, wallpaper_restored, profiles, heads) {
            MatchStep::NoMatch => false,
            MatchStep::AlreadyActive(place) => place == i && current is Some && current->0@
                == profiles[i].name@,
            MatchStep::Activate { profile, .. } => profile == i && (current is None || current->0@
                != profiles[i].name@),
        },
{
    the_first_fitting_profile_is_best(profiles, heads);
    let best = best_match(profiles, heads, 0);
    if best is None {
        assert(resolution(profiles[i], heads) is None);
    } else if best->0 < i {
        assert(resolution(profiles[best->0], heads) is None);
    } else if best->0 > i {
        assert(resolution(profiles[i], heads) is None);
    }
}

/// Without a fitting profile nothing is matched, whatever was active.
pub proof fn nothing_is_matched_without_a_fitting_profile(
    current: Option<String>,
    last_applied: Option<String>,
    wallpaper_restored: bool,
    profiles: Seq<Profile>,
    heads: Seq<HeadView>,
)
    requires
        forall|k: int|
            0 <= k < profiles.len() ==> resolution(#[trigger] profiles[k], heads) is None,
    ensures
        match_step(current, last_applied, wallpaper_restored, profiles, heads) is NoMatch,
{
    the_first_fitting_profile_is_best(profiles, heads);
}

/// A profile other than the one that was applied last shows its own wallpaper: nothing is restored, and
/// its wallpaper is left out only if one was restored at the start and no profile was active since. A
/// profile that was applied last is the only one for which the remembered wallpaper is restored, and its
/// own is not shown then.
pub proof fn another_profile_shows_its_own_wallpaper(
    current: Option<String>,
    last_applied: Option<String>,
    wallpaper_restored: bool,
    profiles: Seq<Profile>,
    heads: Seq<HeadView>,
)
    requires
        profiles.len() <= usize::MAX,
    ensures
        match_step(
            current,
            last_applied,
            wallpaper_restored,
            profiles,
            heads,
        ) matches MatchStep::Activate { profile, restore_saved, skip_wallpaper } ==> {
            &&& profile < profiles.len()
            &&& restore_saved <==> last_applied is Some && last_applied->0@
                == profiles[profile as int].name@
            &&& restore_saved ==> skip_wallpaper
            &&& !restore_saved ==> skip_wallpaper == wallpaper_restored
        },
{
    the_first_fitting_profile_is_best(profiles, heads);
}

/// A profile is found by its name, the first one if several have it, and none only if none has it.
pub proof fn the_first_profile_of_a_name_is_found(profiles: Seq<Profile>, name: Seq<char>, from: int)
    requires
        0 <= from,
    ensures
        profile_named(profiles, name, from) matches Some(p) ==> {
            &&& from <= p < profiles.len()
            &&& profiles[p].name@ == name
            &&& forall|q: int| from <= q < p ==> (#[trigger] profiles[q]).name@ != name
        },
        profile_named(profiles, name, from) is None ==> forall|q: int|
            from <= q < profiles.len() ==> (#[trigger] profiles[q]).name@ != name,
    decreases profiles.len() - from,
{
    if from < profiles.len() {
        the_first_profile_of_a_name_is_found(profiles, name, from + 1);
    }
}

} // verus!
