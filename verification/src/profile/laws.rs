//! What holds of activating profiles, from the match to the last command.

use crate::awww::{
    remembering, restoring, showing, wallpaper_step_views, WallpaperStep, WallpaperStepView,
};
use crate::config::Profile;
use crate::profile::executor::{
    activation, after_step, ends_command, first_word, follows_plan, leading_word, missing_programs,
    program_of, remembers_image, restore_step, restores_image, shows_image, AfterStep, DisplayStep,
    RestoreStep, StepView,
};
use crate::profile::matcher::resolution;
use crate::profile::{
    another_profile_shows_its_own_wallpaper, matches_outputs, notes_activation,
    notes_activation_by_name, nothing_is_matched_without_a_fitting_profile, starts_with, the_first_fitting_profile_becomes_active, MatchStep,
    ProfileExecutor, ProfileManager,
};
use crate::text::is_space;
use crate::wayland::output::{OutputError, ProfilePlan};
use crate::wayland::protocols::HeadView;
use vstd::prelude::*;

verus! {

// ---------------------------------------------------------------------------------------------
// Matching and taking note
// ---------------------------------------------------------------------------------------------

/// Whether the profile at this place is the first one that fits the connected outputs.
pub open spec fn fits_first(profiles: Seq<Profile>, heads: Seq<HeadView>, i: int) -> bool {
    &&& 0 <= i < profiles.len() <= usize::MAX
    &&& resolution(profiles[i], heads) is Some
    &&& forall|k: int| 0 <= k < i ==> resolution(#[trigger] profiles[k], heads) is None
}

/// A profile that was activated is active: matching the same outputs again leaves it alone. One whose
/// activation has failed is not, and matching again decides just as before.
pub proof fn an_activated_profile_is_active(
    before: ProfileManager,
    profiles: Seq<Profile>,
    heads: Seq<HeadView>,
    i: int,
    success: bool,
    active: Option<String>,
    after: ProfileManager,
    step: MatchStep,
    last: ProfileManager,
)
    requires
        fits_first(profiles, heads, i),
        notes_activation(before, profiles[i].name@, success, active, after),
        matches_outputs(after, profiles, heads, step, last),
    ensures
        success ==> step == MatchStep::AlreadyActive(i as usize) && last == after && (
        active matches Some(name) && name@ == profiles[i].name@),
        !success ==> active is None && matches_outputs(before, profiles, heads, step, last),
{
    the_first_fitting_profile_becomes_active(
        after.current_profile,
        after.last_applied_profile,
        after.wallpaper_restored,
        profiles,
        heads,
        i,
    );
}

/// After a profile was activated and others came to fit, another profile is activated with its own
/// wallpaper; the same one, once its outputs are back, is activated with the remembered wallpaper.
/// Meanwhile, while none fits, none is active.
pub proof fn a_profile_comes_back_with_its_wallpaper(
    before: ProfileManager,
    name: Seq<char>,
    active: Option<String>,
    first: ProfileManager,
    profiles: Seq<Profile>,
    others: Seq<HeadView>,
    gone: MatchStep,
    second: ProfileManager,
    heads: Seq<HeadView>,
    i: int,
    step: MatchStep,
    last: ProfileManager,
)
    requires
        notes_activation(before, name, true, active, first),
        forall|k: int|
            0 <= k < profiles.len() ==> resolution(#[trigger] profiles[k], others) is None,
        matches_outputs(first, profiles, others, gone, second),
        fits_first(profiles, heads, i),
        matches_outputs(second, profiles, heads, step, last),
    ensures
        gone is NoMatch,
        second.current_profile is None,
        step == (MatchStep::Activate {
            profile: i as usize,
            restore_saved: profiles[i].name@ == name,
            skip_wallpaper: profiles[i].name@ == name,
        }),
{
    nothing_is_matched_without_a_fitting_profile(
        first.current_profile,
        first.last_applied_profile,
        first.wallpaper_restored,
        profiles,
        others,
    );
    the_first_fitting_profile_becomes_active(
        second.current_profile,
        second.last_applied_profile,
        second.wallpaper_restored,
        profiles,
        heads,
        i,
    );
    another_profile_shows_its_own_wallpaper(
        second.current_profile,
        second.last_applied_profile,
        second.wallpaper_restored,
        profiles,
        heads,
    );
}

/// A profile that was activated on request is active and counts as the one that was applied last, but a
/// wallpaper that was restored at the start still counts.
pub proof fn a_requested_profile_is_active(
    before: ProfileManager,
    name: Seq<char>,
    success: bool,
    after: ProfileManager,
)
    requires
        notes_activation_by_name(before, name, success, after),
    ensures
        success ==> (after.current_profile matches Some(active) && active@ == name) && (
        after.last_applied_profile matches Some(last) && last@ == name),
        !success ==> after.current_profile == before.current_profile && after.last_applied_profile
            == before.last_applied_profile,
        after.wallpaper_restored == before.wallpaper_restored,
        after.executor == before.executor,
{
}

// ---------------------------------------------------------------------------------------------
// Activating
// ---------------------------------------------------------------------------------------------

/// A profile is activated by configuring its displays, once and first, then by showing at most one
/// wallpaper, then by running its commands, every one of them, in order. The wallpaper is an image of
/// the directory of the profile if it has one, and else its image. There is none if the wallpaper is to
/// stay, or if the profile has none.
pub proof fn a_profile_is_activated_in_order(profile: Profile, skip_wallpaper: bool)
    ensures
        ({
            let steps = activation(profile, skip_wallpaper);
            let commands = profile.commands@;
            let shows = !skip_wallpaper && (profile.wallpaper_dir is Some || profile.wallpaper is Some);
            let front: int = if shows {
                2
            } else {
                1
            };
            &&& steps.len() == front + commands.len()
            &&& steps[0] is ConfigureDisplays
            &&& shows ==> steps[1] == match profile.wallpaper_dir {
                Some(dir) => StepView::PickWallpaper(dir@),
                None => StepView::SetWallpaper(profile.wallpaper->0@),
            }
            &&& forall|i: int|
                0 <= i < commands.len() ==> #[trigger] steps[front + i] == StepView::Run(
                    commands[i]@,
                )
        }),
{
}

/// If the displays of a profile cannot be configured, nothing else is done; that anything else fails keeps
/// nothing from being done.
pub proof fn only_displays_stop_an_activation(
    profile: Profile,
    skip_wallpaper: bool,
    i: int,
    success: bool,
)
    requires
        0 <= i < activation(profile, skip_wallpaper).len(),
    ensures
        after_step(activation(profile, skip_wallpaper)[i], success) == AfterStep::Abandon <==> i == 0
            && !success,
{
    a_profile_is_activated_in_order(profile, skip_wallpaper);
    let steps = activation(profile, skip_wallpaper);
    let front = steps.len() - profile.commands@.len();
    if i >= front {
        assert(steps[front + (i - front)] == StepView::Run(profile.commands@[i - front]@));
    }
}

/// The displays of a profile are configured if they were already as it says or the compositor accepts what
/// was asked of it, and not otherwise.
pub proof fn displays_are_configured_if_the_compositor_says_so(
    step: DisplayStep,
    plan: Result<ProfilePlan, OutputError>,
    accepted: bool,
)
    requires
        follows_plan(step, plan),
    ensures
        step.fault(accepted) is None <==> match plan {
            Ok(ProfilePlan::Settled(settled)) => settled,
            Ok(ProfilePlan::Submit(_)) => accepted,
            Err(_) => false,
        },
        plan matches Ok(ProfilePlan::Submit(submission)) ==> step == DisplayStep::Submit(submission),
        !(plan matches Ok(ProfilePlan::Submit(_))) ==> !(step is Submit),
{
}

// ---------------------------------------------------------------------------------------------
// Wallpapers
// ---------------------------------------------------------------------------------------------

/// An attempt to restore the remembered wallpaper that fails is made again a quarter of a second later,
/// twenty times in all; any other outcome is final.
pub proof fn restoring_is_tried_twenty_times(attempt: u32, outcome: Result<bool, ()>)
    requires
        1 <= attempt,
    ensures
        match restore_step(attempt, outcome) {
            RestoreStep::Done(restored) => match outcome {
                Ok(done) => restored == done,
                Err(()) => !restored && attempt >= 20,
            },
            RestoreStep::TryAgain { wait_ms, attempt: next } => outcome is Err && wait_ms == 250
                && next == attempt + 1 && next <= 20,
        },
{
}

/// An image is shown with the daemon running, and what is remembered is what was shown, once it was shown.
/// Restoring an image shows it and remembers nothing new; remembering one shows nothing.
pub proof fn the_shown_image_is_the_remembered_one(path: Seq<char>, i: int)
    ensures
        ({
            let steps = showing(path);
            &&& steps.contains(WallpaperStepView::Show(path))
            &&& steps.contains(WallpaperStepView::Remember(path))
            &&& steps.len() > 0 && steps[0] is EnsureDaemon
            &&& 0 <= i < steps.len() ==> match steps[i] {
                WallpaperStepView::EnsureDaemon => i == 0,
                WallpaperStepView::Show(shown) => shown == path,
                WallpaperStepView::Remember(image) => image == path && steps.take(i).contains(
                    WallpaperStepView::Show(path),
                ),
            }
        }),
        ({
            let steps = restoring(path);
            &&& steps.contains(WallpaperStepView::Show(path))
            &&& steps.len() > 0 && steps[0] is EnsureDaemon
            &&& 0 <= i < steps.len() ==> match steps[i] {
                WallpaperStepView::EnsureDaemon => i == 0,
                WallpaperStepView::Show(shown) => shown == path,
                WallpaperStepView::Remember(_) => false,
            }
        }),
        remembering(path).contains(WallpaperStepView::Remember(path)),
        0 <= i < remembering(path).len() ==> remembering(path)[i] == WallpaperStepView::Remember(
            path,
        ),
{
    assert(showing(path)[1] == WallpaperStepView::Show(path));
    assert(showing(path)[2] == WallpaperStepView::Remember(path));
    assert(showing(path).take(2)[1] == WallpaperStepView::Show(path));
    assert(restoring(path)[1] == WallpaperStepView::Show(path));
    assert(remembering(path)[0] == WallpaperStepView::Remember(path));
}

// ---------------------------------------------------------------------------------------------
// Commands
// ---------------------------------------------------------------------------------------------

/// The program of a command is its first word: behind white space, up to the next white space or to the
/// end.
pub proof fn the_program_is_the_first_word(
    space: Seq<char>,
    word: Seq<char>,
    rest: Seq<char>,
)
    requires
        forall|i: int| 0 <= i < space.len() ==> is_space(#[trigger] space[i]),
        word.len() > 0,
        forall|i: int| 0 <= i < word.len() ==> !is_space(#[trigger] word[i]),
        rest.len() == 0 || is_space(rest[0]),
    ensures
        program_of(space + word + rest) == word,
{
    lemma_first_word(space, word, rest);
}

proof fn lemma_first_word(space: Seq<char>, word: Seq<char>, rest: Seq<char>)
    requires
        forall|i: int| 0 <= i < space.len() ==> is_space(#[trigger] space[i]),
        word.len() > 0,
        forall|i: int| 0 <= i < word.len() ==> !is_space(#[trigger] word[i]),
        rest.len() == 0 || is_space(rest[0]),
    ensures
        first_word(space + word + rest) == Some(word),
    decreases space.len(),
{
    let all = space + word + rest;
    if space.len() == 0 {
        assert(all =~= word + rest);
        assert(all[0] == word[0]);
        lemma_leading_word(word, rest);
    } else {
        assert(all[0] == space[0]);
        let fewer = space.skip(1);
        assert(all.skip(1) =~= fewer + word + rest);
        assert forall|i: int| 0 <= i < fewer.len() implies is_space(#[trigger] fewer[i]) by {
            assert(fewer[i] == space[i + 1]);
        }
        lemma_first_word(fewer, word, rest);
    }
}

proof fn lemma_leading_word(word: Seq<char>, rest: Seq<char>)
    requires
        forall|i: int| 0 <= i < word.len() ==> !is_space(#[trigger] word[i]),
        rest.len() == 0 || is_space(rest[0]),
    ensures
        leading_word(word + rest) == word,
    decreases word.len(),
{
    let all = word + rest;
    if word.len() == 0 {
        assert(all =~= rest);
        assert(leading_word(all) =~= word);
    } else {
        let tail = word.skip(1);
        assert(all[0] == word[0]);
        assert(all.skip(1) =~= tail + rest);
        assert forall|i: int| 0 <= i < tail.len() implies !is_space(#[trigger] tail[i]) by {
            assert(tail[i] == word[i + 1]);
        }
        lemma_leading_word(tail, rest);
        assert(leading_word(all) =~= word);
    }
}

/// A program is reported as missing exactly when it is that of a command whose program was not found.
pub proof fn missing_programs_are_those_not_found(
    commands: Seq<String>,
    found: Seq<bool>,
    program: Seq<char>,
)
    requires
        commands.len() == found.len(),
    ensures
        missing_programs(commands, found).contains(program) <==> exists|i: int|
            0 <= i < commands.len() && !found[i] && program_of((#[trigger] commands[i])@) == program,
        missing_programs(commands, found).len() <= commands.len(),
    decreases commands.len(),
{
    if commands.len() > 0 {
        let shorter = commands.drop_last();
        let fewer = found.drop_last();
        let earlier = missing_programs(shorter, fewer);
        let all = missing_programs(commands, found);
        let n = commands.len() - 1;
        missing_programs_are_those_not_found(shorter, fewer, program);
        if earlier.contains(program) {
            let k = choose|k: int| 0 <= k < earlier.len() && earlier[k] == program;
            assert(all[k] == program);
            let i = choose|i: int|
                0 <= i < shorter.len() && !fewer[i] && program_of((#[trigger] shorter[i])@)
                    == program;
            assert(commands[i] == shorter[i] && found[i] == fewer[i]);
        }
        if !found[n] && program_of(commands[n]@) == program {
            assert(all[earlier.len() as int] == program);
        }
        if all.contains(program) && !earlier.contains(program) {
            let k = choose|k: int| 0 <= k < all.len() && all[k] == program;
            if k < earlier.len() {
                assert(earlier[k] == program);
            }
            assert(commands[n] == commands.last());
        }
        if exists|i: int|
            0 <= i < commands.len() && !found[i] && program_of((#[trigger] commands[i])@)
                == program {
            let i = choose|i: int|
                0 <= i < commands.len() && !found[i] && program_of((#[trigger] commands[i])@)
                    == program;
            if i < n {
                assert(shorter[i] == commands[i] && fewer[i] == found[i]);
            }
        }
    }
}

/// Showing an image needs something to show it and the image itself: without the first nothing is done,
/// without the second there is an error, and otherwise the image is shown and remembered. Restoring one
/// shows it, and remembering one keeps it, exactly if there is one and something to show it.
pub proof fn an_image_is_shown_if_it_exists(
    able: bool,
    path: Seq<char>,
    exists: bool,
    plan: Result<Vec<WallpaperStep>, String>,
    image: Option<String>,
    restored: (Vec<WallpaperStep>, bool),
    kept: (Vec<WallpaperStep>, bool),
)
    requires
        shows_image(able, path, exists, plan),
        restores_image(able, image, restored),
        remembers_image(able, image, kept),
    ensures
        plan is Err <==> able && !exists,
        plan matches Ok(steps) ==> if able {
            wallpaper_step_views(steps@).contains(WallpaperStepView::Show(path))
                && wallpaper_step_views(steps@).contains(WallpaperStepView::Remember(path))
        } else {
            steps@.len() == 0
        },
        restored.1 == kept.1 && restored.1 == (able && image is Some),
        restored.1 ==> wallpaper_step_views(restored.0@).contains(WallpaperStepView::Show(image->0@))
            && wallpaper_step_views(kept.0@) == seq![WallpaperStepView::Remember(image->0@)],
        !restored.1 ==> wallpaper_step_views(restored.0@).len() == 0 && wallpaper_step_views(
            kept.0@,
        ).len() == 0,
{
    the_shown_image_is_the_remembered_one(path, 0);
    if let Some(image) = image {
        the_shown_image_is_the_remembered_one(image@, 0);
    }
}

/// A command that has ended well is no error, and any other is.
pub proof fn a_failed_command_is_an_error(
    command: Seq<char>,
    success: bool,
    code: Option<i32>,
    stderr: Seq<char>,
    r: Result<(), String>,
)
    requires
        ends_command(command, success, code, stderr, r),
    ensures
        r is Ok <==> success,
        r matches Err(message) ==> message@.len() >= command.len() + stderr.len(),
{
}

/// A plan succeeds if nothing had to be done because the outputs are as the profile says, or if the
/// compositor accepts what was asked of it.
pub proof fn a_plan_succeeds_if_it_is_settled_or_accepted(plan: ProfilePlan, accepted: bool)
    ensures
        plan.succeeds(accepted) <==> plan == ProfilePlan::Settled(true) || (plan is Submit && accepted),
{
}

/// At the start the first fitting profile is activated. A wallpaper that was restored before stays; without
/// one the profile shows its own. The profile after that shows its own in any case.
pub proof fn a_restored_wallpaper_outlasts_the_first_profile(
    executor: ProfileExecutor,
    restored: Result<bool, ()>,
    start: ProfileManager,
    profiles: Seq<Profile>,
    heads: Seq<HeadView>,
    i: int,
    first: MatchStep,
    same: ProfileManager,
    active: Option<String>,
    next: ProfileManager,
    others: Seq<HeadView>,
    k: int,
    second: MatchStep,
    last: ProfileManager,
)
    requires
        starts_with(executor, restored, start),
        fits_first(profiles, heads, i),
        matches_outputs(start, profiles, heads, first, same),
        notes_activation(same, profiles[i].name@, true, active, next),
        fits_first(profiles, others, k),
        profiles[k].name@ != profiles[i].name@,
        matches_outputs(next, profiles, others, second, last),
    ensures
        first == (MatchStep::Activate {
            profile: i as usize,
            restore_saved: false,
            skip_wallpaper: restored matches Ok(done) && done,
        }),
        second == (MatchStep::Activate {
            profile: k as usize,
            restore_saved: false,
            skip_wallpaper: false,
        }),
{
    the_first_fitting_profile_becomes_active(
        start.current_profile,
        start.last_applied_profile,
        start.wallpaper_restored,
        profiles,
        heads,
        i,
    );
    another_profile_shows_its_own_wallpaper(
        start.current_profile,
        start.last_applied_profile,
        start.wallpaper_restored,
        profiles,
        heads,
    );
    the_first_fitting_profile_becomes_active(
        next.current_profile,
        next.last_applied_profile,
        next.wallpaper_restored,
        profiles,
        others,
        k,
    );
    another_profile_shows_its_own_wallpaper(
        next.current_profile,
        next.last_applied_profile,
        next.wallpaper_restored,
        profiles,
        others,
    );
}

/// A profile that newly fits, which is neither active nor the one applied last, is activated with its own
/// wallpaper, unless one was restored at the start and no profile was active since: what is done includes
/// showing the image of the profile, or one from its directory.
pub proof fn a_newly_fitting_profile_shows_its_wallpaper(
    before: ProfileManager,
    profiles: Seq<Profile>,
    heads: Seq<HeadView>,
    i: int,
    step: MatchStep,
    after: ProfileManager,
)
    requires
        fits_first(profiles, heads, i),
        matches_outputs(before, profiles, heads, step, after),
        before.current_profile is None || before.current_profile->0@ != profiles[i].name@,
        before.last_applied_profile is None || before.last_applied_profile->0@ != profiles[i].name@,
        !before.wallpaper_restored,
    ensures
        step == (MatchStep::Activate {
            profile: i as usize,
            restore_saved: false,
            skip_wallpaper: false,
        }),
        ({
            let steps = activation(profiles[i], step->skip_wallpaper);
            &&& profiles[i].wallpaper_dir matches Some(dir) ==> steps.contains(
                StepView::PickWallpaper(dir@),
            )
            &&& profiles[i].wallpaper_dir is None ==> (profiles[i].wallpaper matches Some(path)
                ==> steps.contains(StepView::SetWallpaper(path@)))
        }),
{
    the_first_fitting_profile_becomes_active(
        before.current_profile,
        before.last_applied_profile,
        before.wallpaper_restored,
        profiles,
        heads,
        i,
    );
    another_profile_shows_its_own_wallpaper(
        before.current_profile,
        before.last_applied_profile,
        before.wallpaper_restored,
        profiles,
        heads,
    );
    a_profile_is_activated_in_order(profiles[i], false);
    let steps = activation(profiles[i], false);
    if steps.len() > 1 {
        assert(steps.contains(steps[1]));
    }
}

} // verus!
