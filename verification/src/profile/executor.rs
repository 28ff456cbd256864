//! Activates a profile: displays, wallpaper and commands.

use crate::awww::client::texts;
use crate::awww::restore::{image_files, WallpaperRestore};
use crate::awww::{
    remembering, restoring, showing, wallpaper_step_views, AwwwManager, WallpaperStep,
};
use crate::config::Profile;
use crate::number::{append_signed, signed_decimal};
use crate::text::{chars_of, is_space, is_space_char, quoted, slice_of, string_of};
use crate::wayland::output::{
    is_plan, output_message, OutputError, OutputManager, ProfilePlan, Purpose, Submission,
};
use rand::seq::SliceRandom;
use vstd::prelude::*;

verus! {

/// Activates profiles, with wallpapers if there is something to show them.
pub struct ProfileExecutor {
    pub awww_manager: Option<AwwwManager>,
}

impl Default for ProfileExecutor {
    /// An executor that shows no wallpapers.
    fn default() -> (executor: ProfileExecutor)
        ensures
            executor.awww_manager is None,
    {
        ProfileExecutor::new()
    }
}

// ---------------------------------------------------------------------------------------------
// Steps
// ---------------------------------------------------------------------------------------------

/// One thing to do in order to activate a profile.
#[derive(Clone, Debug)]
pub enum ActivationStep {
    /// Ask the compositor for what the profile says. If that fails, nothing else is done and the
    /// profile is not active.
    ConfigureDisplays,
    /// Show one of the images in this directory.
    PickWallpaper(String),
    /// Show this image.
    SetWallpaper(String),
    /// Run this command.
    Run(String),
}

/// A step as a mathematical value.
pub enum StepView {
    ConfigureDisplays,
    PickWallpaper(Seq<char>),
    SetWallpaper(Seq<char>),
    Run(Seq<char>),
}

impl View for ActivationStep {
    type V = StepView;

    open spec fn view(&self) -> StepView {
        match *self {
            ActivationStep::ConfigureDisplays => StepView::ConfigureDisplays,
            ActivationStep::PickWallpaper(dir) => StepView::PickWallpaper(dir@),
            ActivationStep::SetWallpaper(path) => StepView::SetWallpaper(path@),
            ActivationStep::Run(command) => StepView::Run(command@),
        }
    }
}

/// Steps as mathematical values.
pub open spec fn step_views(steps: Seq<ActivationStep>) -> Seq<StepView> {
    Seq::new(steps.len(), |i: int| steps[i]@)
}

/// What is done about the wallpaper of a profile. A directory takes precedence over an image.
pub open spec fn wallpaper_steps(profile: Profile, skip_wallpaper: bool) -> Seq<StepView> {
    if skip_wallpaper {
        seq![]
    } else {
        match (profile.wallpaper_dir, profile.wallpaper) {
            (Some(dir), _) => seq![StepView::PickWallpaper(dir@)],
            (None, Some(path)) => seq![StepView::SetWallpaper(path@)],
            (None, None) => seq![],
        }
    }
}

/// What is done in order to activate a profile: first the displays, then the wallpaper unless it is to
/// stay, then the commands.
pub open spec fn activation(profile: Profile, skip_wallpaper: bool) -> Seq<StepView> {
    seq![StepView::ConfigureDisplays] + wallpaper_steps(profile, skip_wallpaper) + Seq::new(
        profile.commands@.len(),
        |i: int| StepView::Run(profile.commands@[i]@),
    )
}

/// What to do after a step.
#[derive(Clone, Copy, PartialEq, Eq, Debug, Structural)]
pub enum AfterStep {
    /// Go on with the next step; the profile is active after the last one.
    Continue,
    /// Do no more; the profile is not active.
    Abandon,
}

/// What to do after a step, given whether it has succeeded: only the displays matter.
pub open spec fn after_step(step: StepView, success: bool) -> AfterStep {
    if step is ConfigureDisplays && !success {
        AfterStep::Abandon
    } else {
        AfterStep::Continue
    }
}

/// What is to be done in order to configure the displays of a profile.
#[derive(Clone, Debug)]
pub enum DisplayStep {
    /// Nothing: the compositor offers no output management.
    Skip,
    /// Nothing: the outputs are as the profile says already.
    Configured,
    /// Nothing: the profile cannot be applied.
    Rejected,
    /// Nothing: the compositor cannot be asked, for this reason.
    Fail(String),
    /// Submit this.
    Submit(Submission),
}

/// `step` is what is to be done about a plan.
pub open spec fn follows_plan(step: DisplayStep, plan: Result<ProfilePlan, OutputError>) -> bool {
    match plan {
        Ok(ProfilePlan::Settled(true)) => step is Configured,
        Ok(ProfilePlan::Settled(false)) => step is Rejected,
        Ok(ProfilePlan::Submit(submission)) => step == DisplayStep::Submit(submission),
        Err(error) => step matches DisplayStep::Fail(message) && message@ == output_message(error),
    }
}

impl DisplayStep {
    /// Why the displays are not configured, given whether the compositor has accepted what was submitted,
    /// if anything was. Without output management there is nothing to fail at.
    pub open spec fn fault(self, accepted: bool) -> Option<Seq<char>> {
        match self {
            DisplayStep::Skip => None,
            DisplayStep::Configured => None,
            DisplayStep::Rejected => Some("Display configuration failed"@),
            DisplayStep::Fail(message) => Some(message@),
            DisplayStep::Submit(_) => if accepted {
                None
            } else {
                Some("Display configuration failed"@)
            },
        }
    }

    /// What it comes to, given whether the compositor has accepted what was submitted, if anything was.
    pub fn done(&self, accepted: bool) -> (r: Result<(), String>)
        ensures
            match self.fault(accepted) {
                None => r is Ok,
                Some(text) => r matches Err(message) && message@ == text,
            },
    {
        match self {
            DisplayStep::Skip => Ok(()),
            DisplayStep::Configured => Ok(()),
            DisplayStep::Rejected => Err("Display configuration failed".to_owned()),
            DisplayStep::Fail(message) => Err(message.clone()),
            DisplayStep::Submit(_) => {
                if accepted {
                    Ok(())
                } else {
                    Err("Display configuration failed".to_owned())
                }
            },
        }
    }
}

impl ActivationStep {
    /// What to do after the step, given whether it has succeeded: only the displays matter.
    pub fn done(&self, success: bool) -> (next: AfterStep)
        ensures
            next == after_step(self@, success),
    {
        match self {
            ActivationStep::ConfigureDisplays => {
                if success {
                    AfterStep::Continue
                } else {
                    AfterStep::Abandon
                }
            },
            _ => AfterStep::Continue,
        }
    }
}

// ---------------------------------------------------------------------------------------------
// Wallpapers
// ---------------------------------------------------------------------------------------------

/// What to do about restoring the remembered wallpaper.
#[derive(Clone, Copy, PartialEq, Eq, Debug, Structural)]
pub enum RestoreStep {
    /// No more; it was restored or not.
    Done(bool),
    /// Wait this many milliseconds, then try again.
    TryAgain { wait_ms: u64, attempt: u32 },
}

/// What to do after an attempt to restore the remembered wallpaper.
pub open spec fn restore_step(attempt: u32, outcome: Result<bool, ()>) -> RestoreStep {
    match outcome {
        Ok(restored) => RestoreStep::Done(restored),
        Err(()) => if attempt >= 20 {
            RestoreStep::Done(false)
        } else {
            RestoreStep::TryAgain { wait_ms: 250, attempt: (attempt + 1) as u32 }
        },
    }
}

/// `rand`'s `SliceRandom::choose` with the generator of the thread: one of the images, which one is
/// left to chance, and none only if there is none.
#[verifier::external_body]
fn choose_image(images: &Vec<String>) -> (chosen: Option<String>)
    ensures
        chosen is None <==> images@.len() == 0,
        chosen matches Some(image) ==> exists|i: int|
            0 <= i < images@.len() && (#[trigger] images@[i])@ == image@,
{
    images.choose(&mut rand::thread_rng()).cloned()
}

impl ProfileExecutor {
    /// An executor that shows no wallpapers.
    pub fn new() -> (executor: ProfileExecutor)
        ensures
            executor.awww_manager is None,
    {
        ProfileExecutor { awww_manager: None }
    }

    /// An executor that shows wallpapers if there is a manager for them.
    pub fn with_awww(awww_manager: Option<AwwwManager>) -> (executor: ProfileExecutor)
        ensures
            executor.awww_manager == awww_manager,
    {
        ProfileExecutor { awww_manager }
    }

    /// What to do after an attempt to restore the remembered wallpaper. An attempt that fails is made
    /// again, up to twenty times a quarter of a second apart, while the surfaces of rebuilt outputs
    /// come up; if nothing is remembered there is no use in that.
    pub fn restore_saved_wallpaper(attempt: u32, outcome: Result<bool, ()>) -> (step: RestoreStep)
        requires
            attempt >= 1,
        ensures
            step == restore_step(attempt, outcome),
    {
        match outcome {
            Ok(restored) => RestoreStep::Done(restored),
            Err(()) => {
                if attempt >= 20 {
                    RestoreStep::Done(false)
                } else {
                    RestoreStep::TryAgain { wait_ms: 250, attempt: attempt + 1 }
                }
            },
        }
    }

    /// What is to be done in order to activate a profile, the wallpaper staying as it is if asked for.
    pub fn apply_profile(profile: &Profile, skip_wallpaper: bool) -> (steps: Vec<ActivationStep>)
        ensures
            step_views(steps@) == activation(*profile, skip_wallpaper),
    {
        let mut steps: Vec<ActivationStep> = Vec::new();
        steps.push(ActivationStep::ConfigureDisplays);
        if !skip_wallpaper {
            if let Some(dir) = &profile.wallpaper_dir {
                steps.push(ActivationStep::PickWallpaper(dir.clone()));
            } else if let Some(path) = &profile.wallpaper {
                steps.push(ActivationStep::SetWallpaper(path.clone()));
            }
        }
        let ghost front = seq![StepView::ConfigureDisplays] + wallpaper_steps(
            *profile,
            skip_wallpaper,
        );
        let ghost runs = Seq::new(
            profile.commands@.len(),
            |i: int| StepView::Run(profile.commands@[i]@),
        );
        assert(step_views(steps@) =~= front + runs.take(0));
        for i in 0..profile.commands.len()
            invariant
                runs == Seq::new(
                    profile.commands@.len(),
                    |i: int| StepView::Run(profile.commands@[i]@),
                ),
                step_views(steps@) == front + runs.take(i as int),
        {
            let ghost before = step_views(steps@);
            steps.push(ActivationStep::Run(profile.commands[i].clone()));
            assert(step_views(steps@) =~= before.push(runs[i as int]));
            assert(runs.take(i + 1) =~= runs.take(i as int).push(runs[i as int]));
            assert(step_views(steps@) =~= front + runs.take(i + 1));
        }
        assert(runs.take(runs.len() as int) =~= runs);
        assert(step_views(steps@) =~= activation(*profile, skip_wallpaper));
        steps
    }

    /// What is to be done in order to configure the displays of a profile.
    pub fn configure_displays(outputs: &mut OutputManager, profile: &Profile) -> (step: DisplayStep)
        requires
            old(outputs).wf(),
        ensures
            final(outputs).wf(),
            final(outputs).wayland_client is Some <==> old(outputs).wayland_client is Some,
            !old(outputs).available() ==> step is Skip && *final(outputs) == *old(outputs),
            old(outputs).available() ==> exists|plan: Result<ProfilePlan, OutputError>|
                #[trigger] is_plan(
                    old(outputs).wayland_client->0@,
                    *profile,
                    Purpose::Apply,
                    plan,
                    final(outputs).wayland_client->0@,
                ) && follows_plan(step, plan),
    {
        if !outputs.is_available() {
            return DisplayStep::Skip;
        }
        let plan = outputs.apply_profile(profile);
        let ghost made = plan;
        assert(is_plan(
            old(outputs).wayland_client->0@,
            *profile,
            Purpose::Apply,
            made,
            outputs.wayland_client->0@,
        ));
        let step = match plan {
            Ok(ProfilePlan::Settled(settled)) => {
                if settled {
                    DisplayStep::Configured
                } else {
                    DisplayStep::Rejected
                }
            },
            Ok(ProfilePlan::Submit(submission)) => DisplayStep::Submit(submission),
            Err(error) => DisplayStep::Fail(error.message()),
        };
        assert(follows_plan(step, made));
        step
    }

    /// One of the images in a directory, given the paths in it and whether each is that of a file.
    /// Which one is left to chance. The error names the directory if it holds none.
    pub fn pick_random_wallpaper(dir: &str, entries: &Vec<(String, bool)>) -> (picked: Result<
        String,
        String,
    >)
        ensures
            picked is Ok <==> image_files(entries@).len() > 0,
            picked matches Ok(path) ==> image_files(entries@).contains(path@),
            picked matches Err(message) ==> message@ == "No image files found in wallpaper_dir '"@
                + dir@ + "'"@,
    {
        let images = WallpaperRestore::wallpapers_among(entries);
        match choose_image(&images) {
            Some(image) => {
                proof {
                    let k = choose|k: int|
                        0 <= k < images@.len() && (#[trigger] images@[k])@ == image@;
                    assert(image_files(entries@)[k] == image@);
                }
                Ok(image)
            },
            None => Err(quoted("No image files found in wallpaper_dir '", dir, "'")),
        }
    }

    /// What is to be done in order to show an image, given whether it exists: nothing if there is
    /// nothing to show it. The error names an image that does not exist.
    pub fn set_wallpaper(&self, expanded_path: &str, exists: bool) -> (plan: Result<
        Vec<WallpaperStep>,
        String,
    >)
        ensures
            shows_image(self.awww_manager is Some, expanded_path@, exists, plan),
    {
        match &self.awww_manager {
            None => Ok(Vec::new()),
            Some(manager) => {
                if exists {
                    Ok(manager.set_wallpaper(expanded_path))
                } else {
                    let mut message = "Wallpaper file not found: ".to_owned();
                    message.append(expanded_path);
                    Err(message)
                }
            },
        }
    }

    /// What is to be done in order to show the remembered image, and whether that restores one. Without
    /// something to show it there is nothing to do.
    pub fn restore_wallpaper(&self, saved: &Option<String>) -> (plan: (Vec<WallpaperStep>, bool))
        ensures
            restores_image(self.awww_manager is Some, *saved, plan),
    {
        match &self.awww_manager {
            Some(manager) => manager.restore_wallpaper(saved),
            None => {
                let steps: Vec<WallpaperStep> = Vec::new();
                assert(wallpaper_step_views(steps@) =~= seq![]);
                (steps, false)
            },
        }
    }

    /// What is to be done in order to remember the image that is shown, and whether there is one.
    pub fn save_current_wallpaper(&self, shown: &Option<String>) -> (plan: (
        Vec<WallpaperStep>,
        bool,
    ))
        ensures
            remembers_image(self.awww_manager is Some, *shown, plan),
    {
        match &self.awww_manager {
            Some(manager) => manager.save_current_wallpaper(shown),
            None => {
                let steps: Vec<WallpaperStep> = Vec::new();
                assert(wallpaper_step_views(steps@) =~= seq![]);
                (steps, false)
            },
        }
    }

    // -----------------------------------------------------------------------------------------
    // Commands
    // -----------------------------------------------------------------------------------------

    /// Judges how a command has ended, given its exit code if it has one and what it wrote.
    pub fn execute_single_command(
        command: &str,
        success: bool,
        code: Option<i32>,
        stderr: &str,
    ) -> (r: Result<(), String>)
        ensures
            ends_command(command@, success, code, stderr@, r),
    {
        if success {
            return Ok(());
        }
        let mut message = "Command failed (exit code: ".to_owned();
        append_signed(
            &mut message,
            match code {
                Some(code) => code,
                None => -1,
            },
        );
        message.append("): ");
        message.append(command);
        message.append("\nStderr: ");
        message.append(stderr);
        Err(message)
    }

    /// The name of the program that a command runs.
    pub fn command_name(command: &str) -> (name: String)
        ensures
            name@ == program_of(command@),
    {
        let chars = chars_of(command);
        let mut from: usize = 0;
        assert(chars@.skip(0) =~= command@);
        while from < chars.len() && is_space_char(chars[from])
            invariant
                from <= chars@.len(),
                first_word(command@) == first_word(chars@.skip(from as int)),
            decreases chars@.len() - from,
        {
            assert(chars@.skip(from as int).skip(1) =~= chars@.skip(from + 1));
            from = from + 1;
        }
        if from == chars.len() {
            return command.to_owned();
        }
        let mut to: usize = from;
        assert(chars@.skip(from as int).take(0) =~= Seq::empty());
        while to < chars.len() && !is_space_char(chars[to])
            invariant
                from <= to <= chars@.len(),
                leading_word(chars@.skip(from as int)) == chars@.subrange(from as int, to as int)
                    + leading_word(chars@.skip(to as int)),
            decreases chars@.len() - to,
        {
            assert(chars@.skip(to as int).skip(1) =~= chars@.skip(to + 1));
            assert(chars@.subrange(from as int, to + 1) =~= chars@.subrange(from as int, to as int)
                + seq![chars@[to as int]]);
            assert(chars@.subrange(from as int, to as int) + (seq![chars@[to as int]]
                + leading_word(chars@.skip(to + 1))) =~= chars@.subrange(from as int, to + 1)
                + leading_word(chars@.skip(to + 1)));
            to = to + 1;
        }
        let word = slice_of(&chars, from, to);
        assert(leading_word(chars@.skip(to as int)) =~= Seq::empty());
        assert(word@ =~= leading_word(chars@.skip(from as int)));
        string_of(&word)
    }

    /// The names of the programs of a profile that were not found, given for each command whether its
    /// program was.
    pub fn validate_profile_commands(profile: &Profile, found: &Vec<bool>) -> (missing: Vec<String>)
        requires
            found@.len() == profile.commands@.len(),
        ensures
            texts(missing@) == missing_programs(profile.commands@, found@),
    {
        let mut missing: Vec<String> = Vec::new();
        assert(profile.commands@.take(0) =~= Seq::empty());
        assert(texts(missing@) =~= Seq::empty());
        for i in 0..profile.commands.len()
            invariant
                found@.len() == profile.commands@.len(),
                texts(missing@) == missing_programs(
                    profile.commands@.take(i as int),
                    found@.take(i as int),
                ),
        {
            let ghost before = texts(missing@);
            assert(profile.commands@.take(i + 1).drop_last() =~= profile.commands@.take(i as int));
            assert(found@.take(i + 1).drop_last() =~= found@.take(i as int));
            if !found[i] {
                missing.push(ProfileExecutor::command_name(profile.commands[i].as_str()));
                assert(texts(missing@) =~= before.push(program_of(profile.commands@[i as int]@)));
            }
        }
        assert(profile.commands@.take(profile.commands@.len() as int) =~= profile.commands@);
        assert(found@.take(found@.len() as int) =~= found@);
        missing
    }
}

/// `plan` is what is to be done in order to show an image, given whether there is something to show it and
/// whether it exists.
pub open spec fn shows_image(
    able: bool,
    path: Seq<char>,
    exists: bool,
    plan: Result<Vec<WallpaperStep>, String>,
) -> bool {
    if !able {
        plan matches Ok(steps) && steps@.len() == 0
    } else if exists {
        plan matches Ok(steps) && wallpaper_step_views(steps@) == showing(path)
    } else {
        plan matches Err(message) && message@ == "Wallpaper file not found: "@ + path
    }
}

/// `plan` is what is to be done in order to show the remembered image, and whether that restores one.
pub open spec fn restores_image(
    able: bool,
    saved: Option<String>,
    plan: (Vec<WallpaperStep>, bool),
) -> bool {
    &&& plan.1 == (able && saved is Some)
    &&& wallpaper_step_views(plan.0@) == match saved {
        Some(path) if able => restoring(path@),
        _ => seq![],
    }
}

/// `plan` is what is to be done in order to remember the image that is shown, and whether there is one.
pub open spec fn remembers_image(
    able: bool,
    shown: Option<String>,
    plan: (Vec<WallpaperStep>, bool),
) -> bool {
    &&& plan.1 == (able && shown is Some)
    &&& wallpaper_step_views(plan.0@) == match shown {
        Some(path) if able => remembering(path@),
        _ => seq![],
    }
}

/// `r` is what it means that a command has ended.
pub open spec fn ends_command(
    command: Seq<char>,
    success: bool,
    code: Option<i32>,
    stderr: Seq<char>,
    r: Result<(), String>,
) -> bool {
    &&& success ==> r is Ok
    &&& !success ==> (r matches Err(message) && message@ == command_failure(
        command,
        match code {
            Some(code) => code as int,
            None => -1,
        },
        stderr,
    ))
}

/// The text about a command that has failed.
pub open spec fn command_failure(command: Seq<char>, code: int, stderr: Seq<char>) -> Seq<char> {
    "Command failed (exit code: "@ + signed_decimal(code) + "): "@ + command + "\nStderr: "@ + stderr
}

/// The characters of `s` up to the first white space.
pub open spec fn leading_word(s: Seq<char>) -> Seq<char>
    decreases s.len(),
{
    if s.len() == 0 || is_space(s[0]) {
        Seq::empty()
    } else {
        seq![s[0]] + leading_word(s.skip(1))
    }
}

/// The first word of `s`, if it is not blank.
pub open spec fn first_word(s: Seq<char>) -> Option<Seq<char>>
    decreases s.len(),
{
    if s.len() == 0 {
        None
    } else if is_space(s[0]) {
        first_word(s.skip(1))
    } else {
        Some(leading_word(s))
    }
}

/// The name of the program that a command runs: its first word, or all of a blank command.
pub open spec fn program_of(command: Seq<char>) -> Seq<char> {
    match first_word(command) {
        Some(word) => word,
        None => command,
    }
}

/// The names of the programs that were not found, in the order of their commands.
pub open spec fn missing_programs(commands: Seq<String>, found: Seq<bool>) -> Seq<Seq<char>>
    decreases commands.len(),
{
    if commands.len() == 0 {
        Seq::empty()
    } else {
        let earlier = missing_programs(commands.drop_last(), found.drop_last());
        if found.last() {
            earlier
        } else {
            earlier.push(program_of(commands.last()@))
        }
    }
}

} // verus!
