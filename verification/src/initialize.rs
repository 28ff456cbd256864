//! The first configuration: the connected outputs as they are.

use crate::config::{
    config_fault, config_without_fault_is_valid, valid_config, valid_output, Config, ConfigError,
    OutputConfig, Profile,
};
use crate::profile::matcher::{
    a_pattern_fits_itself, choices, first_free, head_views, resolution, selects,
};
use crate::scale::apart_is_symmetric;
use crate::wayland::output::{
    asked, first_modeless, has_size, is_modeless, output_settled, profile_settled, the_best_mode_is_offered,
};
use crate::wayland::persistent::{persistent_mode, persistent_text};
use crate::wayland::protocols::{same_picture, HeadView, OutputHead, OutputMode};
use crate::wayland::readback::{a_written_mode_is_asked_for, a_written_mode_is_read_back};
use vstd::prelude::*;

verus! {

/// Why there is no first configuration.
#[derive(Clone, Debug)]
pub enum InitialError {
    /// No output is connected.
    NoOutputs,
    /// The output of this name is enabled without being known to be in a mode.
    NoCurrentMode { output: String },
    /// What the compositor says of an output does not go into a configuration.
    Invalid(ConfigError),
}

/// The settings say of an output what it is: its name, whether it is enabled, the mode it is in if it
/// is, place, scale, transform and adaptive sync.
pub open spec fn records(output: OutputConfig, head: HeadView) -> bool {
    &&& output.name@ == head.name
    &&& output.enabled == head.enabled
    &&& match output.mode {
        Some(text) => head.enabled && head.current_mode is Some && text@ == persistent_text(
            head.current_mode->0,
        ),
        None => !head.enabled,
    }
    &&& match output.position {
        Some(place) => head.position == Some((place@[0], place@[1])),
        None => head.position is None,
    }
    &&& output.scale == Some(head.scale)
    &&& output.transform == Some(head.transform)
    &&& output.adaptive_sync == head.adaptive_sync
}

/// The profile has nothing but settings, which say of each output what it is.
pub open spec fn records_outputs(profile: Profile, heads: Seq<HeadView>) -> bool {
    &&& profile.name@ == "default"@
    &&& profile.outputs@.len() == heads.len()
    &&& forall|i: int| 0 <= i < heads.len() ==> records(#[trigger] profile.outputs@[i], heads[i])
    &&& profile.commands@.len() == 0
    &&& profile.wallpaper is None
    &&& profile.wallpaper_dir is None
}

/// The configuration has one profile, which says of each output what it is.
pub open spec fn is_initial(config: Config, heads: Seq<HeadView>) -> bool {
    config.profiles@.len() == 1 && records_outputs(config.profiles@[0], heads)
}

/// Whether a mode is one that a display can show.
pub open spec fn is_proper(mode: OutputMode) -> bool {
    mode.width > 0 && mode.height > 0 && mode.refresh_mhz > 0
}

/// Whether everything about the outputs goes into a configuration: there are some, each has a name of
/// its own and a scale in range, and each enabled one is in a proper mode.
pub open spec fn recordable(heads: Seq<HeadView>) -> bool {
    &&& heads.len() > 0
    &&& forall|i: int, j: int|
        0 <= i < j < heads.len() ==> (#[trigger] heads[i]).name != (#[trigger] heads[j]).name
    &&& forall|i: int|
        0 <= i < heads.len() ==> {
            &&& (#[trigger] heads[i]).name.len() > 0
            &&& heads[i].scale.in_range()
            &&& heads[i].enabled ==> (heads[i].current_mode matches Some(mode) && is_proper(mode))
        }
}

/// The first configuration of outputs that can be recorded is valid.
pub proof fn an_initial_configuration_is_valid(config: Config, heads: Seq<HeadView>)
    requires
        is_initial(config, heads),
        recordable(heads),
    ensures
        valid_config(config),
{
    let profile = config.profiles@[0];
    reveal_strlit("default");
    assert forall|i: int| 0 <= i < profile.outputs.len() implies valid_output(
        #[trigger] profile.outputs@[i],
    ) by {
        let head = heads[i];
        assert(records(profile.outputs@[i], head));
        if head.enabled {
            a_written_mode_is_read_back(head.current_mode->0);
        }
    }
    assert forall|i: int, j: int|
        #![trigger profile.outputs@[i], profile.outputs@[j]]
        0 <= i < j < profile.outputs.len() implies profile.outputs@[i].name@
        != profile.outputs@[j].name@ by {
        assert(records(profile.outputs@[i], heads[i]));
        assert(records(profile.outputs@[j], heads[j]));
    }
}

/// The places from zero up to `n`.
pub open spec fn in_order(n: nat) -> Seq<int> {
    Seq::new(n, |i: int| i)
}

proof fn lemma_next_in_order(selector: Seq<char>, heads: Seq<HeadView>, n: nat, from: int)
    requires
        0 <= from <= n < heads.len(),
        selects(selector, heads[n as int]),
    ensures
        first_free(selector, heads, in_order(n), from) == Some(n as int),
    decreases n - from,
{
    let taken = in_order(n);
    if from < n {
        assert(taken[from] == from);
        lemma_next_in_order(selector, heads, n, from + 1);
    } else {
        assert(!taken.contains(n as int));
    }
}

proof fn lemma_choices_in_order(profile: Profile, heads: Seq<HeadView>, n: nat)
    requires
        records_outputs(profile, heads),
        n <= heads.len(),
    ensures
        choices(profile.outputs@, heads, n) == Some(in_order(n)),
    decreases n,
{
    if n == 0 {
        assert(in_order(0) =~= Seq::empty());
    } else {
        let k = (n - 1) as nat;
        lemma_choices_in_order(profile, heads, k);
        assert(records(profile.outputs@[k as int], heads[k as int]));
        a_pattern_fits_itself(heads[k as int].name);
        lemma_next_in_order(profile.outputs@[k as int].name@, heads, k, 0);
        assert(in_order(k).push(k as int) =~= in_order(n));
    }
}

/// The first profile fits the outputs that it was made from, each setting the output that it was made
/// from, whatever their names are.
pub proof fn an_initial_profile_fits(profile: Profile, heads: Seq<HeadView>)
    requires
        records_outputs(profile, heads),
    ensures
        resolution(profile, heads) == Some(in_order(heads.len())),
{
    lemma_choices_in_order(profile, heads, heads.len());
}

/// The outputs are as the first profile says, so starting with it changes nothing.
pub proof fn an_initial_profile_is_settled(profile: Profile, heads: Seq<HeadView>)
    requires
        records_outputs(profile, heads),
        recordable(heads),
        forall|i: int|
            0 <= i < heads.len() && (#[trigger] heads[i]).enabled ==> heads[i].modes.contains(
                heads[i].current_mode->0,
            ),
    ensures
        profile_settled(profile, heads),
{
    an_initial_profile_fits(profile, heads);
    assert forall|i: int| 0 <= i < profile.outputs@.len() implies output_settled(
        #[trigger] profile.outputs@[i],
        heads[in_order(heads.len())[i]],
    ) by {
        lemma_settled(profile.outputs@[i], heads[i]);
    }
}

proof fn lemma_settled(output: OutputConfig, head: HeadView)
    requires
        records(output, head),
        head.enabled ==> (head.current_mode matches Some(mode) && is_proper(mode)
            && head.modes.contains(mode)),
    ensures
        output_settled(output, head),
{
    apart_is_symmetric(head.scale, head.scale);
    if head.enabled {
        let mode = head.current_mode->0;
        let (w, h) = (mode.width as int, mode.height as int);
        a_written_mode_is_asked_for(mode);
        the_best_mode_is_offered(head.modes, persistent_text(mode));
        let k = choose|k: int| 0 <= k < head.modes.len() && head.modes[k] == mode;
        assert(has_size(head.modes[k], w, h));
    }
}

/// The settings that say of an output what it is.
fn recorded(head: &OutputHead) -> (output: OutputConfig)
    requires
        !is_modeless(head@),
    ensures
        records(output, head@),
{
    let mode = if !head.enabled {
        None
    } else {
        match &head.current_mode {
            Some(mode) => Some(persistent_mode(mode)),
            None => None,
        }
    };
    let position = match head.position {
        Some((x, y)) => Some([x, y]),
        None => None,
    };
    OutputConfig {
        name: head.name.clone(),
        enabled: head.enabled,
        mode,
        scale: Some(head.scale),
        position,
        transform: Some(head.transform),
        adaptive_sync: head.adaptive_sync,
    }
}

/// The first configuration for the connected outputs: one profile, which says of each output what it
/// is.
pub fn initial_config(heads: &Vec<&OutputHead>) -> (r: Result<Config, InitialError>)
    ensures
        match r {
            Ok(config) => is_initial(config, head_views(heads@)) && valid_config(config),
            Err(InitialError::NoOutputs) => heads@.len() == 0,
            Err(InitialError::NoCurrentMode { output }) => first_modeless(
                head_views(heads@),
                0,
            ) matches Some(i) && output@ == head_views(heads@)[i].name,
            Err(InitialError::Invalid(fault)) => {
                &&& heads@.len() > 0
                &&& first_modeless(head_views(heads@), 0) is None
                &&& exists|config: Config|
                    #[trigger] is_initial(config, head_views(heads@)) && config_fault(config)
                        == Some(fault)
            },
        },
        heads@.len() == 0 ==> r is Err,
        first_modeless(head_views(heads@), 0) is Some ==> r is Err,
        recordable(head_views(heads@)) ==> r is Ok,
{
    let ghost views = head_views(heads@);
    if heads.len() == 0 {
        return Err(InitialError::NoOutputs);
    }
    let mut outputs: Vec<OutputConfig> = Vec::new();
    for i in 0..heads.len()
        invariant
            views == head_views(heads@),
            outputs@.len() == i,
            forall|k: int| 0 <= k < i ==> records(#[trigger] outputs@[k], views[k]),
            first_modeless(views, 0) == first_modeless(views, i as int),
    {
        let head: &OutputHead = heads[i];
        assert(views[i as int] == head@);
        if head.enabled && head.current_mode.is_none() {
            return Err(InitialError::NoCurrentMode { output: head.name.clone() });
        }
        outputs.push(recorded(head));
    }
    let mut profiles: Vec<Profile> = Vec::new();
    profiles.push(
        Profile {
            name: "default".to_owned(),
            outputs,
            commands: Vec::new(),
            wallpaper: None,
            wallpaper_dir: None,
        },
    );
    let config = Config { profiles };
    proof {
        assert(is_initial(config, views));
        config_without_fault_is_valid(config);
        if recordable(views) {
            an_initial_configuration_is_valid(config, views);
        }
    }
    match config.checked() {
        Ok(config) => Ok(config),
        Err(fault) => Err(InitialError::Invalid(fault)),
    }
}

/// Whatever becomes of an output, the settings that were made from it ask for what it was: whether it was
/// enabled and, if so, a mode of the size and rate it was in, its place, its transform, its scale and its
/// adaptive sync.
pub proof fn recorded_settings_ask_for_what_was(
    output: OutputConfig,
    head: HeadView,
    now: HeadView,
)
    requires
        records(output, head),
        head.enabled ==> (head.current_mode matches Some(mode) && is_proper(mode)
            && head.modes.contains(mode)),
        now.modes == head.modes,
    ensures
        ({
            let wanted = asked(output, now);
            &&& selects(output.name@, head)
            &&& wanted.enabled == head.enabled
            &&& wanted.position == head.position
            &&& wanted.transform == Some(head.transform)
            &&& wanted.scale == Some(head.scale)
            &&& wanted.adaptive_sync == head.adaptive_sync
            &&& head.enabled ==> (wanted.mode matches Some(mode) && same_picture(
                mode,
                head.current_mode->0,
            ))
        }),
{
    a_pattern_fits_itself(head.name);
    if head.enabled {
        let mode = head.current_mode->0;
        let (w, h) = (mode.width as int, mode.height as int);
        a_written_mode_is_asked_for(mode);
        the_best_mode_is_offered(head.modes, persistent_text(mode));
        let k = choose|k: int| 0 <= k < head.modes.len() && head.modes[k] == mode;
        assert(has_size(head.modes[k], w, h));
    }
}

} // verus!
