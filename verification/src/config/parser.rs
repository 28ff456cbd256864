//! Makes configurations.

use crate::config::types::{Config, OutputConfig, Profile};
use crate::config::{config_fault, valid_config, ConfigError};
use crate::profile::matcher::{
    a_profile_of_distinct_outputs_fits, a_star_selects_every_output, resolution,
};
use crate::wayland::protocols::HeadView;
use vstd::prelude::*;

verus! {

/// The output goes by this name, is enabled, and nothing else is asked of it.
pub open spec fn is_plain(output: OutputConfig, name: Seq<char>) -> bool {
    &&& output.name@ == name
    &&& output.enabled
    &&& output.mode is None
    &&& output.scale is None
    &&& output.position is None
    &&& output.transform is None
    &&& output.adaptive_sync is None
}

impl Config {
    /// A configuration with one profile, which fits any one output.
    pub fn new_default() -> (config: Config)
        ensures
            config.profiles@.len() == 1,
            config.profiles@[0].name@ == "default"@,
            config.profiles@[0].outputs@.len() == 1,
            is_plain(config.profiles@[0].outputs@[0], "*"@),
            config.profiles@[0].commands@.len() == 0,
            config.profiles@[0].wallpaper is None,
            config.profiles@[0].wallpaper_dir is None,
            valid_config(config),
            forall|head: HeadView|
                resolution(config.profiles@[0], seq![head]) == Some(seq![0int]),
    {
        proof {
            reveal_strlit("default");
            reveal_strlit("*");
        }
        let mut outputs: Vec<OutputConfig> = Vec::new();
        outputs.push(OutputConfig::new("*".to_owned()));
        let mut profiles: Vec<Profile> = Vec::new();
        profiles.push(
            Profile {
                name: "default".to_owned(),
                outputs,
                commands: Vec::new(),
                wallpaper: None,
                wallpaper_dir: None,
            },
        );
        proof {
            assert("*"@ =~= seq!['*']);
            assert forall|head: HeadView|
                resolution(profiles@[0], seq![head]) == Some(seq![0int]) by {
                let heads = seq![head];
                a_star_selects_every_output(head);
                a_profile_of_distinct_outputs_fits(profiles@[0], heads, seq![0int]);
            }
        }
        Config { profiles }
    }

    /// The configuration itself, if it is valid.
    pub fn checked(self) -> (r: Result<Config, ConfigError>)
        ensures
            match r {
                Ok(config) => valid_config(self) && config == self,
                Err(error) => !valid_config(self) && config_fault(self) == Some(error),
            },
    {
        match self.validate() {
            Ok(()) => Ok(self),
            Err(error) => Err(error),
        }
    }
}

impl OutputConfig {
    /// An enabled output of which nothing else is asked.
    pub fn new(name: String) -> (output: OutputConfig)
        ensures
            is_plain(output, name@),
    {
        OutputConfig {
            name,
            enabled: true,
            mode: None,
            scale: None,
            position: None,
            transform: None,
            adaptive_sync: None,
        }
    }
}

} // verus!
