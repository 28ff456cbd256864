//! Configurations, and the rules that a valid one keeps.

pub mod environment;
pub mod parser;
pub mod persistence;
pub mod types;

pub use environment::{expand_home, is_supported_image};
pub use types::{Config, OutputConfig, Profile, Transform};

use crate::number::{parse_unsigned, read_unsigned};
use crate::rate::{parse_rate, rate_in_millihertz, read_float, RateError};
use crate::text::{after, before, chars_of, find_char, first_at_is_the_first, split_once};
use vstd::prelude::*;

verus! {

/// What is wrong with the text of a mode.
#[derive(Clone, Copy, PartialEq, Eq, Debug, Structural)]
pub enum ModeError {
    /// There is more than one `@`.
    ManyRates,
    /// The resolution is not two numbers with an `x` between them.
    NotWidthByHeight,
    InvalidWidth,
    InvalidHeight,
    ZeroDimension,
    InvalidRefreshRate,
    /// The refresh rate is not finite, not positive, or too large.
    RefreshRateOutOfRange,
}

/// What is wrong with the settings of an output.
#[derive(Clone, Copy, PartialEq, Eq, Debug, Structural)]
pub enum OutputConfigError {
    EmptyName,
    InvalidMode(ModeError),
    /// The scale is not a number above zero and at most ten.
    ScaleOutOfRange,
}

/// What is wrong with a profile.
#[derive(Clone, Copy, PartialEq, Eq, Debug, Structural)]
pub enum ProfileError {
    EmptyName,
    NoOutputs,
    /// The output at this place has the selector of an earlier one.
    DuplicateOutput(usize),
    InvalidOutput(usize, OutputConfigError),
}

/// What is wrong with a configuration.
#[derive(Clone, Copy, PartialEq, Eq, Debug, Structural)]
pub enum ConfigError {
    NoProfiles,
    /// The profile at this place has the name of an earlier one.
    DuplicateProfile(usize),
    InvalidProfile(usize, ProfileError),
}

// ---------------------------------------------------------------------------------------------
// Modes
// ---------------------------------------------------------------------------------------------

/// A mode: width and height in pixels, and the refresh rate in millihertz if the text has one.
pub struct ModeReading {
    pub width: nat,
    pub height: nat,
    pub refresh: Option<nat>,
}

/// What the text of a mode, `WIDTHxHEIGHT` with an optional `@REFRESH`, says.
pub open spec fn read_mode(mode: Seq<char>) -> Result<ModeReading, ModeError> {
    let resolution = before(mode, '@');
    let refresh = after(mode, '@');
    let height_text = after(resolution, 'x');
    if refresh is Some && refresh->0.contains('@') {
        Err(ModeError::ManyRates)
    } else if height_text is None || height_text->0.contains('x') {
        Err(ModeError::NotWidthByHeight)
    } else {
        let width = read_unsigned(before(resolution, 'x'), u32::MAX as nat);
        let height = read_unsigned(height_text->0, u32::MAX as nat);
        if width is None {
            Err(ModeError::InvalidWidth)
        } else if height is None {
            Err(ModeError::InvalidHeight)
        } else if width->0 == 0 || height->0 == 0 {
            Err(ModeError::ZeroDimension)
        } else {
            match refresh {
                None => Ok(ModeReading { width: width->0, height: height->0, refresh: None }),
                Some(rate) => {
                    if read_float(rate) is None {
                        Err(ModeError::InvalidRefreshRate)
                    } else if rate_in_millihertz(rate) is None {
                        Err(ModeError::RefreshRateOutOfRange)
                    } else {
                        Ok(
                            ModeReading {
                                width: width->0,
                                height: height->0,
                                refresh: rate_in_millihertz(rate),
                            },
                        )
                    }
                },
            }
        }
    }
}

/// The reading that the parts of a parsed mode stand for.
pub open spec fn mode_reading(width: u32, height: u32, refresh: Option<u32>) -> ModeReading {
    ModeReading {
        width: width as nat,
        height: height as nat,
        refresh: match refresh {
            Some(millihertz) => Some(millihertz as nat),
            None => None,
        },
    }
}

fn contains_char(chars: &Vec<char>, c: char) -> (r: bool)
    ensures
        r == chars@.contains(c),
{
    let at = find_char(chars, c);
    proof {
        first_at_is_the_first(chars@, c);
    }
    at < chars.len()
}

/// Reads the text of a mode: width, height, and the refresh rate in millihertz.
pub fn parse_mode_text(mode: &str) -> (r: Result<(u32, u32, Option<u32>), ModeError>)
    ensures
        match r {
            Ok((width, height, refresh)) => read_mode(mode@) == Ok::<ModeReading, ModeError>(
                mode_reading(width, height, refresh),
            ),
            Err(error) => read_mode(mode@) == Err::<ModeReading, ModeError>(error),
        },
{
    let chars = chars_of(mode);
    let (resolution, refresh) = split_once(&chars, '@');
    if let Some(rate) = &refresh {
        if contains_char(rate, '@') {
            return Err(ModeError::ManyRates);
        }
    }
    let (width_text, rest) = split_once(&resolution, 'x');
    let height_text = match rest {
        Some(height_text) => height_text,
        None => {
            return Err(ModeError::NotWidthByHeight);
        },
    };
    if contains_char(&height_text, 'x') {
        return Err(ModeError::NotWidthByHeight);
    }
    let width: u64 = match parse_unsigned(&width_text, 0xffff_ffff) {
        Some(width) => width,
        None => {
            return Err(ModeError::InvalidWidth);
        },
    };
    let height: u64 = match parse_unsigned(&height_text, 0xffff_ffff) {
        Some(height) => height,
        None => {
            return Err(ModeError::InvalidHeight);
        },
    };
    if width == 0 || height == 0 {
        return Err(ModeError::ZeroDimension);
    }
    match refresh {
        None => Ok((width as u32, height as u32, None)),
        Some(rate) => match parse_rate(&rate) {
            Ok(millihertz) => Ok((width as u32, height as u32, Some(millihertz))),
            Err(RateError::NotANumber) => Err(ModeError::InvalidRefreshRate),
            Err(RateError::OutOfRange) => Err(ModeError::RefreshRateOutOfRange),
        },
    }
}

// ---------------------------------------------------------------------------------------------
// Validity
// ---------------------------------------------------------------------------------------------

/// The settings of an output are valid.
pub open spec fn valid_output(output: OutputConfig) -> bool {
    &&& output.name@.len() > 0
    &&& output.mode is Some ==> read_mode(output.mode->0@) is Ok
    &&& output.scale is Some ==> output.scale->0.in_range()
}

/// A profile is valid: it has a name and outputs, no selector occurs twice, and the settings of
/// every output are valid.
pub open spec fn valid_profile(profile: Profile) -> bool {
    &&& profile.name@.len() > 0
    &&& profile.outputs.len() > 0
    &&& forall|i: int, j: int|
        #![trigger profile.outputs@[i], profile.outputs@[j]]
        0 <= i < j < profile.outputs.len() ==> profile.outputs@[i].name@
            != profile.outputs@[j].name@
    &&& forall|i: int|
        0 <= i < profile.outputs.len() ==> valid_output(#[trigger] profile.outputs@[i])
}

/// A configuration is valid: it has profiles, no name occurs twice, and every profile is valid.
pub open spec fn valid_config(config: Config) -> bool {
    &&& config.profiles.len() > 0
    &&& forall|i: int, j: int|
        #![trigger config.profiles@[i], config.profiles@[j]]
        0 <= i < j < config.profiles.len() ==> config.profiles@[i].name@
            != config.profiles@[j].name@
    &&& forall|i: int|
        0 <= i < config.profiles.len() ==> valid_profile(#[trigger] config.profiles@[i])
}

/// What is wrong with the settings of an output, the name first, then the mode, then the scale.
pub open spec fn output_fault(output: OutputConfig) -> Option<OutputConfigError> {
    if output.name@.len() == 0 {
        Some(OutputConfigError::EmptyName)
    } else if output.mode is Some && read_mode(output.mode->0@) is Err {
        Some(OutputConfigError::InvalidMode(read_mode(output.mode->0@)->Err_0))
    } else if output.scale is Some && !output.scale->0.in_range() {
        Some(OutputConfigError::ScaleOutOfRange)
    } else {
        None
    }
}

/// Whether an earlier output has the selector of output `i`.
pub open spec fn selector_taken(profile: Profile, i: int) -> bool {
    exists|j: int|
        0 <= j < i && (#[trigger] profile.outputs@[j]).name@ == profile.outputs@[i].name@
}

/// The first fault among the outputs of a profile from `i` on.
pub open spec fn outputs_fault(profile: Profile, i: int) -> Option<ProfileError>
    decreases profile.outputs.len() - i,
{
    if i < 0 || i >= profile.outputs.len() {
        None
    } else if selector_taken(profile, i) {
        Some(ProfileError::DuplicateOutput(i as usize))
    } else if output_fault(profile.outputs@[i]) is Some {
        Some(ProfileError::InvalidOutput(i as usize, output_fault(profile.outputs@[i])->0))
    } else {
        outputs_fault(profile, i + 1)
    }
}

/// The first fault of a profile.
pub open spec fn profile_fault(profile: Profile) -> Option<ProfileError> {
    if profile.name@.len() == 0 {
        Some(ProfileError::EmptyName)
    } else if profile.outputs.len() == 0 {
        Some(ProfileError::NoOutputs)
    } else {
        outputs_fault(profile, 0)
    }
}

/// Whether an earlier profile has the name of profile `i`.
pub open spec fn name_taken(config: Config, i: int) -> bool {
    exists|j: int|
        0 <= j < i && (#[trigger] config.profiles@[j]).name@ == config.profiles@[i].name@
}

/// The first fault among the profiles of a configuration from `i` on.
pub open spec fn profiles_fault(config: Config, i: int) -> Option<ConfigError>
    decreases config.profiles.len() - i,
{
    if i < 0 || i >= config.profiles.len() {
        None
    } else if name_taken(config, i) {
        Some(ConfigError::DuplicateProfile(i as usize))
    } else if profile_fault(config.profiles@[i]) is Some {
        Some(ConfigError::InvalidProfile(i as usize, profile_fault(config.profiles@[i])->0))
    } else {
        profiles_fault(config, i + 1)
    }
}

/// The first fault of a configuration.
pub open spec fn config_fault(config: Config) -> Option<ConfigError> {
    if config.profiles.len() == 0 {
        Some(ConfigError::NoProfiles)
    } else {
        profiles_fault(config, 0)
    }
}

/// The settings of an output are valid exactly when nothing is wrong with them.
pub proof fn output_without_fault_is_valid(output: OutputConfig)
    ensures
        output_fault(output) is None <==> valid_output(output),
{
}

proof fn lemma_outputs_fault(profile: Profile, i: int)
    requires
        0 <= i <= profile.outputs.len(),
    ensures
        outputs_fault(profile, i) is None <==> forall|k: int|
            i <= k < profile.outputs.len() ==> !selector_taken(profile, k) && valid_output(
                #[trigger] profile.outputs@[k],
            ),
    decreases profile.outputs.len() - i,
{
    if i < profile.outputs.len() {
        lemma_outputs_fault(profile, i + 1);
        output_without_fault_is_valid(profile.outputs@[i]);
        let here = profile.outputs@[i];
        if outputs_fault(profile, i) is None {
            assert forall|k: int| i <= k < profile.outputs.len() implies !selector_taken(profile, k)
                && valid_output(#[trigger] profile.outputs@[k]) by {
                if k == i {
                    assert(valid_output(here));
                }
            }
        }
    }
}

/// A profile is valid exactly when nothing is wrong with it.
pub proof fn profile_without_fault_is_valid(profile: Profile)
    ensures
        profile_fault(profile) is None <==> valid_profile(profile),
{
    lemma_outputs_fault(profile, 0);
    if profile_fault(profile) is None {
        assert forall|i: int, j: int|
            #![trigger profile.outputs@[i], profile.outputs@[j]]
            0 <= i < j < profile.outputs.len() implies profile.outputs@[i].name@
            != profile.outputs@[j].name@ by {
            assert(!selector_taken(profile, j));
        }
    }
}

proof fn lemma_profiles_fault(config: Config, i: int)
    requires
        0 <= i <= config.profiles.len(),
    ensures
        profiles_fault(config, i) is None <==> forall|k: int|
            i <= k < config.profiles.len() ==> !name_taken(config, k) && valid_profile(
                #[trigger] config.profiles@[k],
            ),
    decreases config.profiles.len() - i,
{
    if i < config.profiles.len() {
        lemma_profiles_fault(config, i + 1);
        profile_without_fault_is_valid(config.profiles@[i]);
        let here = config.profiles@[i];
        if profiles_fault(config, i) is None {
            assert forall|k: int| i <= k < config.profiles.len() implies !name_taken(config, k)
                && valid_profile(#[trigger] config.profiles@[k]) by {
                if k == i {
                    assert(valid_profile(here));
                }
            }
        }
    }
}

/// A configuration is valid exactly when nothing is wrong with it.
pub proof fn config_without_fault_is_valid(config: Config)
    ensures
        config_fault(config) is None <==> valid_config(config),
{
    lemma_profiles_fault(config, 0);
    if config_fault(config) is None {
        assert forall|i: int, j: int|
            #![trigger config.profiles@[i], config.profiles@[j]]
            0 <= i < j < config.profiles.len() implies config.profiles@[i].name@
            != config.profiles@[j].name@ by {
            assert(!name_taken(config, j));
        }
    }
}

impl Config {
    /// Checks the configuration. The error is the first fault.
    pub fn validate(&self) -> (r: Result<(), ConfigError>)
        ensures
            r is Ok <==> valid_config(*self),
            r is Err ==> config_fault(*self) == Some(r->Err_0),
    {
        proof {
            config_without_fault_is_valid(*self);
        }
        if self.profiles.len() == 0 {
            return Err(ConfigError::NoProfiles);
        }
        for i in 0..self.profiles.len()
            invariant
                self.profiles.len() > 0,
                config_fault(*self) == profiles_fault(*self, i as int),
                config_fault(*self) is None <==> valid_config(*self),
        {
            for j in 0..i
                invariant
                    i < self.profiles.len(),
                    config_fault(*self) == profiles_fault(*self, i as int),
                    config_fault(*self) is None <==> valid_config(*self),
                    forall|k: int|
                        0 <= k < j ==> (#[trigger] self.profiles@[k]).name@
                            != self.profiles@[i as int].name@,
            {
                if self.profiles[j].name == self.profiles[i].name {
                    assert(name_taken(*self, i as int));
                    return Err(ConfigError::DuplicateProfile(i));
                }
            }
            assert(!name_taken(*self, i as int));
            proof {
                profile_without_fault_is_valid(self.profiles@[i as int]);
            }
            match self.profiles[i].validate() {
                Ok(()) => {},
                Err(cause) => {
                    return Err(ConfigError::InvalidProfile(i, cause));
                },
            }
        }
        Ok(())
    }
}

impl Profile {
    /// Checks the profile. The error is the first fault.
    pub fn validate(&self) -> (r: Result<(), ProfileError>)
        ensures
            r is Ok <==> valid_profile(*self),
            r is Err ==> profile_fault(*self) == Some(r->Err_0),
    {
        proof {
            profile_without_fault_is_valid(*self);
        }
        if self.name.as_str().is_empty() {
            return Err(ProfileError::EmptyName);
        }
        if self.outputs.len() == 0 {
            return Err(ProfileError::NoOutputs);
        }
        for i in 0..self.outputs.len()
            invariant
                self.name@.len() > 0,
                self.outputs.len() > 0,
                profile_fault(*self) == outputs_fault(*self, i as int),
                profile_fault(*self) is None <==> valid_profile(*self),
        {
            for j in 0..i
                invariant
                    i < self.outputs.len(),
                    profile_fault(*self) == outputs_fault(*self, i as int),
                    profile_fault(*self) is None <==> valid_profile(*self),
                    forall|k: int|
                        0 <= k < j ==> (#[trigger] self.outputs@[k]).name@
                            != self.outputs@[i as int].name@,
            {
                if self.outputs[j].name == self.outputs[i].name {
                    assert(selector_taken(*self, i as int));
                    return Err(ProfileError::DuplicateOutput(i));
                }
            }
            assert(!selector_taken(*self, i as int));
            proof {
                output_without_fault_is_valid(self.outputs@[i as int]);
            }
            match self.outputs[i].validate() {
                Ok(()) => {},
                Err(cause) => {
                    return Err(ProfileError::InvalidOutput(i, cause));
                },
            }
        }
        Ok(())
    }
}

impl OutputConfig {
    /// Checks the settings of the output. The error is the first fault.
    pub fn validate(&self) -> (r: Result<(), OutputConfigError>)
        ensures
            r is Ok <==> valid_output(*self),
            r is Err ==> output_fault(*self) == Some(r->Err_0),
    {
        if self.name.as_str().is_empty() {
            return Err(OutputConfigError::EmptyName);
        }
        if let Some(mode) = &self.mode {
            match self.parse_mode(mode.as_str()) {
                Ok(_) => {},
                Err(cause) => {
                    return Err(OutputConfigError::InvalidMode(cause));
                },
            }
        }
        if let Some(scale) = &self.scale {
            if !scale.is_in_range() {
                return Err(OutputConfigError::ScaleOutOfRange);
            }
        }
        Ok(())
    }

    /// Reads the text of a mode: width, height, and the refresh rate in millihertz.
    pub fn parse_mode(&self, mode: &str) -> (r: Result<(u32, u32, Option<u32>), ModeError>)
        ensures
            match r {
                Ok((width, height, refresh)) => read_mode(mode@) == Ok::<ModeReading, ModeError>(
                    mode_reading(width, height, refresh),
                ),
                Err(error) => read_mode(mode@) == Err::<ModeReading, ModeError>(error),
            },
    {
        parse_mode_text(mode)
    }
}

/// A valid configuration has profiles, each with a name of its own and with outputs; within a profile each
/// output has a selector of its own, a mode that can be read as a width, a height and perhaps a rate, none
/// of them zero, and a scale above zero and at most ten. Nothing else is asked of it.
pub proof fn what_makes_a_configuration_valid(config: Config)
    ensures
        valid_config(config) <==> {
            &&& config.profiles@.len() > 0
            &&& forall|p: int, q: int|
                #![trigger config.profiles@[p], config.profiles@[q]]
                0 <= p < config.profiles@.len() && 0 <= q < config.profiles@.len()
                    && config.profiles@[p].name@ == config.profiles@[q].name@ ==> p == q
            &&& forall|p: int|
                0 <= p < config.profiles@.len() ==> (#[trigger] config.profiles@[p]).name@.len() > 0
                    && config.profiles@[p].outputs@.len() > 0
            &&& forall|p: int, i: int, j: int|
                #![trigger config.profiles@[p].outputs@[i], config.profiles@[p].outputs@[j]]
                0 <= p < config.profiles@.len() && 0 <= i < config.profiles@[p].outputs@.len() && 0
                    <= j < config.profiles@[p].outputs@.len()
                    && config.profiles@[p].outputs@[i].name@
                    == config.profiles@[p].outputs@[j].name@ ==> i == j
            &&& forall|p: int, i: int|
                0 <= p < config.profiles@.len() && 0 <= i < config.profiles@[p].outputs@.len() ==> {
                    let output = #[trigger] config.profiles@[p].outputs@[i];
                    &&& output.name@.len() > 0
                    &&& output.mode matches Some(text) ==> read_mode(text@) is Ok
                    &&& output.scale matches Some(scale) ==> scale.in_range()
                }
        },
{
    let profiles = config.profiles@;
    if valid_config(config) {
        assert forall|p: int, q: int|
            #![trigger profiles[p], profiles[q]]
            0 <= p < profiles.len() && 0 <= q < profiles.len() && profiles[p].name@
                == profiles[q].name@ implies p == q by {
            if p < q {
                assert(profiles[p].name@ != profiles[q].name@);
            }
            if q < p {
                assert(profiles[q].name@ != profiles[p].name@);
            }
        }
        assert forall|p: int, i: int, j: int|
            #![trigger profiles[p].outputs@[i], profiles[p].outputs@[j]]
            0 <= p < profiles.len() && 0 <= i < profiles[p].outputs@.len() && 0 <= j
                < profiles[p].outputs@.len() && profiles[p].outputs@[i].name@
                == profiles[p].outputs@[j].name@ implies i == j by {
            assert(valid_profile(profiles[p]));
            if i < j {
                assert(profiles[p].outputs@[i].name@ != profiles[p].outputs@[j].name@);
            }
            if j < i {
                assert(profiles[p].outputs@[j].name@ != profiles[p].outputs@[i].name@);
            }
        }
        assert forall|p: int, i: int|
            0 <= p < profiles.len() && 0 <= i < profiles[p].outputs@.len() implies valid_output(
            #[trigger] profiles[p].outputs@[i],
        ) by {
            assert(valid_profile(profiles[p]));
        }
    }
}

/// A mode that can be read has a width and a height above zero, and a rate above zero if it has one.
pub proof fn a_mode_that_is_read_is_not_empty(text: Seq<char>)
    ensures
        read_mode(text) matches Ok(reading) ==> reading.width > 0 && reading.height > 0
            && reading.width <= u32::MAX && reading.height <= u32::MAX && (reading.refresh is Some
            <==> text.contains('@')),
{
}

/// The fault that is reported is there, and nothing in front of it is at fault: a profile that is reported
/// to repeat a name repeats that of an earlier one, and one that is reported as invalid is invalid.
pub proof fn a_reported_fault_is_there(config: Config)
    ensures
        match config_fault(config) {
            None => valid_config(config),
            Some(ConfigError::NoProfiles) => config.profiles@.len() == 0,
            Some(ConfigError::DuplicateProfile(i)) => i < config.profiles@.len() && exists|j: int|
                0 <= j < i && (#[trigger] config.profiles@[j]).name@ == config.profiles@[i as int].name@,
            Some(ConfigError::InvalidProfile(i, fault)) => i < config.profiles@.len() && is_fault_of(
                config.profiles@[i as int],
                fault,
            ),
        },
{
    config_without_fault_is_valid(config);
    if config.profiles.len() > 0 {
        lemma_profiles_fault_is_there(config, 0);
    }
}

/// Whether this is wrong with a profile.
pub open spec fn is_fault_of(profile: Profile, fault: ProfileError) -> bool {
    match fault {
        ProfileError::EmptyName => profile.name@.len() == 0,
        ProfileError::NoOutputs => profile.outputs@.len() == 0,
        ProfileError::DuplicateOutput(i) => i < profile.outputs@.len() && exists|j: int|
            0 <= j < i && (#[trigger] profile.outputs@[j]).name@ == profile.outputs@[i as int].name@,
        ProfileError::InvalidOutput(i, error) => i < profile.outputs@.len() && {
            let output = profile.outputs@[i as int];
            match error {
                OutputConfigError::EmptyName => output.name@.len() == 0,
                OutputConfigError::InvalidMode(reason) => output.mode matches Some(text)
                    && read_mode(text@) == Err::<ModeReading, ModeError>(reason),
                OutputConfigError::ScaleOutOfRange => output.scale matches Some(scale)
                    && !scale.in_range(),
            }
        },
    }
}

proof fn lemma_profiles_fault_is_there(config: Config, i: int)
    requires
        0 <= i,
    ensures
        match profiles_fault(config, i) {
            None => true,
            Some(ConfigError::NoProfiles) => false,
            Some(ConfigError::DuplicateProfile(k)) => k < config.profiles@.len() && exists|j: int|
                0 <= j < k && (#[trigger] config.profiles@[j]).name@ == config.profiles@[k as int].name@,
            Some(ConfigError::InvalidProfile(k, fault)) => k < config.profiles@.len() && is_fault_of(
                config.profiles@[k as int],
                fault,
            ),
        },
    decreases config.profiles.len() - i,
{
    if i < config.profiles.len() {
        assert(i as usize == i);
        if !name_taken(config, i) {
            if profile_fault(config.profiles@[i]) is Some {
                lemma_outputs_fault_is_there(config.profiles@[i], 0);
            } else {
                lemma_profiles_fault_is_there(config, i + 1);
            }
        }
    }
}

proof fn lemma_outputs_fault_is_there(profile: Profile, i: int)
    requires
        0 <= i,
    ensures
        outputs_fault(profile, i) matches Some(fault) ==> is_fault_of(profile, fault),
    decreases profile.outputs.len() - i,
{
    if i < profile.outputs.len() {
        assert(i as usize == i);
        if !selector_taken(profile, i) && output_fault(profile.outputs@[i]) is None {
            lemma_outputs_fault_is_there(profile, i + 1);
        }
    }
}

} // verus!
