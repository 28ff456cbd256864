//! The values of a configuration: profiles, their outputs, and the settings of an output.

use crate::scale::Scale;
use vstd::prelude::*;

verus! {

/// A configuration: the display profiles, in order of preference.
#[derive(Clone, Debug)]
pub struct Config {
    pub profiles: Vec<Profile>,
}

/// A display profile: the outputs it is for and their settings, and what to do on activation.
#[derive(Clone, Debug)]
pub struct Profile {
    /// Identifies the profile.
    pub name: String,
    /// One entry for each output of the arrangement.
    pub outputs: Vec<OutputConfig>,
    /// Commands to run when the profile is activated.
    pub commands: Vec<String>,
    /// The wallpaper to set when the profile is activated.
    pub wallpaper: Option<String>,
    /// A directory to pick a random wallpaper from; takes precedence over `wallpaper`.
    pub wallpaper_dir: Option<String>,
}

/// The settings of one output.
#[derive(Clone, Debug)]
pub struct OutputConfig {
    /// Selects the output: its name, or a pattern for its name or its identification.
    pub name: String,
    /// Whether the output is enabled.
    pub enabled: bool,
    /// The display mode, such as `1920x1080@60`.
    pub mode: Option<String>,
    /// The scaling factor.
    pub scale: Option<Scale>,
    /// The place `[x, y]` in the shared coordinate space.
    pub position: Option<[i32; 2]>,
    /// Rotation and reflection.
    pub transform: Option<Transform>,
    /// Whether adaptive sync is on.
    pub adaptive_sync: Option<bool>,
}

/// Rotation and reflection of an output.
#[derive(Clone, Copy, PartialEq, Eq, Debug, Structural)]
pub enum Transform {
    Normal,
    Rotate90,
    Rotate180,
    Rotate270,
    Flipped,
    Flipped90,
    Flipped180,
    Flipped270,
}

impl Transform {
    /// The number of the transform in the Wayland protocol.
    pub open spec fn wayland_value(self) -> u32 {
        match self {
            Transform::Normal => 0,
            Transform::Rotate90 => 1,
            Transform::Rotate180 => 2,
            Transform::Rotate270 => 3,
            Transform::Flipped => 4,
            Transform::Flipped90 => 5,
            Transform::Flipped180 => 6,
            Transform::Flipped270 => 7,
        }
    }

    /// The number of the transform in the Wayland protocol.
    pub fn to_wayland_transform(self) -> (value: u32)
        ensures
            value == self.wayland_value(),
    {
        match self {
            Transform::Normal => 0,
            Transform::Rotate90 => 1,
            Transform::Rotate180 => 2,
            Transform::Rotate270 => 3,
            Transform::Flipped => 4,
            Transform::Flipped90 => 5,
            Transform::Flipped180 => 6,
            Transform::Flipped270 => 7,
        }
    }

    /// The transform that a number of the Wayland protocol stands for, `Normal` for an unknown one.
    pub open spec fn of_wayland_value(value: u32) -> Transform {
        match value {
            1 => Transform::Rotate90,
            2 => Transform::Rotate180,
            3 => Transform::Rotate270,
            4 => Transform::Flipped,
            5 => Transform::Flipped90,
            6 => Transform::Flipped180,
            7 => Transform::Flipped270,
            _ => Transform::Normal,
        }
    }

    /// The transform that a number of the Wayland protocol stands for, `Normal` for an unknown one.
    pub fn from_wayland_transform(value: u32) -> (transform: Transform)
        ensures
            transform == Transform::of_wayland_value(value),
    {
        match value {
            1 => Transform::Rotate90,
            2 => Transform::Rotate180,
            3 => Transform::Rotate270,
            4 => Transform::Flipped,
            5 => Transform::Flipped90,
            6 => Transform::Flipped180,
            7 => Transform::Flipped270,
            _ => Transform::Normal,
        }
    }
}

/// The number of a transform stands for that transform, and different transforms have different
/// numbers.
pub proof fn transform_numbers_are_distinct(a: Transform, b: Transform)
    ensures
        Transform::of_wayland_value(a.wayland_value()) == a,
        a.wayland_value() == b.wayland_value() ==> a == b,
{
}

/// Whether an output is enabled if its settings do not say.
pub fn default_enabled() -> (enabled: bool)
    ensures
        enabled,
{
    true
}

impl Transform {
    /// The transform a quarter turn further.
    pub open spec fn turned(self) -> Transform {
        match self {
            Transform::Normal => Transform::Rotate90,
            Transform::Rotate90 => Transform::Rotate180,
            Transform::Rotate180 => Transform::Rotate270,
            Transform::Rotate270 => Transform::Normal,
            Transform::Flipped => Transform::Flipped90,
            Transform::Flipped90 => Transform::Flipped180,
            Transform::Flipped180 => Transform::Flipped270,
            Transform::Flipped270 => Transform::Flipped,
        }
    }

    /// The transform with a reflection in front of it.
    pub open spec fn flipped(self) -> Transform {
        match self {
            Transform::Normal => Transform::Flipped,
            Transform::Rotate90 => Transform::Flipped90,
            Transform::Rotate180 => Transform::Flipped180,
            Transform::Rotate270 => Transform::Flipped270,
            Transform::Flipped => Transform::Normal,
            Transform::Flipped90 => Transform::Rotate90,
            Transform::Flipped180 => Transform::Rotate180,
            Transform::Flipped270 => Transform::Rotate270,
        }
    }
}

/// The protocol counts quarter turns from zero for the normal orientation, and four for a reflection. What
/// it does not know counts as normal.
pub proof fn transform_numbers_count_turns(transform: Transform, unknown: u32)
    ensures
        Transform::Normal.wayland_value() == 0,
        transform.wayland_value() < 8,
        transform.turned().wayland_value() / 4 == transform.wayland_value() / 4,
        transform.turned().wayland_value() % 4 == (transform.wayland_value() % 4 + 1) % 4,
        transform.flipped().wayland_value() == (transform.wayland_value() + 4) % 8,
        unknown >= 8 ==> Transform::of_wayland_value(unknown) == Transform::Normal,
{
}

} // verus!
