//! Display outputs as the compositor announces them, and the configurations asked of it.

pub mod effects;
pub mod events;
pub mod laws;
pub mod output;
pub mod persistent;
pub mod protocols;
pub mod readback;

pub use output::OutputManager;
pub use protocols::{HeadConfiguration, OutputHead, OutputMode, WaylandState};
