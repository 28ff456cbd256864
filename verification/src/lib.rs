//! Display-profile and wallpaper management for Wayland compositors: the rules that pick,
//! preview, apply and persist display configurations, stated as contracts and proved.

pub mod text;
pub mod number;
pub mod natural;
pub mod paths;
pub mod double;
pub mod rate;
pub mod scale;
pub mod table;
pub mod config;
pub mod ipc;
pub mod preview;
pub mod wayland;
pub mod profile;
pub mod awww;
pub mod initialize;
pub mod daemon;
pub mod activation;
pub mod lifecycle;
pub mod laws;

pub use daemon::NagameDaemon;
