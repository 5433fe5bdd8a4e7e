//! The decision logic of a keyboard-driven application launcher.
//!
//! The windows, hooks and registry calls live in the application; this library
//! holds what they decide on.
pub mod appbar;
pub mod apps;
pub mod autostart;
pub mod calc;
pub mod cli;
pub mod favorites;
pub mod fuzzy;
pub mod geometry;
pub mod hook;
pub mod launcher;
pub mod laws;
pub mod power;
pub mod state;
pub mod taskbar;
pub mod text;
pub mod time_fn;
pub mod topbar;
pub mod tray;
pub mod volume;
pub mod wrap;
