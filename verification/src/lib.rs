//! Link/protocol router: the verified core.
//!
//! `br` sends each link to the right browser or profile: filters clean the
//! URL, rules pick a target, and the picker asks the user when no rule
//! decides. This crate holds those decisions and what the command line, the
//! daemon, the picker, the settings window and the per-OS integrations
//! compute; the application around it performs the I/O.
use vstd::prelude::*;

pub mod config;
pub mod daemon;
pub mod desktop_entry;
pub mod dispatch;
pub mod engine;
pub mod filters;
pub mod glob;
pub mod i18n;
pub mod linux;
pub mod macos;
pub mod model;
pub mod picker;
pub mod platform;
pub mod settings;
pub mod text;
pub mod urls;
pub mod windows;

verus! {
} // verus!
