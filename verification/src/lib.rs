//! Procedural gradient wallpapers: the configuration model, its validation,
//! the ordering of gradients and stops, the event and command vocabulary, the
//! gradient cycle, and the bookkeeping of per-output surfaces.
use vstd::prelude::*;

pub mod cli;
pub mod config;
pub mod cycle;
pub mod file_watcher;
pub mod order;
pub mod render;
pub mod text;
pub mod wallpaper;

verus! {

/// Name of the configuration file inside the configuration directory.
pub const CONFIG_FILE: &'static str = "hyprgradient.conf";

/// Name of the file through which a running instance receives events.
pub const EVENT_FILE: &'static str = ".hyprgradientevent";

} // verus!
