//! Local push-to-talk dictation: the decisions behind the daemon, its
//! configuration file, its status protocol and its service control.

use vstd::prelude::*;

pub mod audio;
pub mod config;
pub mod daemon;
pub mod doctor;
pub mod hotkey;
pub mod ipc;
pub mod numbers;
pub mod output;
pub mod panel;
pub mod rewrite;
pub mod service;
pub mod stt;
pub mod text;

verus! {

/// The product name, used for config paths, the status socket and the
/// virtual keyboard's name.
pub const APP_NAME: &'static str = "sensor";

} // verus!
