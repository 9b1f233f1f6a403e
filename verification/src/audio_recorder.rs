//! The audio-recorder plugin's desktop side: recording there is done by the
//! library's own recorder, so every call of the plugin reports it as
//! mobile-only.

use vstd::prelude::*;

use crate::text::{chars_of, string_of};

verus! {

/// The plugin's errors.
#[derive(Debug, Clone)]
pub enum PluginError {
    Recording(String),
}

/// What every desktop call of the plugin answers.
pub const MOBILE_ONLY: &'static str =
    "audio-recorder is mobile-only in Ogma; desktop recording uses the built-in recorder";

/// The answer of every desktop call of the plugin.
pub fn mobile_only<T>() -> (r: Result<T, PluginError>)
    ensures
        r matches Err(PluginError::Recording(m)) && m@ == MOBILE_ONLY@,
{
    Err(PluginError::Recording(string_of(chars_of(MOBILE_ONLY).as_slice())))
}

} // verus!
