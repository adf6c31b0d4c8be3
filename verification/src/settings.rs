//! The application's user settings: plain values with their documented
//! defaults. Reading and writing the settings file is the surrounding
//! application's work.

use vstd::prelude::*;
use vstd::string::StringExecFns;

verus! {

/// Timer and appearance settings, persisted beside the store.
#[derive(Debug, Clone, PartialEq)]
pub struct AppSettings {
    pub theme: String,
    pub work_duration: u32,
    pub break_duration: u32,
    pub long_break_duration: u32,
    pub sessions_until_long_break: u32,
    pub sound_enabled: bool,
}

impl Default for AppSettings {
    /// The light theme, a 25-minute work interval, 5- and 15-minute breaks,
    /// a long break every fourth session, and sound on.
    fn default() -> (r: AppSettings)
        ensures
            r.theme@ == "light"@,
            r.work_duration == 25,
            r.break_duration == 5,
            r.long_break_duration == 15,
            r.sessions_until_long_break == 4,
            r.sound_enabled,
    {
        AppSettings {
            theme: String::from_str("light"),
            work_duration: 25,
            break_duration: 5,
            long_break_duration: 15,
            sessions_until_long_break: 4,
            sound_enabled: true,
        }
    }
}

} // verus!
