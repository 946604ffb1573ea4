//! The tool's portable configuration, kept next to its executable.
use vstd::prelude::*;

verus! {

/// Which agent settings document this machine's hooks go into.
#[derive(Clone, Debug)]
pub struct Config {
    /// Absolute path to the settings.json the agent on this machine uses.
    pub settings_path: String,
}

impl Config {
    /// A configuration that points at `settings_path`.
    pub fn new(settings_path: String) -> (r: Config)
        ensures
            r.settings_path@ == settings_path@,
    {
        Config { settings_path }
    }
}

} // verus!
