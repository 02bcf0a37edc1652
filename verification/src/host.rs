//! The host that a script runs on.

use vstd::prelude::*;

use crate::config::Config;

verus! {

/// The settings and the directories of a host.
pub struct Host {
    pub config: Config,
    /// The home directory of the user.
    pub home_dir: String,
    /// The directory for the configuration of programs.
    pub config_dir: String,
}

} // verus!
