//! Settings-related values the core computes: the settings file location
//! under a configuration directory, and the default server base URL used
//! when no settings file exists.

use vstd::prelude::*;
use crate::text::concat_str;

verus! {

/// The settings file inside the given configuration directory.
pub fn settings_path(config_dir: &str) -> (r: String)
    ensures
        r@ == config_dir@ + "/settings.json"@,
{
    concat_str(config_dir, "/settings.json")
}

/// The server base URL assumed when no settings file exists.
pub fn default_server_url() -> (r: String)
    ensures
        r@ == "http://localhost:11434"@,
{
    "http://localhost:11434".to_owned()
}

} // verus!
