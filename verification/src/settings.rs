//! User settings.
use vstd::prelude::*;

verus! {

/// The launcher's settings.
#[derive(Debug, Clone)]
pub struct Settings {
    /// The user's SteamGridDB key, if any.
    pub sgdb_api_key: Option<String>,
    /// Whether to look for an update at start.
    pub check_updates_on_launch: bool,
}

impl Default for Settings {
    /// No SteamGridDB key; updates checked at start.
    fn default() -> (r: Settings)
        ensures
            r.sgdb_api_key is None,
            r.check_updates_on_launch,
    {
        Settings { sgdb_api_key: None, check_updates_on_launch: true }
    }
}

} // verus!
