//! The application configuration record.  Loading it from disk is the
//! binary's job; the core only defines the record and its default.

use vstd::prelude::*;

verus! {

/// The manager's configuration.  No options are defined yet.
#[derive(Debug)]
pub struct AppConfig {}

impl Default for AppConfig {
    fn default() -> (r: AppConfig)
        ensures
            r == (AppConfig {  }),
    {
        AppConfig {  }
    }
}

} // verus!
