//! Shared definitions: the execution environment, application filters, and
//! the fixed on-device locations the manager works in.

use vstd::prelude::*;

verus! {

/// Where the process is running.  The core assumes it is only invoked on
/// the device; detection and host-side forwarding live in the binary.
#[derive(Clone, Copy, Debug, PartialEq, Eq)]
pub enum Environment {
    Host,
    Device,
}

/// Which applications a listing covers.
#[derive(Clone, Copy, Debug)]
pub enum AppFilter {
    User,
    Builtin,
    BuiltinThirdparty,
}

pub const CONFIG_FILE: &'static str = "/userdisk/scriba/config.toml";

pub const LOGS_DIR: &'static str = "/userdisk/scriba/logs/";

pub const BIN_DIR: &'static str = "/userdisk/scriba/bin/";

pub const MODULES_DIR: &'static str = "/userdisk/scriba/modules/";

pub const MODULES_UPDATE_DIR: &'static str = "/userdisk/scriba/modules_update/";

pub const SAFE_MODE_FLAG: &'static str = "/userdisk/Favorite/safe_mode.flag";

} // verus!
