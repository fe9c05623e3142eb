//! Parsed user intent, and the validation of user-supplied identifiers.
//!
//! The surrounding binary parses the command line and hands the core these
//! plain command values; the id parsers here are the rules the binary
//! applies to raw argument strings.

use vstd::prelude::*;
use vstd::string::*;

use crate::defs::AppFilter;
use crate::strutil::{int_value, parse_u64, parses_as_u64};

verus! {

/// Internal (boot-time) commands.
pub enum InternalCommand {
    BootComplete,
}

/// Application-manager commands, passed through to the external
/// application manager.
pub enum AppCommand {
    Install { path: String },
    Uninstall { app_id: u64 },
    Run { app_id: u64, page: Option<String> },
    List { filter: Vec<AppFilter> },
}

/// Module-manager commands.
pub enum ModuleCommand {
    Install { path: String, clean: bool },
    Uninstall { module_id: String },
    List,
}

/// A character a module id may contain: ASCII letters, digits, underscore.
pub open spec fn is_id_char(c: char) -> bool {
    (48 <= c as u32 && c as u32 <= 57) || (65 <= c as u32 && c as u32 <= 90) || (97 <= c as u32
        && c as u32 <= 122) || c == '_'
}

/// Every character of `s` is a module-id character.
pub open spec fn valid_module_id(s: Seq<char>) -> bool {
    forall|i: int| 0 <= i < s.len() ==> is_id_char(s[i])
}

/// Accept a module id made of letters, digits and underscores only.
pub fn parse_module_id(value: &str) -> (r: Result<String, String>)
    ensures
        match r {
            Ok(v) => valid_module_id(value@) && v@ == value@,
            Err(m) => !valid_module_id(value@) && m@
                == "module id must contain only letters, numbers, or underscore"@,
        },
{
    let n = value.unicode_len();
    let mut i: usize = 0;
    while i < n
        invariant
            0 <= i <= n,
            n == value@.len(),
            forall|j: int| 0 <= j < i ==> is_id_char(value@[j]),
        decreases n - i,
    {
        let c = value.get_char(i);
        let u = c as u32;
        let ok = (48 <= u && u <= 57) || (65 <= u && u <= 90) || (97 <= u && u <= 122) || c == '_';
        if !ok {
            return Err("module id must contain only letters, numbers, or underscore".to_owned());
        }
        i = i + 1;
    }
    Ok(value.to_owned())
}

/// Accept an application id: an unsigned 64-bit decimal integer.
pub fn parse_app_id(value: &str) -> (r: Result<u64, String>)
    ensures
        match r {
            Ok(v) => parses_as_u64(value@) && v as int == int_value(value@),
            Err(m) => !parses_as_u64(value@) && m@ == "app id must be an integer"@,
        },
{
    match parse_u64(value) {
        Some(v) => Ok(v),
        None => Err("app id must be an integer".to_owned()),
    }
}

/// An app id is unusual when it is not 16 digits starting with `80`; such
/// ids are accepted but worth a warning.
pub open spec fn unusual_app_id(s: Seq<char>) -> bool {
    s.len() != 16 || !(s[0] == '8' && s[1] == '0')
}

/// Whether an accepted app id looks unusual.
pub fn app_id_unusual(value: &str) -> (r: bool)
    ensures
        r == unusual_app_id(value@),
{
    let n = value.unicode_len();
    if n != 16 {
        return true;
    }
    !(value.get_char(0) == '8' && value.get_char(1) == '0')
}

} // verus!
