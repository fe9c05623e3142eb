//! Device-resident module/overlay manager core.
//!
//! The library holds the verified logic of the manager: metadata parsing and
//! validation, the staging operations over the installed and update-pending
//! module sets, the bind-mount planning walk over a module's `system/` tree,
//! and the install/uninstall/boot lifecycle state machine.  All filesystem,
//! subprocess and mount side effects are performed by the surrounding binary,
//! which observes the world as plain values and carries out the actions these
//! functions decide on.

pub mod cli;
pub mod config;
pub mod defs;
pub mod fstree;
pub mod lifecycle;
pub mod props;
pub mod staging;
pub mod strutil;
